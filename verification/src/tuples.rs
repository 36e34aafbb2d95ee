//! Tuples: the parts one after the other, with nothing between them.

use crate::common::ByteEndian;
use crate::decoder::{Decoder, DecoderExt, DecoderResult, Deserializer, Failure};
use crate::encoder::{Encoder, Serializer};
use crate::laws::Lawful;
use vstd::prelude::*;

verus! {

impl<A: Serializer, B: Serializer> Serializer for (A, B) {
    open spec fn wire(&self, endian: ByteEndian) -> Seq<u8> {
        self.0.wire(endian) + self.1.wire(endian)
    }

    fn encode<Enc: Encoder>(&self, encoder: &mut Enc) {
        self.0.encode(encoder);
        self.1.encode(encoder);
    }
}

impl<A: Deserializer, B: Deserializer> Deserializer for (A, B) {
    type Model = (A::Model, B::Model);

    open spec fn model(&self) -> (A::Model, B::Model) {
        (self.0.model(), self.1.model())
    }

    open spec fn parse(input: Seq<u8>, at: nat, endian: ByteEndian) -> Result<
        ((A::Model, B::Model), nat),
        Failure,
    > {
        match A::parse(input, at, endian) {
            Ok((v0, end0)) => match B::parse(input, end0, endian) {
                Ok((v1, end1)) => Ok(((v0, v1), end1)),
                Err(failure) => Err(failure),
            },
            Err(failure) => Err(failure),
        }
    }

    fn decode<Dec: Decoder>(decoder: &mut Dec) -> (result: DecoderResult<Self>) {
        let v0 = match decoder.decode_value::<A>() {
            Ok(value) => value,
            Err(error) => {
                return Err(error);
            },
        };
        let v1 = match decoder.decode_value::<B>() {
            Ok(value) => value,
            Err(error) => {
                return Err(error);
            },
        };
        Ok((v0, v1))
    }
}

impl<A: Lawful, B: Lawful> Lawful for (A, B) {
    open spec fn representable(&self) -> bool {
        self.0.representable() && self.1.representable()
    }

    proof fn lemma_round_trip(&self, endian: ByteEndian, before: Seq<u8>, after: Seq<u8>) {
        let input = before + self.wire(endian) + after;
        let first = self.0.wire(endian);
        let second = self.1.wire(endian);
        self.0.lemma_round_trip(endian, before, second + after);
        assert(before + first + (second + after) =~= input);
        self.1.lemma_round_trip(endian, before + first, after);
        assert((before + first) + second + after =~= input);
    }

    proof fn lemma_truncated(&self, endian: ByteEndian, before: Seq<u8>, kept: nat) {
        let input = before + self.wire(endian).take(kept as int);
        let first = self.0.wire(endian);
        let second = self.1.wire(endian);
        if kept < first.len() {
            self.0.lemma_truncated(endian, before, kept);
            assert(before + first.take(kept as int) =~= input);
        } else {
            let rest = (kept - first.len()) as nat;
            let cut = second.take(rest as int);
            self.0.lemma_round_trip(endian, before, cut);
            assert(before + first + cut =~= input);
            self.1.lemma_truncated(endian, before + first, rest);
            assert((before + first) + cut =~= input);
        }
    }
}

impl<A: Serializer, B: Serializer, C: Serializer> Serializer for (A, B, C) {
    open spec fn wire(&self, endian: ByteEndian) -> Seq<u8> {
        self.0.wire(endian) + self.1.wire(endian) + self.2.wire(endian)
    }

    fn encode<Enc: Encoder>(&self, encoder: &mut Enc) {
        self.0.encode(encoder);
        self.1.encode(encoder);
        self.2.encode(encoder);
    }
}

impl<A: Deserializer, B: Deserializer, C: Deserializer> Deserializer for (A, B, C) {
    type Model = (A::Model, B::Model, C::Model);

    open spec fn model(&self) -> (A::Model, B::Model, C::Model) {
        (self.0.model(), self.1.model(), self.2.model())
    }

    open spec fn parse(input: Seq<u8>, at: nat, endian: ByteEndian) -> Result<
        ((A::Model, B::Model, C::Model), nat),
        Failure,
    > {
        match A::parse(input, at, endian) {
            Ok((v0, end0)) => match B::parse(input, end0, endian) {
                Ok((v1, end1)) => match C::parse(input, end1, endian) {
                    Ok((v2, end2)) => Ok(((v0, v1, v2), end2)),
                    Err(failure) => Err(failure),
                },
                Err(failure) => Err(failure),
            },
            Err(failure) => Err(failure),
        }
    }

    fn decode<Dec: Decoder>(decoder: &mut Dec) -> (result: DecoderResult<Self>) {
        let v0 = match decoder.decode_value::<A>() {
            Ok(value) => value,
            Err(error) => {
                return Err(error);
            },
        };
        let v1 = match decoder.decode_value::<B>() {
            Ok(value) => value,
            Err(error) => {
                return Err(error);
            },
        };
        let v2 = match decoder.decode_value::<C>() {
            Ok(value) => value,
            Err(error) => {
                return Err(error);
            },
        };
        Ok((v0, v1, v2))
    }
}

impl<A: Lawful, B: Lawful, C: Lawful> Lawful for (A, B, C) {
    open spec fn representable(&self) -> bool {
        self.0.representable() && self.1.representable() && self.2.representable()
    }

    proof fn lemma_round_trip(&self, endian: ByteEndian, before: Seq<u8>, after: Seq<u8>) {
        let input = before + self.wire(endian) + after;
        let front = (self.0, self.1);
        let head = front.wire(endian);
        let tail = self.2.wire(endian);
        front.lemma_round_trip(endian, before, tail + after);
        assert(before + head + (tail + after) =~= input);
        self.2.lemma_round_trip(endian, before + head, after);
        assert((before + head) + tail + after =~= input);
    }

    proof fn lemma_truncated(&self, endian: ByteEndian, before: Seq<u8>, kept: nat) {
        let input = before + self.wire(endian).take(kept as int);
        let front = (self.0, self.1);
        let head = front.wire(endian);
        let tail = self.2.wire(endian);
        if kept < head.len() {
            front.lemma_truncated(endian, before, kept);
            assert(before + head.take(kept as int) =~= input);
        } else {
            let rest = (kept - head.len()) as nat;
            let cut = tail.take(rest as int);
            front.lemma_round_trip(endian, before, cut);
            assert(before + head + cut =~= input);
            self.2.lemma_truncated(endian, before + head, rest);
            assert((before + head) + cut =~= input);
        }
    }
}

impl<A: Serializer, B: Serializer, C: Serializer, D: Serializer> Serializer for (A, B, C, D) {
    open spec fn wire(&self, endian: ByteEndian) -> Seq<u8> {
        self.0.wire(endian) + self.1.wire(endian) + self.2.wire(endian) + self.3.wire(endian)
    }

    fn encode<Enc: Encoder>(&self, encoder: &mut Enc) {
        self.0.encode(encoder);
        self.1.encode(encoder);
        self.2.encode(encoder);
        self.3.encode(encoder);
    }
}

impl<A: Deserializer, B: Deserializer, C: Deserializer, D: Deserializer> Deserializer for (A, B, C, D) {
    type Model = (A::Model, B::Model, C::Model, D::Model);

    open spec fn model(&self) -> (A::Model, B::Model, C::Model, D::Model) {
        (self.0.model(), self.1.model(), self.2.model(), self.3.model())
    }

    open spec fn parse(input: Seq<u8>, at: nat, endian: ByteEndian) -> Result<
        ((A::Model, B::Model, C::Model, D::Model), nat),
        Failure,
    > {
        match A::parse(input, at, endian) {
            Ok((v0, end0)) => match B::parse(input, end0, endian) {
                Ok((v1, end1)) => match C::parse(input, end1, endian) {
                    Ok((v2, end2)) => match D::parse(input, end2, endian) {
                        Ok((v3, end3)) => Ok(((v0, v1, v2, v3), end3)),
                        Err(failure) => Err(failure),
                    },
                    Err(failure) => Err(failure),
                },
                Err(failure) => Err(failure),
            },
            Err(failure) => Err(failure),
        }
    }

    fn decode<Dec: Decoder>(decoder: &mut Dec) -> (result: DecoderResult<Self>) {
        let v0 = match decoder.decode_value::<A>() {
            Ok(value) => value,
            Err(error) => {
                return Err(error);
            },
        };
        let v1 = match decoder.decode_value::<B>() {
            Ok(value) => value,
            Err(error) => {
                return Err(error);
            },
        };
        let v2 = match decoder.decode_value::<C>() {
            Ok(value) => value,
            Err(error) => {
                return Err(error);
            },
        };
        let v3 = match decoder.decode_value::<D>() {
            Ok(value) => value,
            Err(error) => {
                return Err(error);
            },
        };
        Ok((v0, v1, v2, v3))
    }
}

impl<A: Lawful, B: Lawful, C: Lawful, D: Lawful> Lawful for (A, B, C, D) {
    open spec fn representable(&self) -> bool {
        self.0.representable() && self.1.representable() && self.2.representable() && self.3.representable()
    }

    proof fn lemma_round_trip(&self, endian: ByteEndian, before: Seq<u8>, after: Seq<u8>) {
        let input = before + self.wire(endian) + after;
        let front = (self.0, self.1, self.2);
        let head = front.wire(endian);
        let tail = self.3.wire(endian);
        front.lemma_round_trip(endian, before, tail + after);
        assert(before + head + (tail + after) =~= input);
        self.3.lemma_round_trip(endian, before + head, after);
        assert((before + head) + tail + after =~= input);
    }

    proof fn lemma_truncated(&self, endian: ByteEndian, before: Seq<u8>, kept: nat) {
        let input = before + self.wire(endian).take(kept as int);
        let front = (self.0, self.1, self.2);
        let head = front.wire(endian);
        let tail = self.3.wire(endian);
        if kept < head.len() {
            front.lemma_truncated(endian, before, kept);
            assert(before + head.take(kept as int) =~= input);
        } else {
            let rest = (kept - head.len()) as nat;
            let cut = tail.take(rest as int);
            front.lemma_round_trip(endian, before, cut);
            assert(before + head + cut =~= input);
            self.3.lemma_truncated(endian, before + head, rest);
            assert((before + head) + cut =~= input);
        }
    }
}

impl<A: Serializer, B: Serializer, C: Serializer, D: Serializer, E: Serializer> Serializer for (A, B, C, D, E) {
    open spec fn wire(&self, endian: ByteEndian) -> Seq<u8> {
        self.0.wire(endian) + self.1.wire(endian) + self.2.wire(endian) + self.3.wire(endian) + self.4.wire(endian)
    }

    fn encode<Enc: Encoder>(&self, encoder: &mut Enc) {
        self.0.encode(encoder);
        self.1.encode(encoder);
        self.2.encode(encoder);
        self.3.encode(encoder);
        self.4.encode(encoder);
    }
}

impl<A: Deserializer, B: Deserializer, C: Deserializer, D: Deserializer, E: Deserializer> Deserializer for (A, B, C, D, E) {
    type Model = (A::Model, B::Model, C::Model, D::Model, E::Model);

    open spec fn model(&self) -> (A::Model, B::Model, C::Model, D::Model, E::Model) {
        (self.0.model(), self.1.model(), self.2.model(), self.3.model(), self.4.model())
    }

    open spec fn parse(input: Seq<u8>, at: nat, endian: ByteEndian) -> Result<
        ((A::Model, B::Model, C::Model, D::Model, E::Model), nat),
        Failure,
    > {
        match A::parse(input, at, endian) {
            Ok((v0, end0)) => match B::parse(input, end0, endian) {
                Ok((v1, end1)) => match C::parse(input, end1, endian) {
                    Ok((v2, end2)) => match D::parse(input, end2, endian) {
                        Ok((v3, end3)) => match E::parse(input, end3, endian) {
                            Ok((v4, end4)) => Ok(((v0, v1, v2, v3, v4), end4)),
                            Err(failure) => Err(failure),
                        },
                        Err(failure) => Err(failure),
                    },
                    Err(failure) => Err(failure),
                },
                Err(failure) => Err(failure),
            },
            Err(failure) => Err(failure),
        }
    }

    fn decode<Dec: Decoder>(decoder: &mut Dec) -> (result: DecoderResult<Self>) {
        let v0 = match decoder.decode_value::<A>() {
            Ok(value) => value,
            Err(error) => {
                return Err(error);
            },
        };
        let v1 = match decoder.decode_value::<B>() {
            Ok(value) => value,
            Err(error) => {
                return Err(error);
            },
        };
        let v2 = match decoder.decode_value::<C>() {
            Ok(value) => value,
            Err(error) => {
                return Err(error);
            },
        };
        let v3 = match decoder.decode_value::<D>() {
            Ok(value) => value,
            Err(error) => {
                return Err(error);
            },
        };
        let v4 = match decoder.decode_value::<E>() {
            Ok(value) => value,
            Err(error) => {
                return Err(error);
            },
        };
        Ok((v0, v1, v2, v3, v4))
    }
}

impl<A: Lawful, B: Lawful, C: Lawful, D: Lawful, E: Lawful> Lawful for (A, B, C, D, E) {
    open spec fn representable(&self) -> bool {
        self.0.representable() && self.1.representable() && self.2.representable() && self.3.representable() && self.4.representable()
    }

    proof fn lemma_round_trip(&self, endian: ByteEndian, before: Seq<u8>, after: Seq<u8>) {
        let input = before + self.wire(endian) + after;
        let front = (self.0, self.1, self.2, self.3);
        let head = front.wire(endian);
        let tail = self.4.wire(endian);
        front.lemma_round_trip(endian, before, tail + after);
        assert(before + head + (tail + after) =~= input);
        self.4.lemma_round_trip(endian, before + head, after);
        assert((before + head) + tail + after =~= input);
    }

    proof fn lemma_truncated(&self, endian: ByteEndian, before: Seq<u8>, kept: nat) {
        let input = before + self.wire(endian).take(kept as int);
        let front = (self.0, self.1, self.2, self.3);
        let head = front.wire(endian);
        let tail = self.4.wire(endian);
        if kept < head.len() {
            front.lemma_truncated(endian, before, kept);
            assert(before + head.take(kept as int) =~= input);
        } else {
            let rest = (kept - head.len()) as nat;
            let cut = tail.take(rest as int);
            front.lemma_round_trip(endian, before, cut);
            assert(before + head + cut =~= input);
            self.4.lemma_truncated(endian, before + head, rest);
            assert((before + head) + cut =~= input);
        }
    }
}

impl<A: Serializer, B: Serializer, C: Serializer, D: Serializer, E: Serializer, F: Serializer> Serializer for (A, B, C, D, E, F) {
    open spec fn wire(&self, endian: ByteEndian) -> Seq<u8> {
        self.0.wire(endian) + self.1.wire(endian) + self.2.wire(endian) + self.3.wire(endian) + self.4.wire(endian) + self.5.wire(endian)
    }

    fn encode<Enc: Encoder>(&self, encoder: &mut Enc) {
        self.0.encode(encoder);
        self.1.encode(encoder);
        self.2.encode(encoder);
        self.3.encode(encoder);
        self.4.encode(encoder);
        self.5.encode(encoder);
    }
}

impl<A: Deserializer, B: Deserializer, C: Deserializer, D: Deserializer, E: Deserializer, F: Deserializer> Deserializer for (A, B, C, D, E, F) {
    type Model = (A::Model, B::Model, C::Model, D::Model, E::Model, F::Model);

    open spec fn model(&self) -> (A::Model, B::Model, C::Model, D::Model, E::Model, F::Model) {
        (self.0.model(), self.1.model(), self.2.model(), self.3.model(), self.4.model(), self.5.model())
    }

    open spec fn parse(input: Seq<u8>, at: nat, endian: ByteEndian) -> Result<
        ((A::Model, B::Model, C::Model, D::Model, E::Model, F::Model), nat),
        Failure,
    > {
        match A::parse(input, at, endian) {
            Ok((v0, end0)) => match B::parse(input, end0, endian) {
                Ok((v1, end1)) => match C::parse(input, end1, endian) {
                    Ok((v2, end2)) => match D::parse(input, end2, endian) {
                        Ok((v3, end3)) => match E::parse(input, end3, endian) {
                            Ok((v4, end4)) => match F::parse(input, end4, endian) {
                                Ok((v5, end5)) => Ok(((v0, v1, v2, v3, v4, v5), end5)),
                                Err(failure) => Err(failure),
                            },
                            Err(failure) => Err(failure),
                        },
                        Err(failure) => Err(failure),
                    },
                    Err(failure) => Err(failure),
                },
                Err(failure) => Err(failure),
            },
            Err(failure) => Err(failure),
        }
    }

    fn decode<Dec: Decoder>(decoder: &mut Dec) -> (result: DecoderResult<Self>) {
        let v0 = match decoder.decode_value::<A>() {
            Ok(value) => value,
            Err(error) => {
                return Err(error);
            },
        };
        let v1 = match decoder.decode_value::<B>() {
            Ok(value) => value,
            Err(error) => {
                return Err(error);
            },
        };
        let v2 = match decoder.decode_value::<C>() {
            Ok(value) => value,
            Err(error) => {
                return Err(error);
            },
        };
        let v3 = match decoder.decode_value::<D>() {
            Ok(value) => value,
            Err(error) => {
                return Err(error);
            },
        };
        let v4 = match decoder.decode_value::<E>() {
            Ok(value) => value,
            Err(error) => {
                return Err(error);
            },
        };
        let v5 = match decoder.decode_value::<F>() {
            Ok(value) => value,
            Err(error) => {
                return Err(error);
            },
        };
        Ok((v0, v1, v2, v3, v4, v5))
    }
}

impl<A: Lawful, B: Lawful, C: Lawful, D: Lawful, E: Lawful, F: Lawful> Lawful for (A, B, C, D, E, F) {
    open spec fn representable(&self) -> bool {
        self.0.representable() && self.1.representable() && self.2.representable() && self.3.representable() && self.4.representable() && self.5.representable()
    }

    proof fn lemma_round_trip(&self, endian: ByteEndian, before: Seq<u8>, after: Seq<u8>) {
        let input = before + self.wire(endian) + after;
        let front = (self.0, self.1, self.2, self.3, self.4);
        let head = front.wire(endian);
        let tail = self.5.wire(endian);
        front.lemma_round_trip(endian, before, tail + after);
        assert(before + head + (tail + after) =~= input);
        self.5.lemma_round_trip(endian, before + head, after);
        assert((before + head) + tail + after =~= input);
    }

    proof fn lemma_truncated(&self, endian: ByteEndian, before: Seq<u8>, kept: nat) {
        let input = before + self.wire(endian).take(kept as int);
        let front = (self.0, self.1, self.2, self.3, self.4);
        let head = front.wire(endian);
        let tail = self.5.wire(endian);
        if kept < head.len() {
            front.lemma_truncated(endian, before, kept);
            assert(before + head.take(kept as int) =~= input);
        } else {
            let rest = (kept - head.len()) as nat;
            let cut = tail.take(rest as int);
            front.lemma_round_trip(endian, before, cut);
            assert(before + head + cut =~= input);
            self.5.lemma_truncated(endian, before + head, rest);
            assert((before + head) + cut =~= input);
        }
    }
}

impl<A: Serializer, B: Serializer, C: Serializer, D: Serializer, E: Serializer, F: Serializer, G: Serializer> Serializer for (A, B, C, D, E, F, G) {
    open spec fn wire(&self, endian: ByteEndian) -> Seq<u8> {
        self.0.wire(endian) + self.1.wire(endian) + self.2.wire(endian) + self.3.wire(endian) + self.4.wire(endian) + self.5.wire(endian) + self.6.wire(endian)
    }

    fn encode<Enc: Encoder>(&self, encoder: &mut Enc) {
        self.0.encode(encoder);
        self.1.encode(encoder);
        self.2.encode(encoder);
        self.3.encode(encoder);
        self.4.encode(encoder);
        self.5.encode(encoder);
        self.6.encode(encoder);
    }
}

impl<A: Deserializer, B: Deserializer, C: Deserializer, D: Deserializer, E: Deserializer, F: Deserializer, G: Deserializer> Deserializer for (A, B, C, D, E, F, G) {
    type Model = (A::Model, B::Model, C::Model, D::Model, E::Model, F::Model, G::Model);

    open spec fn model(&self) -> (A::Model, B::Model, C::Model, D::Model, E::Model, F::Model, G::Model) {
        (self.0.model(), self.1.model(), self.2.model(), self.3.model(), self.4.model(), self.5.model(), self.6.model())
    }

    open spec fn parse(input: Seq<u8>, at: nat, endian: ByteEndian) -> Result<
        ((A::Model, B::Model, C::Model, D::Model, E::Model, F::Model, G::Model), nat),
        Failure,
    > {
        match A::parse(input, at, endian) {
            Ok((v0, end0)) => match B::parse(input, end0, endian) {
                Ok((v1, end1)) => match C::parse(input, end1, endian) {
                    Ok((v2, end2)) => match D::parse(input, end2, endian) {
                        Ok((v3, end3)) => match E::parse(input, end3, endian) {
                            Ok((v4, end4)) => match F::parse(input, end4, endian) {
                                Ok((v5, end5)) => match G::parse(input, end5, endian) {
                                    Ok((v6, end6)) => Ok(((v0, v1, v2, v3, v4, v5, v6), end6)),
                                    Err(failure) => Err(failure),
                                },
                                Err(failure) => Err(failure),
                            },
                            Err(failure) => Err(failure),
                        },
                        Err(failure) => Err(failure),
                    },
                    Err(failure) => Err(failure),
                },
                Err(failure) => Err(failure),
            },
            Err(failure) => Err(failure),
        }
    }

    fn decode<Dec: Decoder>(decoder: &mut Dec) -> (result: DecoderResult<Self>) {
        let v0 = match decoder.decode_value::<A>() {
            Ok(value) => value,
            Err(error) => {
                return Err(error);
            },
        };
        let v1 = match decoder.decode_value::<B>() {
            Ok(value) => value,
            Err(error) => {
                return Err(error);
            },
        };
        let v2 = match decoder.decode_value::<C>() {
            Ok(value) => value,
            Err(error) => {
                return Err(error);
            },
        };
        let v3 = match decoder.decode_value::<D>() {
            Ok(value) => value,
            Err(error) => {
                return Err(error);
            },
        };
        let v4 = match decoder.decode_value::<E>() {
            Ok(value) => value,
            Err(error) => {
                return Err(error);
            },
        };
        let v5 = match decoder.decode_value::<F>() {
            Ok(value) => value,
            Err(error) => {
                return Err(error);
            },
        };
        let v6 = match decoder.decode_value::<G>() {
            Ok(value) => value,
            Err(error) => {
                return Err(error);
            },
        };
        Ok((v0, v1, v2, v3, v4, v5, v6))
    }
}

impl<A: Lawful, B: Lawful, C: Lawful, D: Lawful, E: Lawful, F: Lawful, G: Lawful> Lawful for (A, B, C, D, E, F, G) {
    open spec fn representable(&self) -> bool {
        self.0.representable() && self.1.representable() && self.2.representable() && self.3.representable() && self.4.representable() && self.5.representable() && self.6.representable()
    }

    proof fn lemma_round_trip(&self, endian: ByteEndian, before: Seq<u8>, after: Seq<u8>) {
        let input = before + self.wire(endian) + after;
        let front = (self.0, self.1, self.2, self.3, self.4, self.5);
        let head = front.wire(endian);
        let tail = self.6.wire(endian);
        front.lemma_round_trip(endian, before, tail + after);
        assert(before + head + (tail + after) =~= input);
        self.6.lemma_round_trip(endian, before + head, after);
        assert((before + head) + tail + after =~= input);
    }

    proof fn lemma_truncated(&self, endian: ByteEndian, before: Seq<u8>, kept: nat) {
        let input = before + self.wire(endian).take(kept as int);
        let front = (self.0, self.1, self.2, self.3, self.4, self.5);
        let head = front.wire(endian);
        let tail = self.6.wire(endian);
        if kept < head.len() {
            front.lemma_truncated(endian, before, kept);
            assert(before + head.take(kept as int) =~= input);
        } else {
            let rest = (kept - head.len()) as nat;
            let cut = tail.take(rest as int);
            front.lemma_round_trip(endian, before, cut);
            assert(before + head + cut =~= input);
            self.6.lemma_truncated(endian, before + head, rest);
            assert((before + head) + cut =~= input);
        }
    }
}

impl<A: Serializer, B: Serializer, C: Serializer, D: Serializer, E: Serializer, F: Serializer, G: Serializer, J: Serializer> Serializer for (A, B, C, D, E, F, G, J) {
    open spec fn wire(&self, endian: ByteEndian) -> Seq<u8> {
        self.0.wire(endian) + self.1.wire(endian) + self.2.wire(endian) + self.3.wire(endian) + self.4.wire(endian) + self.5.wire(endian) + self.6.wire(endian) + self.7.wire(endian)
    }

    fn encode<Enc: Encoder>(&self, encoder: &mut Enc) {
        self.0.encode(encoder);
        self.1.encode(encoder);
        self.2.encode(encoder);
        self.3.encode(encoder);
        self.4.encode(encoder);
        self.5.encode(encoder);
        self.6.encode(encoder);
        self.7.encode(encoder);
    }
}

impl<A: Deserializer, B: Deserializer, C: Deserializer, D: Deserializer, E: Deserializer, F: Deserializer, G: Deserializer, J: Deserializer> Deserializer for (A, B, C, D, E, F, G, J) {
    type Model = (A::Model, B::Model, C::Model, D::Model, E::Model, F::Model, G::Model, J::Model);

    open spec fn model(&self) -> (A::Model, B::Model, C::Model, D::Model, E::Model, F::Model, G::Model, J::Model) {
        (self.0.model(), self.1.model(), self.2.model(), self.3.model(), self.4.model(), self.5.model(), self.6.model(), self.7.model())
    }

    open spec fn parse(input: Seq<u8>, at: nat, endian: ByteEndian) -> Result<
        ((A::Model, B::Model, C::Model, D::Model, E::Model, F::Model, G::Model, J::Model), nat),
        Failure,
    > {
        match A::parse(input, at, endian) {
            Ok((v0, end0)) => match B::parse(input, end0, endian) {
                Ok((v1, end1)) => match C::parse(input, end1, endian) {
                    Ok((v2, end2)) => match D::parse(input, end2, endian) {
                        Ok((v3, end3)) => match E::parse(input, end3, endian) {
                            Ok((v4, end4)) => match F::parse(input, end4, endian) {
                                Ok((v5, end5)) => match G::parse(input, end5, endian) {
                                    Ok((v6, end6)) => match J::parse(input, end6, endian) {
                                        Ok((v7, end7)) => Ok(((v0, v1, v2, v3, v4, v5, v6, v7), end7)),
                                        Err(failure) => Err(failure),
                                    },
                                    Err(failure) => Err(failure),
                                },
                                Err(failure) => Err(failure),
                            },
                            Err(failure) => Err(failure),
                        },
                        Err(failure) => Err(failure),
                    },
                    Err(failure) => Err(failure),
                },
                Err(failure) => Err(failure),
            },
            Err(failure) => Err(failure),
        }
    }

    fn decode<Dec: Decoder>(decoder: &mut Dec) -> (result: DecoderResult<Self>) {
        let v0 = match decoder.decode_value::<A>() {
            Ok(value) => value,
            Err(error) => {
                return Err(error);
            },
        };
        let v1 = match decoder.decode_value::<B>() {
            Ok(value) => value,
            Err(error) => {
                return Err(error);
            },
        };
        let v2 = match decoder.decode_value::<C>() {
            Ok(value) => value,
            Err(error) => {
                return Err(error);
            },
        };
        let v3 = match decoder.decode_value::<D>() {
            Ok(value) => value,
            Err(error) => {
                return Err(error);
            },
        };
        let v4 = match decoder.decode_value::<E>() {
            Ok(value) => value,
            Err(error) => {
                return Err(error);
            },
        };
        let v5 = match decoder.decode_value::<F>() {
            Ok(value) => value,
            Err(error) => {
                return Err(error);
            },
        };
        let v6 = match decoder.decode_value::<G>() {
            Ok(value) => value,
            Err(error) => {
                return Err(error);
            },
        };
        let v7 = match decoder.decode_value::<J>() {
            Ok(value) => value,
            Err(error) => {
                return Err(error);
            },
        };
        Ok((v0, v1, v2, v3, v4, v5, v6, v7))
    }
}

impl<A: Lawful, B: Lawful, C: Lawful, D: Lawful, E: Lawful, F: Lawful, G: Lawful, J: Lawful> Lawful for (A, B, C, D, E, F, G, J) {
    open spec fn representable(&self) -> bool {
        self.0.representable() && self.1.representable() && self.2.representable() && self.3.representable() && self.4.representable() && self.5.representable() && self.6.representable() && self.7.representable()
    }

    proof fn lemma_round_trip(&self, endian: ByteEndian, before: Seq<u8>, after: Seq<u8>) {
        let input = before + self.wire(endian) + after;
        let front = (self.0, self.1, self.2, self.3, self.4, self.5, self.6);
        let head = front.wire(endian);
        let tail = self.7.wire(endian);
        front.lemma_round_trip(endian, before, tail + after);
        assert(before + head + (tail + after) =~= input);
        self.7.lemma_round_trip(endian, before + head, after);
        assert((before + head) + tail + after =~= input);
    }

    proof fn lemma_truncated(&self, endian: ByteEndian, before: Seq<u8>, kept: nat) {
        let input = before + self.wire(endian).take(kept as int);
        let front = (self.0, self.1, self.2, self.3, self.4, self.5, self.6);
        let head = front.wire(endian);
        let tail = self.7.wire(endian);
        if kept < head.len() {
            front.lemma_truncated(endian, before, kept);
            assert(before + head.take(kept as int) =~= input);
        } else {
            let rest = (kept - head.len()) as nat;
            let cut = tail.take(rest as int);
            front.lemma_round_trip(endian, before, cut);
            assert(before + head + cut =~= input);
            self.7.lemma_truncated(endian, before + head, rest);
            assert((before + head) + cut =~= input);
        }
    }
}

impl<A: Serializer, B: Serializer, C: Serializer, D: Serializer, E: Serializer, F: Serializer, G: Serializer, J: Serializer, K: Serializer> Serializer for (A, B, C, D, E, F, G, J, K) {
    open spec fn wire(&self, endian: ByteEndian) -> Seq<u8> {
        self.0.wire(endian) + self.1.wire(endian) + self.2.wire(endian) + self.3.wire(endian) + self.4.wire(endian) + self.5.wire(endian) + self.6.wire(endian) + self.7.wire(endian) + self.8.wire(endian)
    }

    fn encode<Enc: Encoder>(&self, encoder: &mut Enc) {
        self.0.encode(encoder);
        self.1.encode(encoder);
        self.2.encode(encoder);
        self.3.encode(encoder);
        self.4.encode(encoder);
        self.5.encode(encoder);
        self.6.encode(encoder);
        self.7.encode(encoder);
        self.8.encode(encoder);
    }
}

impl<A: Deserializer, B: Deserializer, C: Deserializer, D: Deserializer, E: Deserializer, F: Deserializer, G: Deserializer, J: Deserializer, K: Deserializer> Deserializer for (A, B, C, D, E, F, G, J, K) {
    type Model = (A::Model, B::Model, C::Model, D::Model, E::Model, F::Model, G::Model, J::Model, K::Model);

    open spec fn model(&self) -> (A::Model, B::Model, C::Model, D::Model, E::Model, F::Model, G::Model, J::Model, K::Model) {
        (self.0.model(), self.1.model(), self.2.model(), self.3.model(), self.4.model(), self.5.model(), self.6.model(), self.7.model(), self.8.model())
    }

    open spec fn parse(input: Seq<u8>, at: nat, endian: ByteEndian) -> Result<
        ((A::Model, B::Model, C::Model, D::Model, E::Model, F::Model, G::Model, J::Model, K::Model), nat),
        Failure,
    > {
        match A::parse(input, at, endian) {
            Ok((v0, end0)) => match B::parse(input, end0, endian) {
                Ok((v1, end1)) => match C::parse(input, end1, endian) {
                    Ok((v2, end2)) => match D::parse(input, end2, endian) {
                        Ok((v3, end3)) => match E::parse(input, end3, endian) {
                            Ok((v4, end4)) => match F::parse(input, end4, endian) {
                                Ok((v5, end5)) => match G::parse(input, end5, endian) {
                                    Ok((v6, end6)) => match J::parse(input, end6, endian) {
                                        Ok((v7, end7)) => match K::parse(input, end7, endian) {
                                            Ok((v8, end8)) => Ok(((v0, v1, v2, v3, v4, v5, v6, v7, v8), end8)),
                                            Err(failure) => Err(failure),
                                        },
                                        Err(failure) => Err(failure),
                                    },
                                    Err(failure) => Err(failure),
                                },
                                Err(failure) => Err(failure),
                            },
                            Err(failure) => Err(failure),
                        },
                        Err(failure) => Err(failure),
                    },
                    Err(failure) => Err(failure),
                },
                Err(failure) => Err(failure),
            },
            Err(failure) => Err(failure),
        }
    }

    fn decode<Dec: Decoder>(decoder: &mut Dec) -> (result: DecoderResult<Self>) {
        let v0 = match decoder.decode_value::<A>() {
            Ok(value) => value,
            Err(error) => {
                return Err(error);
            },
        };
        let v1 = match decoder.decode_value::<B>() {
            Ok(value) => value,
            Err(error) => {
                return Err(error);
            },
        };
        let v2 = match decoder.decode_value::<C>() {
            Ok(value) => value,
            Err(error) => {
                return Err(error);
            },
        };
        let v3 = match decoder.decode_value::<D>() {
            Ok(value) => value,
            Err(error) => {
                return Err(error);
            },
        };
        let v4 = match decoder.decode_value::<E>() {
            Ok(value) => value,
            Err(error) => {
                return Err(error);
            },
        };
        let v5 = match decoder.decode_value::<F>() {
            Ok(value) => value,
            Err(error) => {
                return Err(error);
            },
        };
        let v6 = match decoder.decode_value::<G>() {
            Ok(value) => value,
            Err(error) => {
                return Err(error);
            },
        };
        let v7 = match decoder.decode_value::<J>() {
            Ok(value) => value,
            Err(error) => {
                return Err(error);
            },
        };
        let v8 = match decoder.decode_value::<K>() {
            Ok(value) => value,
            Err(error) => {
                return Err(error);
            },
        };
        Ok((v0, v1, v2, v3, v4, v5, v6, v7, v8))
    }
}

impl<A: Lawful, B: Lawful, C: Lawful, D: Lawful, E: Lawful, F: Lawful, G: Lawful, J: Lawful, K: Lawful> Lawful for (A, B, C, D, E, F, G, J, K) {
    open spec fn representable(&self) -> bool {
        self.0.representable() && self.1.representable() && self.2.representable() && self.3.representable() && self.4.representable() && self.5.representable() && self.6.representable() && self.7.representable() && self.8.representable()
    }

    proof fn lemma_round_trip(&self, endian: ByteEndian, before: Seq<u8>, after: Seq<u8>) {
        let input = before + self.wire(endian) + after;
        let front = (self.0, self.1, self.2, self.3, self.4, self.5, self.6, self.7);
        let head = front.wire(endian);
        let tail = self.8.wire(endian);
        front.lemma_round_trip(endian, before, tail + after);
        assert(before + head + (tail + after) =~= input);
        self.8.lemma_round_trip(endian, before + head, after);
        assert((before + head) + tail + after =~= input);
    }

    proof fn lemma_truncated(&self, endian: ByteEndian, before: Seq<u8>, kept: nat) {
        let input = before + self.wire(endian).take(kept as int);
        let front = (self.0, self.1, self.2, self.3, self.4, self.5, self.6, self.7);
        let head = front.wire(endian);
        let tail = self.8.wire(endian);
        if kept < head.len() {
            front.lemma_truncated(endian, before, kept);
            assert(before + head.take(kept as int) =~= input);
        } else {
            let rest = (kept - head.len()) as nat;
            let cut = tail.take(rest as int);
            front.lemma_round_trip(endian, before, cut);
            assert(before + head + cut =~= input);
            self.8.lemma_truncated(endian, before + head, rest);
            assert((before + head) + cut =~= input);
        }
    }
}

} // verus!
