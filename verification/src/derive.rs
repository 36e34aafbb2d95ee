//! Codecs derived from the shape of a type.
//!
//! A [`Shape`] describes a struct or an enum the way its declaration does;
//! one routine writes any [`Value`], another reads a value of any shape.
//! Fields travel in the order of declaration, and a variant travels as its
//! index in the enum followed by its fields.

use crate::common::ByteEndian;
use crate::decoder::{Decoder, DecoderExt, DecoderResult, Failure};
use crate::encoder::{Encoder, EncoderExt, Serializer};
use crate::form::{
    all_conform, conforms, parse_fields, parse_form, parse_run, wire_data, wire_datum, Datum, Form,
};
use crate::text::utf16_units;
use crate::tagged::{Scalar, ScalarKind};
use vstd::prelude::*;

verus! {

/// A field with a name.
pub struct Field {
    pub name: String,
    pub shape: Shape,
}

/// The fields of a struct or of a variant, as they can be declared.
pub enum Fields {
    /// `{ a: A, b: B }`
    Named(Vec<Field>),
    /// `(A, B)`
    Unnamed(Vec<Shape>),
    /// No fields at all.
    Unit,
}

/// One variant of an enum.
pub struct Variant {
    pub name: String,
    pub fields: Fields,
}

/// The shape of a type.
pub enum Shape {
    Scalar(ScalarKind),
    Text,
    List(Box<Shape>),
    Struct(Fields),
    Enum(Vec<Variant>),
}

/// A value of some shape.
pub enum Value {
    Scalar(Scalar),
    Text(String),
    List(Vec<Value>),
    /// The fields of a struct in the order of declaration.
    Struct(Vec<Value>),
    /// The index of a variant and the variant's fields.
    Enum(usize, Vec<Value>),
}

/// The data that `values` stand for, in order.
pub open spec fn data_of(values: Seq<Value>) -> Seq<Datum>
    decreases values,
{
    Seq::new(
        values.len(),
        |i: int|
            if 0 <= i < values.len() {
                values[i]@
            } else {
                arbitrary()
            },
    )
}

impl View for Value {
    type V = Datum;

    open spec fn view(&self) -> Datum
        decreases self,
    {
        match self {
            Value::Scalar(scalar) => Datum::Scalar(*scalar),
            Value::Text(text) => Datum::Text(text@),
            Value::List(items) => Datum::List(data_of(items@)),
            Value::Struct(items) => Datum::Struct(data_of(items@)),
            Value::Enum(index, items) => Datum::Enum(*index as nat, data_of(items@)),
        }
    }
}

/// The forms of `shapes`, in order.
pub open spec fn forms_of(shapes: Seq<Shape>) -> Seq<Form>
    decreases shapes,
{
    Seq::new(
        shapes.len(),
        |i: int|
            if 0 <= i < shapes.len() {
                shapes[i]@
            } else {
                arbitrary()
            },
    )
}

/// The forms of named fields: their names fall away.
pub open spec fn forms_of_named(fields: Seq<Field>) -> Seq<Form>
    decreases fields,
{
    Seq::new(
        fields.len(),
        |i: int|
            if 0 <= i < fields.len() {
                fields[i].shape@
            } else {
                arbitrary()
            },
    )
}

/// The forms of the variants of an enum, in order.
pub open spec fn forms_of_variants(variants: Seq<Variant>) -> Seq<Seq<Form>>
    decreases variants,
{
    Seq::new(
        variants.len(),
        |i: int|
            if 0 <= i < variants.len() {
                variants[i].fields@
            } else {
                arbitrary()
            },
    )
}

impl View for Fields {
    type V = Seq<Form>;

    open spec fn view(&self) -> Seq<Form>
        decreases self,
    {
        match self {
            Fields::Named(fields) => forms_of_named(fields@),
            Fields::Unnamed(shapes) => forms_of(shapes@),
            Fields::Unit => Seq::empty(),
        }
    }
}

impl View for Shape {
    type V = Form;

    open spec fn view(&self) -> Form
        decreases self,
    {
        match self {
            Shape::Scalar(kind) => Form::Scalar(*kind),
            Shape::Text => Form::Text,
            Shape::List(element) => Form::List(Box::new((**element)@)),
            Shape::Struct(fields) => Form::Struct(fields@),
            Shape::Enum(variants) => Form::Enum(forms_of_variants(variants@)),
        }
    }
}

impl Value {
    /// Writes this value: a scalar or a text as such, a list as its length
    /// and its elements, a struct as its fields, an enum as the index of
    /// the variant and the variant's fields.
    pub fn write<Enc: Encoder>(&self, encoder: &mut Enc)
        ensures
            final(encoder).written() == old(encoder).written() + wire_datum(
                self@,
                old(encoder).endian(),
            ),
            final(encoder).endian() == old(encoder).endian(),
        decreases self, 0nat,
    {
        match self {
            Value::Scalar(scalar) => scalar.encode(encoder),
            Value::Text(text) => encoder.encode_string(text.as_str()),
            Value::List(items) => {
                encoder.encode_usize(items.len());
                Value::write_all(items, encoder);
            },
            Value::Struct(items) => Value::write_all(items, encoder),
            Value::Enum(index, items) => {
                encoder.encode_usize(*index);
                Value::write_all(items, encoder);
            },
        }
    }

    /// Writes `items` one after the other.
    pub fn write_all<Enc: Encoder>(items: &Vec<Value>, encoder: &mut Enc)
        ensures
            final(encoder).written() == old(encoder).written() + wire_data(
                data_of(items@),
                old(encoder).endian(),
                items@.len(),
            ),
            final(encoder).endian() == old(encoder).endian(),
        decreases items, 1nat,
    {
        let ghost data = data_of(items@);
        let mut i: usize = 0;
        while i < items.len()
            invariant
                i <= items.len(),
                data == data_of(items@),
                encoder.endian() == old(encoder).endian(),
                encoder.written() == old(encoder).written() + wire_data(
                    data,
                    old(encoder).endian(),
                    i as nat,
                ),
            decreases items.len() - i,
        {
            items[i].write(encoder);
            i += 1;
        }
    }
}

impl Value {
    /// Whether this value has the shape `shape`, so that it comes back
    /// when its bytes are read under that shape.
    pub fn conforms_to(&self, shape: &Shape) -> (ok: bool)
        ensures
            ok == conforms(self@, shape@),
        decreases self, 0nat,
    {
        match (self, shape) {
            (Value::Scalar(scalar), Shape::Scalar(kind)) => scalar.kind() == *kind,
            (Value::Text(text), Shape::Text) => {
                // the code units exist, so their number is one that fits
                let units = utf16_units(text.as_str());
                units.len() <= usize::MAX
            },
            (Value::List(items), Shape::List(element)) => {
                proof {
                    assert(data_of(items@).len() == items.len());
                }
                Value::all_of_shape(items, element)
            },
            (Value::Struct(items), Shape::Struct(fields)) => Value::all_conform_to(items, fields),
            (Value::Enum(index, items), Shape::Enum(variants)) => {
                proof {
                    let forms = forms_of_variants(variants@);
                    assert(shape@ == Form::Enum(forms));
                    assert(forms.len() == variants@.len());
                    assert forall|i: int| 0 <= i < variants@.len() implies forms[i]
                        == variants@[i].fields@ by {}
                }
                *index < variants.len() && Value::all_conform_to(items, &variants[*index].fields)
            },
            _ => false,
        }
    }

    /// Whether every one of `items` has the shape `element`.
    pub fn all_of_shape(items: &Vec<Value>, element: &Shape) -> (ok: bool)
        ensures
            ok == (forall|j: int|
                0 <= j < items@.len() ==> conforms(#[trigger] data_of(items@)[j], element@)),
        decreases items, 1nat,
    {
        let ghost data = data_of(items@);
        let mut i: usize = 0;
        while i < items.len()
            invariant
                i <= items.len(),
                data == data_of(items@),
                forall|j: int| 0 <= j < i ==> conforms(#[trigger] data[j], element@),
            decreases items.len() - i,
        {
            proof {
                assert(data[i as int] == items@[i as int]@);
            }
            if !items[i].conforms_to(element) {
                return false;
            }
            i += 1;
        }
        true
    }

    /// Whether `items` have the shapes of `fields`, one for one.
    pub fn all_conform_to(items: &Vec<Value>, fields: &Fields) -> (ok: bool)
        ensures
            ok == all_conform(data_of(items@), fields@),
        decreases items, 1nat,
    {
        if items.len() != fields.len() {
            return false;
        }
        let ghost data = data_of(items@);
        let mut i: usize = 0;
        while i < items.len()
            invariant
                i <= items.len() == fields@.len(),
                data == data_of(items@),
                forall|j: int| 0 <= j < i ==> conforms(#[trigger] data[j], fields@[j]),
            decreases items.len() - i,
        {
            if !items[i].conforms_to(fields.shape(i)) {
                proof {
                    assert(data[i as int] == items@[i as int]@);
                }
                return false;
            }
            proof {
                assert(data[i as int] == items@[i as int]@);
            }
            i += 1;
        }
        true
    }
}

impl Serializer for Value {
    open spec fn wire(&self, endian: ByteEndian) -> Seq<u8> {
        wire_datum(self@, endian)
    }

    fn encode<Enc: Encoder>(&self, encoder: &mut Enc) {
        self.write(encoder);
    }
}

/// `result`, with the place `end` where the decoder stands, is what
/// `parsed` says: the same datum and place, or the same failure.
pub open spec fn decoded_as<T: View, M>(
    result: DecoderResult<T>,
    end: nat,
    parsed: Result<(M, nat), Failure>,
    model: spec_fn(T) -> M,
) -> bool {
    match result {
        Ok(value) => parsed == Ok::<(M, nat), Failure>((model(value), end)),
        Err(error) => parsed == Err::<(M, nat), Failure>(error@),
    }
}

impl Shape {
    /// Reads a value of this shape.
    pub fn decode<Dec: Decoder>(&self, decoder: &mut Dec) -> (result: DecoderResult<Value>)
        ensures
            final(decoder).input() == old(decoder).input(),
            final(decoder).endian() == old(decoder).endian(),
            decoded_as(
                result,
                final(decoder).position(),
                parse_form(self@, old(decoder).input(), old(decoder).position(), old(decoder).endian()),
                |value: Value| value@,
            ),
        decreases self, 0nat,
    {
        match self {
            Shape::Scalar(kind) => match kind.decode(decoder) {
                Ok(scalar) => Ok(Value::Scalar(scalar)),
                Err(error) => Err(error),
            },
            Shape::Text => match decoder.decode_string() {
                Ok(text) => Ok(Value::Text(text)),
                Err(error) => Err(error),
            },
            Shape::List(element) => {
                let count = match decoder.decode_usize() {
                    Ok(count) => count,
                    Err(error) => {
                        return Err(error);
                    },
                };
                match element.decode_run(count, decoder) {
                    Ok(items) => Ok(Value::List(items)),
                    Err(error) => Err(error),
                }
            },
            Shape::Struct(fields) => match fields.decode(decoder) {
                Ok(items) => Ok(Value::Struct(items)),
                Err(error) => Err(error),
            },
            Shape::Enum(variants) => {
                proof {
                    let forms = forms_of_variants(variants@);
                    assert(self@ == Form::Enum(forms));
                    assert(forms.len() == variants@.len());
                    assert forall|i: int| 0 <= i < variants@.len() implies forms[i]
                        == variants@[i].fields@ by {}
                }
                let index = match decoder.decode_variant(variants.len()) {
                    Ok(index) => index,
                    Err(error) => {
                        return Err(error);
                    },
                };
                match variants[index].fields.decode(decoder) {
                    Ok(items) => Ok(Value::Enum(index, items)),
                    Err(error) => Err(error),
                }
            },
        }
    }

    /// Reads `count` values of this shape, one after the other.
    pub fn decode_run<Dec: Decoder>(&self, count: usize, decoder: &mut Dec) -> (result:
        DecoderResult<Vec<Value>>)
        ensures
            final(decoder).input() == old(decoder).input(),
            final(decoder).endian() == old(decoder).endian(),
            decoded_as(
                result,
                final(decoder).position(),
                parse_run(
                    self@,
                    old(decoder).input(),
                    old(decoder).position(),
                    old(decoder).endian(),
                    count as nat,
                ),
                |values: Vec<Value>| data_of(values@),
            ),
        decreases self, 1nat,
    {
        let ghost start = decoder.position();
        let mut values: Vec<Value> = Vec::new();
        let mut i: usize = 0;
        proof {
            assert(data_of(values@) =~= Seq::<Datum>::empty());
        }
        while i < count
            invariant
                i <= count,
                decoder.input() == old(decoder).input(),
                decoder.endian() == old(decoder).endian(),
                start == old(decoder).position(),
                parse_run(self@, decoder.input(), start, decoder.endian(), i as nat) == Ok::<
                    (Seq<Datum>, nat),
                    Failure,
                >((data_of(values@), decoder.position())),
            decreases count - i,
        {
            let ghost before = data_of(values@);
            match self.decode(decoder) {
                Ok(value) => {
                    values.push(value);
                    proof {
                        assert(data_of(values@) =~= before.push(value@));
                    }
                },
                Err(error) => {
                    proof {
                        lemma_parse_run_fails(
                            self@,
                            decoder.input(),
                            start,
                            decoder.endian(),
                            (i + 1) as nat,
                            count as nat,
                        );
                    }
                    return Err(error);
                },
            }
            i += 1;
        }
        Ok(values)
    }
}

impl Fields {
    /// The number of fields.
    pub fn len(&self) -> (count: usize)
        ensures
            count == self@.len(),
    {
        match self {
            Fields::Named(fields) => fields.len(),
            Fields::Unnamed(shapes) => shapes.len(),
            Fields::Unit => 0,
        }
    }

    /// The shape of the field at `index`, named or not.
    pub fn shape(&self, index: usize) -> (shape: &Shape)
        requires
            index < self@.len(),
        ensures
            shape@ == self@[index as int],
            decreases_to!(self => shape),
    {
        match self {
            Fields::Named(fields) => &fields[index].shape,
            Fields::Unnamed(shapes) => &shapes[index],
            Fields::Unit => unreached(),
        }
    }

    /// Reads the fields in the order of declaration.
    pub fn decode<Dec: Decoder>(&self, decoder: &mut Dec) -> (result: DecoderResult<Vec<Value>>)
        ensures
            final(decoder).input() == old(decoder).input(),
            final(decoder).endian() == old(decoder).endian(),
            decoded_as(
                result,
                final(decoder).position(),
                parse_fields(
                    self@,
                    old(decoder).input(),
                    old(decoder).position(),
                    old(decoder).endian(),
                    self@.len(),
                ),
                |values: Vec<Value>| data_of(values@),
            ),
        decreases self, 1nat,
    {
        let ghost start = decoder.position();
        let count = self.len();
        let mut values: Vec<Value> = Vec::new();
        let mut i: usize = 0;
        proof {
            assert(data_of(values@) =~= Seq::<Datum>::empty());
        }
        while i < count
            invariant
                i <= count == self@.len(),
                decoder.input() == old(decoder).input(),
                decoder.endian() == old(decoder).endian(),
                start == old(decoder).position(),
                parse_fields(self@, decoder.input(), start, decoder.endian(), i as nat) == Ok::<
                    (Seq<Datum>, nat),
                    Failure,
                >((data_of(values@), decoder.position())),
            decreases count - i,
        {
            let ghost before = data_of(values@);
            match self.shape(i).decode(decoder) {
                Ok(value) => {
                    values.push(value);
                    proof {
                        assert(data_of(values@) =~= before.push(value@));
                    }
                },
                Err(error) => {
                    proof {
                        lemma_parse_fields_fails(
                            self@,
                            decoder.input(),
                            start,
                            decoder.endian(),
                            (i + 1) as nat,
                            count as nat,
                        );
                    }
                    return Err(error);
                },
            }
            i += 1;
        }
        Ok(values)
    }
}

/// Once an element fails, reading more elements fails in the same way.
pub proof fn lemma_parse_run_fails(
    element: Form,
    input: Seq<u8>,
    at: nat,
    endian: ByteEndian,
    reached: nat,
    count: nat,
)
    requires
        reached <= count,
        parse_run(element, input, at, endian, reached) is Err,
    ensures
        parse_run(element, input, at, endian, count) == parse_run(element, input, at, endian, reached),
    decreases count,
{
    if reached < count {
        lemma_parse_run_fails(element, input, at, endian, reached, (count - 1) as nat);
    }
}

/// Once a field fails, reading more fields fails in the same way.
pub proof fn lemma_parse_fields_fails(
    fields: Seq<Form>,
    input: Seq<u8>,
    at: nat,
    endian: ByteEndian,
    reached: nat,
    count: nat,
)
    requires
        reached <= count <= fields.len(),
        parse_fields(fields, input, at, endian, reached) is Err,
    ensures
        parse_fields(fields, input, at, endian, count) == parse_fields(
            fields,
            input,
            at,
            endian,
            reached,
        ),
    decreases count,
{
    if reached < count {
        lemma_parse_fields_fails(fields, input, at, endian, reached, (count - 1) as nat);
    }
}

} // verus!
