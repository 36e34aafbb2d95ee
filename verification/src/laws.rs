//! What holds of every value: decoding undoes encoding, and a cut-off
//! encoding is never mistaken for a whole one.

use crate::common::{digits_of, value_of, ByteEndian};
use crate::decoder::{
    block_item, block_parse, lemma_block_steps, models, parse_items, parse_slice, parse_text,
    parsed_value, scalar_parse, Deserializer, Failure, Primitive,
};
use crate::digits::{
    le_digits, le_value, lemma_le_digits_of_value, lemma_le_value_bound, lemma_le_value_of_digits,
    pow256,
};
use crate::encoder::{count_wire, scalar_wire, wire_seq, wire_slice, wire_text, Serializer};
use crate::scalar::EndianValue;
use crate::text::{lemma_utf16_round_trip, utf16_encode};
use vstd::arithmetic::div_mod::lemma_small_mod;
use vstd::prelude::*;

verus! {

/// Whether a failure is the one that tells of missing input.
pub open spec fn is_shortfall(failure: Failure) -> bool {
    failure is NotEnoughBytes
}

/// Digits written in some order denote, read in the same order, the number
/// they were taken from.
pub proof fn lemma_value_of_digits(x: nat, width: nat, endian: ByteEndian)
    requires
        x < pow256(width),
    ensures
        digits_of(x, width, endian).len() == width,
        value_of(digits_of(x, width, endian), endian) == x,
{
    lemma_le_value_of_digits(x, width);
    lemma_small_mod(x, pow256(width));
    assert(le_digits(x, width).reverse().reverse() =~= le_digits(x, width));
}

/// A scalar that was written is read back, whatever stands around it.
pub proof fn lemma_scalar_round_trip<T: EndianValue<SIZE>, const SIZE: usize>(
    value: T,
    endian: ByteEndian,
    before: Seq<u8>,
    after: Seq<u8>,
    label: Seq<char>,
)
    ensures
        scalar_wire::<T, SIZE>(value, endian).len() == SIZE,
        scalar_parse::<T, SIZE>(
            before + scalar_wire::<T, SIZE>(value, endian) + after,
            before.len(),
            endian,
            label,
        ) == Ok::<(T, nat), Failure>((value, (before.len() + SIZE) as nat)),
{
    value.lemma_image();
    lemma_value_of_digits(value.image(), SIZE as nat, endian);
    let wire = scalar_wire::<T, SIZE>(value, endian);
    let input = before + wire + after;
    assert(input.subrange(before.len() as int, before.len() + SIZE) =~= wire);
}

/// A scalar with bytes missing is reported as missing, at the place where
/// it was to start.
pub proof fn lemma_scalar_truncated<T: EndianValue<SIZE>, const SIZE: usize>(
    value: T,
    endian: ByteEndian,
    before: Seq<u8>,
    kept: nat,
    label: Seq<char>,
)
    requires
        kept < SIZE,
    ensures
        scalar_parse::<T, SIZE>(
            before + scalar_wire::<T, SIZE>(value, endian).take(kept as int),
            before.len(),
            endian,
            label,
        ) == Err::<(T, nat), Failure>(
            Failure::NotEnoughBytes { type_label: label, index: before.len() },
        ),
{
    value.lemma_image();
    lemma_value_of_digits(value.image(), SIZE as nat, endian);
}

/// A scalar of one byte is written and read alike in either byte order:
/// it comes back whichever order it was written in and is read in.
pub proof fn law_single_byte<T: EndianValue<1>>(
    value: T,
    written: ByteEndian,
    read: ByteEndian,
    label: Seq<char>,
)
    ensures
        scalar_wire::<T, 1>(value, written) == scalar_wire::<T, 1>(value, read),
        scalar_parse::<T, 1>(scalar_wire::<T, 1>(value, written), 0, read, label) == Ok::<
            (T, nat),
            Failure,
        >((value, 1)),
{
    let digits = le_digits(value.image(), 1);
    assert(digits.reverse() =~= digits);
    lemma_scalar_round_trip::<T, 1>(value, read, Seq::empty(), Seq::empty(), label);
    assert(Seq::<u8>::empty() + scalar_wire::<T, 1>(value, read) + Seq::<u8>::empty()
        =~= scalar_wire::<T, 1>(value, read));
}

/// A boolean is one byte that no byte order touches.
pub proof fn law_bool_order_free(value: bool, written: ByteEndian, read: ByteEndian)
    ensures
        value.wire(written) == value.wire(read),
        bool::parse(value.wire(written), 0, read) == Ok::<(bool, nat), Failure>((value, 1)),
{
}

/// Read in the other byte order, a number is the one whose digits are
/// those of the number written, reversed. It is the number written exactly
/// when its digits read the same from both ends.
pub proof fn law_digits_reversed(x: nat, width: nat, endian: ByteEndian)
    requires
        x < pow256(width),
    ensures
        value_of(digits_of(x, width, endian), endian.flipped()) == le_value(
            le_digits(x, width).reverse(),
        ),
        le_value(le_digits(x, width).reverse()) < pow256(width),
        le_value(le_digits(x, width).reverse()) == x <==> le_digits(x, width).reverse()
            == le_digits(x, width),
{
    let digits = le_digits(x, width);
    let turned = digits.reverse();
    assert(turned.reverse() =~= digits);
    lemma_le_value_bound(turned);
    lemma_value_of_digits(x, width, ByteEndian::Little);
    if le_value(turned) == x {
        lemma_le_digits_of_value(turned);
    }
}

/// A scalar written in one byte order and read in the other comes back as
/// the scalar whose image has the digits reversed.
pub proof fn law_cross_endian<T: EndianValue<SIZE>, const SIZE: usize>(
    value: T,
    endian: ByteEndian,
    label: Seq<char>,
)
    ensures
        scalar_parse::<T, SIZE>(scalar_wire::<T, SIZE>(value, endian), 0, endian.flipped(), label)
            == Ok::<(T, nat), Failure>(
            (T::from_image(le_value(le_digits(value.image(), SIZE as nat).reverse())), SIZE as nat),
        ),
{
    value.lemma_image();
    law_digits_reversed(value.image(), SIZE as nat, endian);
    lemma_value_of_digits(value.image(), SIZE as nat, endian);
    let wire = scalar_wire::<T, SIZE>(value, endian);
    assert(wire.subrange(0, SIZE as int) =~= wire);
}

/// A scalar of fixed width written in one byte order and read in the
/// other comes back unchanged exactly when the digits of its image read
/// the same from both ends; every other scalar comes back as another.
pub proof fn law_cross_endian_differs<T: Primitive<SIZE>, const SIZE: usize>(
    value: T,
    endian: ByteEndian,
    label: Seq<char>,
)
    ensures
        scalar_parse::<T, SIZE>(scalar_wire::<T, SIZE>(value, endian), 0, endian.flipped(), label)
            == Ok::<(T, nat), Failure>((value, SIZE as nat)) <==> le_digits(
            value.image(),
            SIZE as nat,
        ).reverse() == le_digits(value.image(), SIZE as nat),
{
    value.lemma_image();
    law_cross_endian::<T, SIZE>(value, endian, label);
    law_digits_reversed(value.image(), SIZE as nat, endian);
    T::lemma_image_read(le_value(le_digits(value.image(), SIZE as nat).reverse()));
}

/// Types for which reading is the inverse of writing.
pub trait Lawful: Serializer + Deserializer {
    /// Whether every length inside `self` is one that a program can hold.
    spec fn representable(&self) -> bool;

    /// Decoding at the place where `self` was encoded gives `self` and ends
    /// right behind the encoding, whatever bytes stand before and after.
    proof fn lemma_round_trip(&self, endian: ByteEndian, before: Seq<u8>, after: Seq<u8>)
        requires
            self.representable(),
        ensures
            Self::parse(before + self.wire(endian) + after, before.len(), endian) == Ok::<
                (Self::Model, nat),
                Failure,
            >((self.model(), before.len() + self.wire(endian).len())),
    ;

    /// Decoding an encoding that lost its end fails for want of bytes.
    proof fn lemma_truncated(&self, endian: ByteEndian, before: Seq<u8>, kept: nat)
        requires
            self.representable(),
            kept < self.wire(endian).len(),
        ensures
            Self::parse(before + self.wire(endian).take(kept as int), before.len(), endian) matches Err(
                failure,
            ) && is_shortfall(failure),
    ;
}

/// Decoding undoes encoding: for every value and either byte order, the
/// bytes of the value decode to the value.
pub proof fn law_round_trip<T: Lawful>(value: T, endian: ByteEndian)
    requires
        value.representable(),
    ensures
        parsed_value(T::parse(value.wire(endian), 0, endian)) == Ok::<T::Model, Failure>(
            value.model(),
        ),
{
    value.lemma_round_trip(endian, Seq::empty(), Seq::empty());
    assert(Seq::<u8>::empty() + value.wire(endian) + Seq::<u8>::empty() =~= value.wire(endian));
}

/// A strict prefix of an encoding never decodes: the decoder reports that
/// bytes are missing.
pub proof fn law_truncation<T: Lawful>(value: T, endian: ByteEndian, kept: nat)
    requires
        value.representable(),
        kept < value.wire(endian).len(),
    ensures
        T::parse(value.wire(endian).take(kept as int), 0, endian) matches Err(failure)
            && is_shortfall(failure),
{
    value.lemma_truncated(endian, Seq::empty(), kept);
    assert(Seq::<u8>::empty() + value.wire(endian).take(kept as int) =~= value.wire(endian).take(
        kept as int,
    ));
}

/// Reading `k` scalars one by one gives what the block holds, as far as
/// the input reaches, and a shortfall from there on.
pub proof fn lemma_block_prefix<T: Primitive<SIZE>, const SIZE: usize>(
    input: Seq<u8>,
    at: nat,
    endian: ByteEndian,
    k: nat,
)
    requires
        at <= input.len(),
    ensures
        at + k * SIZE <= input.len() ==> parse_items::<T>(input, at, endian, k) == Ok::<
            (Seq<T::Model>, nat),
            Failure,
        >(
            (
                models(Seq::new(k, |i: int| block_item::<T, SIZE>(input, at, endian, i))),
                (at + k * SIZE) as nat,
            ),
        ),
        at + k * SIZE > input.len() ==> (parse_items::<T>(input, at, endian, k) matches Err(failure)
            && is_shortfall(failure)),
    decreases k,
{
    T::lemma_parse(input, at, endian);
    if k == 0 {
        assert(0 * SIZE == 0) by (nonlinear_arith);
        assert(models(Seq::new(0, |i: int| block_item::<T, SIZE>(input, at, endian, i)))
            =~= Seq::<T::Model>::empty());
    } else {
        let j = (k - 1) as nat;
        lemma_block_prefix::<T, SIZE>(input, at, endian, j);
        lemma_block_steps(j, k, SIZE as nat);
        assert(0 <= j * SIZE) by (nonlinear_arith);
        if at + j * SIZE <= input.len() {
            let next = (at + j * SIZE) as nat;
            T::lemma_parse(input, next, endian);
            if at + k * SIZE <= input.len() {
                let done = Seq::new(j, |i: int| block_item::<T, SIZE>(input, at, endian, i));
                let all = Seq::new(k, |i: int| block_item::<T, SIZE>(input, at, endian, i));
                assert(input.subrange(next as int, next + SIZE) == input.subrange(
                    at + j * SIZE,
                    at + (j + 1) * SIZE,
                ));
                assert(models(done).push(all[j as int].model()) =~= models(all));
            }
        }
    }
}

/// Reading a run of scalars as one block and reading it element by
/// element give the same values and end at the same place; where one
/// fails for want of bytes, so does the other.
pub proof fn law_block_agrees<T: Primitive<SIZE>, const SIZE: usize>(
    input: Seq<u8>,
    at: nat,
    endian: ByteEndian,
)
    ensures
        match block_parse::<T, SIZE>(input, at, endian) {
            Ok((values, end)) => parse_slice::<T>(input, at, endian) == Ok::<
                (Seq<T::Model>, nat),
                Failure,
            >((models(values), end)),
            Err(failure) => is_shortfall(failure) && (parse_slice::<T>(
                input,
                at,
                endian,
            ) matches Err(other) && is_shortfall(other)),
        },
{
    match scalar_parse::<usize, 8>(input, at, endian, "u64"@) {
        Ok((count, next)) => {
            lemma_block_prefix::<T, SIZE>(input, next, endian, count as nat);
        },
        Err(_) => {},
    }
}

/// The elements of a run that was written are read back in order.
pub proof fn lemma_items_round_trip<T: Lawful>(
    items: Seq<T>,
    endian: ByteEndian,
    before: Seq<u8>,
    after: Seq<u8>,
)
    requires
        forall|i: int| 0 <= i < items.len() ==> (#[trigger] items[i]).representable(),
    ensures
        parse_items::<T>(
            before + wire_seq(items, endian) + after,
            before.len(),
            endian,
            items.len(),
        ) == Ok::<(Seq<T::Model>, nat), Failure>(
            (models(items), before.len() + wire_seq(items, endian).len()),
        ),
    decreases items.len(),
{
    let input = before + wire_seq(items, endian) + after;
    if items.len() == 0 {
        assert(models(items) =~= Seq::<T::Model>::empty());
    } else {
        let init = items.drop_last();
        let last = items.last();
        let head = wire_seq(init, endian);
        lemma_items_round_trip(init, endian, before, last.wire(endian) + after);
        assert(before + head + (last.wire(endian) + after) =~= input);
        last.lemma_round_trip(endian, before + head, after);
        assert((before + head) + last.wire(endian) + after =~= input);
        assert(models(init).push(last.model()) =~= models(items));
    }
}

/// A run of elements that lost its end is reported as cut off.
pub proof fn lemma_items_truncated<T: Lawful>(
    items: Seq<T>,
    endian: ByteEndian,
    before: Seq<u8>,
    kept: nat,
)
    requires
        forall|i: int| 0 <= i < items.len() ==> (#[trigger] items[i]).representable(),
        kept < wire_seq(items, endian).len(),
    ensures
        parse_items::<T>(
            before + wire_seq(items, endian).take(kept as int),
            before.len(),
            endian,
            items.len(),
        ) matches Err(failure) && is_shortfall(failure),
    decreases items.len(),
{
    let input = before + wire_seq(items, endian).take(kept as int);
    let init = items.drop_last();
    let last = items.last();
    let head = wire_seq(init, endian);
    if kept < head.len() {
        lemma_items_truncated(init, endian, before, kept);
        assert(wire_seq(items, endian).take(kept as int) =~= head.take(kept as int));
    } else {
        let rest = (kept - head.len()) as nat;
        let tail = last.wire(endian).take(rest as int);
        assert(wire_seq(items, endian).take(kept as int) =~= head + tail);
        lemma_items_round_trip(init, endian, before, tail);
        assert(before + head + tail =~= input);
        last.lemma_truncated(endian, before + head, rest);
        assert((before + head) + tail =~= input);
    }
}

/// A sequence that was written is read back.
pub proof fn lemma_slice_round_trip<T: Lawful>(
    items: Seq<T>,
    endian: ByteEndian,
    before: Seq<u8>,
    after: Seq<u8>,
)
    requires
        items.len() <= usize::MAX,
        forall|i: int| 0 <= i < items.len() ==> (#[trigger] items[i]).representable(),
    ensures
        parse_slice::<T>(before + wire_slice(items, endian) + after, before.len(), endian) == Ok::<
            (Seq<T::Model>, nat),
            Failure,
        >((models(items), before.len() + wire_slice(items, endian).len())),
{
    let count = count_wire(items.len(), endian);
    let body = wire_seq(items, endian);
    let input = before + wire_slice(items, endian) + after;
    lemma_scalar_round_trip::<usize, 8>(items.len() as usize, endian, before, body + after, "u64"@);
    assert(before + count + (body + after) =~= input);
    lemma_items_round_trip(items, endian, before + count, after);
    assert((before + count) + body + after =~= input);
}

/// A sequence that lost its end is reported as cut off.
pub proof fn lemma_slice_truncated<T: Lawful>(
    items: Seq<T>,
    endian: ByteEndian,
    before: Seq<u8>,
    kept: nat,
)
    requires
        items.len() <= usize::MAX,
        forall|i: int| 0 <= i < items.len() ==> (#[trigger] items[i]).representable(),
        kept < wire_slice(items, endian).len(),
    ensures
        parse_slice::<T>(
            before + wire_slice(items, endian).take(kept as int),
            before.len(),
            endian,
        ) matches Err(failure) && is_shortfall(failure),
{
    let count = count_wire(items.len(), endian);
    let body = wire_seq(items, endian);
    let input = before + wire_slice(items, endian).take(kept as int);
    lemma_scalar_round_trip::<usize, 8>(items.len() as usize, endian, before, Seq::empty(), "u64"@);
    if kept < 8 {
        lemma_scalar_truncated::<usize, 8>(items.len() as usize, endian, before, kept, "u64"@);
        assert(wire_slice(items, endian).take(kept as int) =~= count.take(kept as int));
    } else {
        let rest = (kept - 8) as nat;
        let tail = body.take(rest as int);
        assert(wire_slice(items, endian).take(kept as int) =~= count + tail);
        lemma_scalar_round_trip::<usize, 8>(items.len() as usize, endian, before, tail, "u64"@);
        assert(before + count + tail =~= input);
        lemma_items_truncated(items, endian, before + count, rest);
        assert((before + count) + tail =~= input);
    }
}

impl<T: Lawful> Lawful for Vec<T> {
    open spec fn representable(&self) -> bool {
        forall|i: int| 0 <= i < self@.len() ==> (#[trigger] self@[i]).representable()
    }

    proof fn lemma_round_trip(&self, endian: ByteEndian, before: Seq<u8>, after: Seq<u8>) {
        assert(self@.len() == self.len());
        lemma_slice_round_trip(self@, endian, before, after);
    }

    proof fn lemma_truncated(&self, endian: ByteEndian, before: Seq<u8>, kept: nat) {
        assert(self@.len() == self.len());
        lemma_slice_truncated(self@, endian, before, kept);
    }
}

/// Text that was written is read back.
pub proof fn lemma_text_round_trip(
    chars: Seq<char>,
    endian: ByteEndian,
    before: Seq<u8>,
    after: Seq<u8>,
)
    requires
        utf16_encode(chars).len() <= usize::MAX,
    ensures
        parse_text(before + wire_text(chars, endian) + after, before.len(), endian) == Ok::<
            (Seq<char>, nat),
            Failure,
        >((chars, before.len() + wire_text(chars, endian).len())),
{
    let units = utf16_encode(chars);
    lemma_slice_round_trip::<u16>(units, endian, before, after);
    lemma_utf16_round_trip(chars);
    assert(models(units) =~= units);
}

/// Text that lost its end is reported as cut off, never as ill formed.
pub proof fn lemma_text_truncated(chars: Seq<char>, endian: ByteEndian, before: Seq<u8>, kept: nat)
    requires
        utf16_encode(chars).len() <= usize::MAX,
        kept < wire_text(chars, endian).len(),
    ensures
        parse_text(before + wire_text(chars, endian).take(kept as int), before.len(), endian) matches Err(
            failure,
        ) && is_shortfall(failure),
{
    lemma_slice_truncated::<u16>(utf16_encode(chars), endian, before, kept);
}

impl Lawful for String {
    open spec fn representable(&self) -> bool {
        utf16_encode(self@).len() <= usize::MAX
    }

    proof fn lemma_round_trip(&self, endian: ByteEndian, before: Seq<u8>, after: Seq<u8>) {
        lemma_text_round_trip(self@, endian, before, after);
    }

    proof fn lemma_truncated(&self, endian: ByteEndian, before: Seq<u8>, kept: nat) {
        lemma_text_truncated(self@, endian, before, kept);
    }
}

impl Lawful for bool {
    open spec fn representable(&self) -> bool {
        true
    }

    proof fn lemma_round_trip(&self, endian: ByteEndian, before: Seq<u8>, after: Seq<u8>) {
    }

    proof fn lemma_truncated(&self, endian: ByteEndian, before: Seq<u8>, kept: nat) {
    }
}

impl Lawful for u8 {
    open spec fn representable(&self) -> bool {
        true
    }

    proof fn lemma_round_trip(&self, endian: ByteEndian, before: Seq<u8>, after: Seq<u8>) {
        lemma_scalar_round_trip::<u8, 1>(*self, endian, before, after, "u8"@);
    }

    proof fn lemma_truncated(&self, endian: ByteEndian, before: Seq<u8>, kept: nat) {
        lemma_scalar_round_trip::<u8, 1>(*self, endian, before, Seq::empty(), "u8"@);
        lemma_scalar_truncated::<u8, 1>(*self, endian, before, kept, "u8"@);
    }
}

impl Lawful for u16 {
    open spec fn representable(&self) -> bool {
        true
    }

    proof fn lemma_round_trip(&self, endian: ByteEndian, before: Seq<u8>, after: Seq<u8>) {
        lemma_scalar_round_trip::<u16, 2>(*self, endian, before, after, "u16"@);
    }

    proof fn lemma_truncated(&self, endian: ByteEndian, before: Seq<u8>, kept: nat) {
        lemma_scalar_round_trip::<u16, 2>(*self, endian, before, Seq::empty(), "u16"@);
        lemma_scalar_truncated::<u16, 2>(*self, endian, before, kept, "u16"@);
    }
}

impl Lawful for u32 {
    open spec fn representable(&self) -> bool {
        true
    }

    proof fn lemma_round_trip(&self, endian: ByteEndian, before: Seq<u8>, after: Seq<u8>) {
        lemma_scalar_round_trip::<u32, 4>(*self, endian, before, after, "u32"@);
    }

    proof fn lemma_truncated(&self, endian: ByteEndian, before: Seq<u8>, kept: nat) {
        lemma_scalar_round_trip::<u32, 4>(*self, endian, before, Seq::empty(), "u32"@);
        lemma_scalar_truncated::<u32, 4>(*self, endian, before, kept, "u32"@);
    }
}

impl Lawful for u64 {
    open spec fn representable(&self) -> bool {
        true
    }

    proof fn lemma_round_trip(&self, endian: ByteEndian, before: Seq<u8>, after: Seq<u8>) {
        lemma_scalar_round_trip::<u64, 8>(*self, endian, before, after, "u64"@);
    }

    proof fn lemma_truncated(&self, endian: ByteEndian, before: Seq<u8>, kept: nat) {
        lemma_scalar_round_trip::<u64, 8>(*self, endian, before, Seq::empty(), "u64"@);
        lemma_scalar_truncated::<u64, 8>(*self, endian, before, kept, "u64"@);
    }
}

impl Lawful for u128 {
    open spec fn representable(&self) -> bool {
        true
    }

    proof fn lemma_round_trip(&self, endian: ByteEndian, before: Seq<u8>, after: Seq<u8>) {
        lemma_scalar_round_trip::<u128, 16>(*self, endian, before, after, "u128"@);
    }

    proof fn lemma_truncated(&self, endian: ByteEndian, before: Seq<u8>, kept: nat) {
        lemma_scalar_round_trip::<u128, 16>(*self, endian, before, Seq::empty(), "u128"@);
        lemma_scalar_truncated::<u128, 16>(*self, endian, before, kept, "u128"@);
    }
}

impl Lawful for usize {
    open spec fn representable(&self) -> bool {
        true
    }

    proof fn lemma_round_trip(&self, endian: ByteEndian, before: Seq<u8>, after: Seq<u8>) {
        lemma_scalar_round_trip::<usize, 8>(*self, endian, before, after, "u64"@);
    }

    proof fn lemma_truncated(&self, endian: ByteEndian, before: Seq<u8>, kept: nat) {
        lemma_scalar_round_trip::<usize, 8>(*self, endian, before, Seq::empty(), "u64"@);
        lemma_scalar_truncated::<usize, 8>(*self, endian, before, kept, "u64"@);
    }
}

impl Lawful for i8 {
    open spec fn representable(&self) -> bool {
        true
    }

    proof fn lemma_round_trip(&self, endian: ByteEndian, before: Seq<u8>, after: Seq<u8>) {
        lemma_scalar_round_trip::<i8, 1>(*self, endian, before, after, "i8"@);
    }

    proof fn lemma_truncated(&self, endian: ByteEndian, before: Seq<u8>, kept: nat) {
        lemma_scalar_round_trip::<i8, 1>(*self, endian, before, Seq::empty(), "i8"@);
        lemma_scalar_truncated::<i8, 1>(*self, endian, before, kept, "i8"@);
    }
}

impl Lawful for i16 {
    open spec fn representable(&self) -> bool {
        true
    }

    proof fn lemma_round_trip(&self, endian: ByteEndian, before: Seq<u8>, after: Seq<u8>) {
        lemma_scalar_round_trip::<i16, 2>(*self, endian, before, after, "i16"@);
    }

    proof fn lemma_truncated(&self, endian: ByteEndian, before: Seq<u8>, kept: nat) {
        lemma_scalar_round_trip::<i16, 2>(*self, endian, before, Seq::empty(), "i16"@);
        lemma_scalar_truncated::<i16, 2>(*self, endian, before, kept, "i16"@);
    }
}

impl Lawful for i32 {
    open spec fn representable(&self) -> bool {
        true
    }

    proof fn lemma_round_trip(&self, endian: ByteEndian, before: Seq<u8>, after: Seq<u8>) {
        lemma_scalar_round_trip::<i32, 4>(*self, endian, before, after, "i32"@);
    }

    proof fn lemma_truncated(&self, endian: ByteEndian, before: Seq<u8>, kept: nat) {
        lemma_scalar_round_trip::<i32, 4>(*self, endian, before, Seq::empty(), "i32"@);
        lemma_scalar_truncated::<i32, 4>(*self, endian, before, kept, "i32"@);
    }
}

impl Lawful for i64 {
    open spec fn representable(&self) -> bool {
        true
    }

    proof fn lemma_round_trip(&self, endian: ByteEndian, before: Seq<u8>, after: Seq<u8>) {
        lemma_scalar_round_trip::<i64, 8>(*self, endian, before, after, "i64"@);
    }

    proof fn lemma_truncated(&self, endian: ByteEndian, before: Seq<u8>, kept: nat) {
        lemma_scalar_round_trip::<i64, 8>(*self, endian, before, Seq::empty(), "i64"@);
        lemma_scalar_truncated::<i64, 8>(*self, endian, before, kept, "i64"@);
    }
}

impl Lawful for i128 {
    open spec fn representable(&self) -> bool {
        true
    }

    proof fn lemma_round_trip(&self, endian: ByteEndian, before: Seq<u8>, after: Seq<u8>) {
        lemma_scalar_round_trip::<i128, 16>(*self, endian, before, after, "i128"@);
    }

    proof fn lemma_truncated(&self, endian: ByteEndian, before: Seq<u8>, kept: nat) {
        lemma_scalar_round_trip::<i128, 16>(*self, endian, before, Seq::empty(), "i128"@);
        lemma_scalar_truncated::<i128, 16>(*self, endian, before, kept, "i128"@);
    }
}

impl Lawful for isize {
    open spec fn representable(&self) -> bool {
        true
    }

    proof fn lemma_round_trip(&self, endian: ByteEndian, before: Seq<u8>, after: Seq<u8>) {
        lemma_scalar_round_trip::<isize, 8>(*self, endian, before, after, "i64"@);
    }

    proof fn lemma_truncated(&self, endian: ByteEndian, before: Seq<u8>, kept: nat) {
        lemma_scalar_round_trip::<isize, 8>(*self, endian, before, Seq::empty(), "i64"@);
        lemma_scalar_truncated::<isize, 8>(*self, endian, before, kept, "i64"@);
    }
}

} // verus!
