//! The wire format of composite values, as mathematics: what a value of a
//! given form looks like in bytes, and what bytes mean for a given form.

use crate::common::ByteEndian;
use crate::decoder::{parse_text, scalar_parse, variant_parse, wrapped, Failure};
use crate::encoder::{count_wire, wire_text, Serializer};
use crate::tagged::{Scalar, ScalarKind};
use crate::text::utf16_encode;
use vstd::prelude::*;

verus! {

/// The form of a type: all that its encoding depends on.
///
/// A struct is the sequence of the forms of its fields, in the order of
/// declaration; whether the fields have names makes no difference, and a
/// struct without fields is the empty sequence. An enum is the sequence of
/// its variants, each the sequence of its fields.
pub enum Form {
    Scalar(ScalarKind),
    Text,
    List(Box<Form>),
    Struct(Seq<Form>),
    Enum(Seq<Seq<Form>>),
}

/// A value of some form.
pub enum Datum {
    Scalar(Scalar),
    Text(Seq<char>),
    List(Seq<Datum>),
    Struct(Seq<Datum>),
    /// The index of the variant and the variant's fields.
    Enum(nat, Seq<Datum>),
}

/// Whether `datum` is a value of the form `form` that a program can hold:
/// of the right shape throughout, with every count within `usize`.
pub open spec fn conforms(datum: Datum, form: Form) -> bool
    decreases datum,
{
    match (datum, form) {
        (Datum::Scalar(scalar), Form::Scalar(kind)) => scalar.kind_of() == kind,
        (Datum::Text(chars), Form::Text) => utf16_encode(chars).len() <= usize::MAX,
        (Datum::List(items), Form::List(element)) => {
            &&& items.len() <= usize::MAX
            &&& forall|i: int| 0 <= i < items.len() ==> conforms(#[trigger] items[i], *element)
        },
        (Datum::Struct(items), Form::Struct(fields)) => all_conform(items, fields),
        (Datum::Enum(index, items), Form::Enum(variants)) => {
            &&& index < variants.len()
            &&& index <= usize::MAX
            &&& all_conform(items, variants[index as int])
        },
        _ => false,
    }
}

/// Whether `items` are values of the forms `fields`, one for one.
pub open spec fn all_conform(items: Seq<Datum>, fields: Seq<Form>) -> bool
    decreases items,
{
    &&& items.len() == fields.len()
    &&& forall|i: int| 0 <= i < items.len() ==> conforms(#[trigger] items[i], fields[i])
}

/// The bytes of `datum`.
pub open spec fn wire_datum(datum: Datum, endian: ByteEndian) -> Seq<u8>
    decreases datum, 0nat,
{
    match datum {
        Datum::Scalar(scalar) => scalar.wire(endian),
        Datum::Text(chars) => wire_text(chars, endian),
        Datum::List(items) => count_wire(items.len(), endian) + wire_data(
            items,
            endian,
            items.len(),
        ),
        Datum::Struct(items) => wire_data(items, endian, items.len()),
        Datum::Enum(index, items) => count_wire(index, endian) + wire_data(
            items,
            endian,
            items.len(),
        ),
    }
}

/// The bytes of the first `upto` of `items`, one after the other.
pub open spec fn wire_data(items: Seq<Datum>, endian: ByteEndian, upto: nat) -> Seq<u8>
    decreases items, upto,
{
    if upto == 0 || upto > items.len() {
        Seq::empty()
    } else {
        wire_data(items, endian, (upto - 1) as nat) + wire_datum(items[upto - 1], endian)
    }
}

/// What reading a value of the form `form` at `at` gives.
pub open spec fn parse_form(form: Form, input: Seq<u8>, at: nat, endian: ByteEndian) -> Result<
    (Datum, nat),
    Failure,
>
    decreases form, 0nat,
{
    match form {
        Form::Scalar(kind) => wrapped(
            kind.parse(input, at, endian),
            |scalar: Scalar| Datum::Scalar(scalar),
        ),
        Form::Text => wrapped(parse_text(input, at, endian), |chars: Seq<char>| Datum::Text(chars)),
        Form::List(element) => match scalar_parse::<usize, 8>(input, at, endian, "u64"@) {
            Ok((count, next)) => wrapped(
                parse_run(*element, input, next, endian, count as nat),
                |items: Seq<Datum>| Datum::List(items),
            ),
            Err(failure) => Err(failure),
        },
        Form::Struct(fields) => wrapped(
            parse_fields(fields, input, at, endian, fields.len()),
            |items: Seq<Datum>| Datum::Struct(items),
        ),
        Form::Enum(variants) => match variant_parse(input, at, endian, variants.len()) {
            Ok((index, next)) => wrapped(
                parse_fields(
                    variants[index as int],
                    input,
                    next,
                    endian,
                    variants[index as int].len(),
                ),
                |items: Seq<Datum>| Datum::Enum(index as nat, items),
            ),
            Err(failure) => Err(failure),
        },
    }
}

/// What reading `count` values of the form `element` gives.
pub open spec fn parse_run(
    element: Form,
    input: Seq<u8>,
    at: nat,
    endian: ByteEndian,
    count: nat,
) -> Result<(Seq<Datum>, nat), Failure>
    decreases element, count,
{
    if count == 0 {
        Ok((Seq::empty(), at))
    } else {
        match parse_run(element, input, at, endian, (count - 1) as nat) {
            Ok((items, next)) => match parse_form(element, input, next, endian) {
                Ok((item, end)) => Ok((items.push(item), end)),
                Err(failure) => Err(failure),
            },
            Err(failure) => Err(failure),
        }
    }
}

/// What reading the first `upto` of `fields` gives.
pub open spec fn parse_fields(
    fields: Seq<Form>,
    input: Seq<u8>,
    at: nat,
    endian: ByteEndian,
    upto: nat,
) -> Result<(Seq<Datum>, nat), Failure>
    decreases fields, upto,
{
    if upto == 0 || upto > fields.len() {
        Ok((Seq::empty(), at))
    } else {
        match parse_fields(fields, input, at, endian, (upto - 1) as nat) {
            Ok((items, next)) => match parse_form(fields[upto - 1], input, next, endian) {
                Ok((item, end)) => Ok((items.push(item), end)),
                Err(failure) => Err(failure),
            },
            Err(failure) => Err(failure),
        }
    }
}

} // verus!
