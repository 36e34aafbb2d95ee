//! What holds of every composite value and every form.

use crate::common::ByteEndian;
use crate::decoder::{scalar_parse, Failure};
use crate::encoder::{count_wire, Serializer};
use crate::form::{
    all_conform, conforms, parse_fields, parse_form, parse_run, wire_data, wire_datum, Datum, Form,
};
use crate::laws::{
    is_shortfall, lemma_scalar_round_trip, lemma_scalar_truncated, lemma_text_round_trip,
    lemma_text_truncated,
};
use vstd::prelude::*;

verus! {

/// Decoding undoes encoding: a value of a form, written anywhere, is read
/// back whole under that form.
pub proof fn lemma_datum_round_trip(
    datum: Datum,
    form: Form,
    endian: ByteEndian,
    before: Seq<u8>,
    after: Seq<u8>,
)
    requires
        conforms(datum, form),
    ensures
        parse_form(form, before + wire_datum(datum, endian) + after, before.len(), endian) == Ok::<
            (Datum, nat),
            Failure,
        >((datum, before.len() + wire_datum(datum, endian).len())),
    decreases datum, 0nat,
{
    let input = before + wire_datum(datum, endian) + after;
    match (datum, form) {
        (Datum::Scalar(scalar), Form::Scalar(kind)) => {
            scalar.lemma_round_trip(endian, before, after);
        },
        (Datum::Text(chars), Form::Text) => {
            lemma_text_round_trip(chars, endian, before, after);
        },
        (Datum::List(items), Form::List(element)) => {
            let count = count_wire(items.len(), endian);
            lemma_run_round_trip(items, *element, endian, before + count, after, items.len());
            assert(items.take(items.len() as int) =~= items);
            lemma_counted_round_trip(items.len(), items, endian, before, after);
        },
        (Datum::Struct(items), Form::Struct(fields)) => {
            lemma_fields_round_trip(items, fields, endian, before, after, items.len());
            assert(items.take(items.len() as int) =~= items);
        },
        (Datum::Enum(index, items), Form::Enum(variants)) => {
            let tag = count_wire(index, endian);
            lemma_fields_round_trip(
                items,
                variants[index as int],
                endian,
                before + tag,
                after,
                items.len(),
            );
            assert(items.take(items.len() as int) =~= items);
            lemma_counted_round_trip(index, items, endian, before, after);
        },
        _ => {},
    }
}

/// A count or an index that was written in front of some items is read
/// back, and the items then start right behind it.
pub proof fn lemma_counted_round_trip(
    count: nat,
    items: Seq<Datum>,
    endian: ByteEndian,
    before: Seq<u8>,
    after: Seq<u8>,
)
    requires
        count <= usize::MAX,
    ensures
        count_wire(count, endian).len() == 8,
        scalar_parse::<usize, 8>(
            before + (count_wire(count, endian) + wire_data(items, endian, items.len())) + after,
            before.len(),
            endian,
            "u64"@,
        ) == Ok::<(usize, nat), Failure>((count as usize, before.len() + 8)),
        before + (count_wire(count, endian) + wire_data(items, endian, items.len())) + after == (
        before + count_wire(count, endian)) + wire_data(items, endian, items.len()) + after,
{
    let tag = count_wire(count, endian);
    let body = wire_data(items, endian, items.len());
    lemma_scalar_round_trip::<usize, 8>(count as usize, endian, before, body + after, "u64"@);
    assert(before + tag + (body + after) =~= before + (tag + body) + after);
    assert(before + (tag + body) + after =~= (before + tag) + body + after);
}

/// The first `upto` elements of a list that was written are read back.
pub proof fn lemma_run_round_trip(
    items: Seq<Datum>,
    element: Form,
    endian: ByteEndian,
    before: Seq<u8>,
    after: Seq<u8>,
    upto: nat,
)
    requires
        upto <= items.len(),
        forall|i: int| 0 <= i < items.len() ==> conforms(#[trigger] items[i], element),
    ensures
        parse_run(
            element,
            before + wire_data(items, endian, upto) + after,
            before.len(),
            endian,
            upto,
        ) == Ok::<(Seq<Datum>, nat), Failure>(
            (items.take(upto as int), before.len() + wire_data(items, endian, upto).len()),
        ),
    decreases items, upto,
{
    let input = before + wire_data(items, endian, upto) + after;
    if upto == 0 {
        assert(items.take(0) =~= Seq::<Datum>::empty());
    } else {
        let head = wire_data(items, endian, (upto - 1) as nat);
        let last = items[upto - 1];
        let tail = wire_datum(last, endian);
        lemma_run_round_trip(items, element, endian, before, tail + after, (upto - 1) as nat);
        assert(before + head + (tail + after) =~= input);
        lemma_datum_round_trip(last, element, endian, before + head, after);
        assert((before + head) + tail + after =~= input);
        assert(items.take(upto - 1).push(last) =~= items.take(upto as int));
    }
}

/// The first `upto` fields of a struct that was written are read back.
pub proof fn lemma_fields_round_trip(
    items: Seq<Datum>,
    fields: Seq<Form>,
    endian: ByteEndian,
    before: Seq<u8>,
    after: Seq<u8>,
    upto: nat,
)
    requires
        upto <= items.len(),
        all_conform(items, fields),
    ensures
        items.len() == fields.len(),
        parse_fields(
            fields,
            before + wire_data(items, endian, upto) + after,
            before.len(),
            endian,
            upto,
        ) == Ok::<(Seq<Datum>, nat), Failure>(
            (items.take(upto as int), before.len() + wire_data(items, endian, upto).len()),
        ),
    decreases items, upto,
{
    let input = before + wire_data(items, endian, upto) + after;
    if upto == 0 {
        assert(items.take(0) =~= Seq::<Datum>::empty());
    } else {
        let head = wire_data(items, endian, (upto - 1) as nat);
        let last = items[upto - 1];
        let tail = wire_datum(last, endian);
        lemma_fields_round_trip(items, fields, endian, before, tail + after, (upto - 1) as nat);
        assert(before + head + (tail + after) =~= input);
        lemma_datum_round_trip(last, fields[upto - 1], endian, before + head, after);
        assert((before + head) + tail + after =~= input);
        assert(items.take(upto - 1).push(last) =~= items.take(upto as int));
    }
}

/// An encoding that lost its end never decodes: the decoder reports that
/// bytes are missing, whatever the form holds.
pub proof fn lemma_datum_truncated(
    datum: Datum,
    form: Form,
    endian: ByteEndian,
    before: Seq<u8>,
    kept: nat,
)
    requires
        conforms(datum, form),
        kept < wire_datum(datum, endian).len(),
    ensures
        parse_form(form, before + wire_datum(datum, endian).take(kept as int), before.len(), endian) matches Err(
            failure,
        ) && is_shortfall(failure),
    decreases datum, 0nat,
{
    let input = before + wire_datum(datum, endian).take(kept as int);
    match (datum, form) {
        (Datum::Scalar(scalar), Form::Scalar(kind)) => {
            scalar.lemma_truncated(endian, before, kept);
        },
        (Datum::Text(chars), Form::Text) => {
            lemma_text_truncated(chars, endian, before, kept);
        },
        (Datum::List(items), Form::List(element)) => {
            let count = count_wire(items.len(), endian);
            let body = wire_data(items, endian, items.len());
            lemma_scalar_round_trip::<usize, 8>(
                items.len() as usize,
                endian,
                before,
                Seq::empty(),
                "u64"@,
            );
            if kept < 8 {
                lemma_scalar_truncated::<usize, 8>(items.len() as usize, endian, before, kept, "u64"@);
                assert(before + count.take(kept as int) =~= input);
            } else {
                let rest = (kept - 8) as nat;
                let cut = body.take(rest as int);
                lemma_scalar_round_trip::<usize, 8>(items.len() as usize, endian, before, cut, "u64"@);
                assert(before + count + cut =~= input);
                lemma_run_truncated(items, *element, endian, before + count, items.len(), rest);
                assert((before + count) + cut =~= input);
            }
        },
        (Datum::Struct(items), Form::Struct(fields)) => {
            lemma_fields_truncated(items, fields, endian, before, items.len(), kept);
        },
        (Datum::Enum(index, items), Form::Enum(variants)) => {
            let tag = count_wire(index, endian);
            let body = wire_data(items, endian, items.len());
            lemma_scalar_round_trip::<usize, 8>(index as usize, endian, before, Seq::empty(), "u64"@);
            if kept < 8 {
                lemma_scalar_truncated::<usize, 8>(index as usize, endian, before, kept, "u64"@);
                assert(before + tag.take(kept as int) =~= input);
            } else {
                let rest = (kept - 8) as nat;
                let cut = body.take(rest as int);
                lemma_scalar_round_trip::<usize, 8>(index as usize, endian, before, cut, "u64"@);
                assert(before + tag + cut =~= input);
                lemma_fields_truncated(
                    items,
                    variants[index as int],
                    endian,
                    before + tag,
                    items.len(),
                    rest,
                );
                assert((before + tag) + cut =~= input);
            }
        },
        _ => {},
    }
}

/// A list whose elements lost their end is reported as cut off.
pub proof fn lemma_run_truncated(
    items: Seq<Datum>,
    element: Form,
    endian: ByteEndian,
    before: Seq<u8>,
    upto: nat,
    kept: nat,
)
    requires
        upto <= items.len(),
        forall|i: int| 0 <= i < items.len() ==> conforms(#[trigger] items[i], element),
        kept < wire_data(items, endian, upto).len(),
    ensures
        parse_run(
            element,
            before + wire_data(items, endian, upto).take(kept as int),
            before.len(),
            endian,
            upto,
        ) matches Err(failure) && is_shortfall(failure),
    decreases items, upto,
{
    let input = before + wire_data(items, endian, upto).take(kept as int);
    let head = wire_data(items, endian, (upto - 1) as nat);
    let last = items[upto - 1];
    if kept < head.len() {
        lemma_run_truncated(items, element, endian, before, (upto - 1) as nat, kept);
        assert(before + head.take(kept as int) =~= input);
    } else {
        let rest = (kept - head.len()) as nat;
        let cut = wire_datum(last, endian).take(rest as int);
        lemma_run_round_trip(items, element, endian, before, cut, (upto - 1) as nat);
        assert(before + head + cut =~= input);
        lemma_datum_truncated(last, element, endian, before + head, rest);
        assert((before + head) + cut =~= input);
    }
}

/// A struct whose fields lost their end is reported as cut off.
pub proof fn lemma_fields_truncated(
    items: Seq<Datum>,
    fields: Seq<Form>,
    endian: ByteEndian,
    before: Seq<u8>,
    upto: nat,
    kept: nat,
)
    requires
        upto <= items.len(),
        all_conform(items, fields),
        kept < wire_data(items, endian, upto).len(),
    ensures
        items.len() == fields.len(),
        parse_fields(
            fields,
            before + wire_data(items, endian, upto).take(kept as int),
            before.len(),
            endian,
            upto,
        ) matches Err(failure) && is_shortfall(failure),
    decreases items, upto,
{
    let input = before + wire_data(items, endian, upto).take(kept as int);
    let head = wire_data(items, endian, (upto - 1) as nat);
    let last = items[upto - 1];
    if kept < head.len() {
        lemma_fields_truncated(items, fields, endian, before, (upto - 1) as nat, kept);
        assert(before + head.take(kept as int) =~= input);
    } else {
        let rest = (kept - head.len()) as nat;
        let cut = wire_datum(last, endian).take(rest as int);
        lemma_fields_round_trip(items, fields, endian, before, cut, (upto - 1) as nat);
        assert(before + head + cut =~= input);
        lemma_datum_truncated(last, fields[upto - 1], endian, before + head, rest);
        assert((before + head) + cut =~= input);
    }
}

/// Decoding undoes encoding: the bytes of a value of some form, read under
/// that form, give the value and are used up.
pub proof fn law_shape_round_trip(datum: Datum, form: Form, endian: ByteEndian)
    requires
        conforms(datum, form),
    ensures
        parse_form(form, wire_datum(datum, endian), 0, endian) == Ok::<(Datum, nat), Failure>(
            (datum, wire_datum(datum, endian).len()),
        ),
{
    lemma_datum_round_trip(datum, form, endian, Seq::empty(), Seq::empty());
    assert(Seq::<u8>::empty() + wire_datum(datum, endian) + Seq::<u8>::empty() =~= wire_datum(
        datum,
        endian,
    ));
}

/// A strict prefix of the bytes of a value never decodes under the value's
/// form: the decoder reports that bytes are missing.
pub proof fn law_shape_truncation(datum: Datum, form: Form, endian: ByteEndian, kept: nat)
    requires
        conforms(datum, form),
        kept < wire_datum(datum, endian).len(),
    ensures
        parse_form(form, wire_datum(datum, endian).take(kept as int), 0, endian) matches Err(
            failure,
        ) && is_shortfall(failure),
{
    lemma_datum_truncated(datum, form, endian, Seq::empty(), kept);
    assert(Seq::<u8>::empty() + wire_datum(datum, endian).take(kept as int) =~= wire_datum(
        datum,
        endian,
    ).take(kept as int));
}

/// A variant index that names no variant is refused as such: it is never
/// read as some other variant, nor reported as missing input.
pub proof fn law_invalid_variant(
    variants: Seq<Seq<Form>>,
    input: Seq<u8>,
    at: nat,
    endian: ByteEndian,
)
    requires
        scalar_parse::<usize, 8>(input, at, endian, "u64"@) matches Ok((index, _))
            && index >= variants.len(),
    ensures
        parse_form(Form::Enum(variants), input, at, endian) == Err::<(Datum, nat), Failure>(
            Failure::InvalidEnumVariant,
        ),
{
}

} // verus!
