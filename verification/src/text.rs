//! UTF-16, the form in which text travels.

use vstd::prelude::*;
use vstd::string::StringExecFns;

verus! {

/// The one or two code units that stand for `c`.
pub open spec fn utf16_of_char(c: char) -> Seq<u16> {
    let code = c as int;
    if code < 0x1_0000 {
        seq![code as u16]
    } else {
        seq![
            (0xD800 + (code - 0x1_0000) / 0x400) as u16,
            (0xDC00 + (code - 0x1_0000) % 0x400) as u16,
        ]
    }
}

/// The code units of `chars`, one character after the other.
pub open spec fn utf16_encode(chars: Seq<char>) -> Seq<u16>
    decreases chars.len(),
{
    if chars.len() == 0 {
        Seq::empty()
    } else {
        utf16_of_char(chars[0]) + utf16_encode(chars.drop_first())
    }
}

/// Whether `unit` stands for a character by itself.
pub open spec fn is_plain_unit(unit: u16) -> bool {
    unit < 0xD800 || 0xE000 <= unit
}

/// Whether `unit` opens a surrogate pair.
pub open spec fn is_high_surrogate(unit: u16) -> bool {
    0xD800 <= unit < 0xDC00
}

/// Whether `unit` closes a surrogate pair.
pub open spec fn is_low_surrogate(unit: u16) -> bool {
    0xDC00 <= unit < 0xE000
}

/// The characters that `units` spell, or `None` where a surrogate stands
/// without its partner.
pub open spec fn utf16_decode(units: Seq<u16>) -> Option<Seq<char>>
    decreases units.len(),
{
    if units.len() == 0 {
        Some(Seq::empty())
    } else if is_plain_unit(units[0]) {
        match utf16_decode(units.drop_first()) {
            Some(rest) => Some(seq![units[0] as char] + rest),
            None => None,
        }
    } else if is_high_surrogate(units[0]) && units.len() >= 2 && is_low_surrogate(units[1]) {
        match utf16_decode(units.skip(2)) {
            Some(rest) => Some(
                seq![(0x1_0000 + (units[0] - 0xD800) * 0x400 + (units[1] - 0xDC00)) as char] + rest,
            ),
            None => None,
        }
    } else {
        None
    }
}

/// A character is a code point that is no surrogate.
pub proof fn lemma_char_range(c: char)
    ensures
        (0 <= (c as int) && (c as int) < 0xD800) || (0xE000 <= (c as int) && (c as int) <= 0x10_FFFF),
{
}

/// Text that was encoded is well formed and decodes to itself.
pub proof fn lemma_utf16_round_trip(chars: Seq<char>)
    ensures
        utf16_decode(utf16_encode(chars)) == Some(chars),
    decreases chars.len(),
{
    if chars.len() > 0 {
        let c = chars[0];
        let code = c as int;
        let rest = chars.drop_first();
        let units = utf16_encode(chars);
        lemma_utf16_round_trip(rest);
        lemma_char_range(c);
        assert(units == utf16_of_char(c) + utf16_encode(rest));
        if code < 0x1_0000 {
            assert(units[0] == code as u16);
            assert(units.drop_first() =~= utf16_encode(rest));
            assert(units[0] as char == c);
        } else {
            let high = units[0];
            let low = units[1];
            assert(high == 0xD800 + (code - 0x1_0000) / 0x400);
            assert(low == 0xDC00 + (code - 0x1_0000) % 0x400);
            assert(units.skip(2) =~= utf16_encode(rest));
            assert(0x1_0000 + (high - 0xD800) * 0x400 + (low - 0xDC00) == code);
            assert(code as char == c);
        }
        assert(seq![c] + rest =~= chars);
    }
}

/// The UTF-16 code units of `text`, as `str::encode_utf16` yields them:
/// one unit for a character of the basic plane, a surrogate pair for another.
#[verifier::external_body]
pub(crate) fn utf16_units(text: &str) -> (units: Vec<u16>)
    ensures
        units@ == utf16_encode(text@),
{
    text.encode_utf16().collect()
}

/// `String::from_utf16`: the text that `units` spell, or nothing where a
/// surrogate has no partner.
#[verifier::external_body]
pub(crate) fn text_of_utf16(units: &[u16]) -> (text: Option<String>)
    ensures
        match text {
            Some(t) => utf16_decode(units@) == Some(t@),
            None => utf16_decode(units@) is None,
        },
{
    String::from_utf16(units).ok()
}

/// The character of one decimal digit.
pub open spec fn digit(d: nat) -> char {
    (0x30 + d) as char
}

/// `n` in decimal, without sign or padding.
pub open spec fn decimal(n: nat) -> Seq<char>
    decreases n,
{
    if n < 10 {
        seq![digit(n)]
    } else {
        decimal(n / 10).push(digit(n % 10))
    }
}

/// The decimal digit `d` as text.
pub fn digit_text(d: usize) -> (text: &'static str)
    requires
        d < 10,
    ensures
        text@ == seq![digit(d as nat)],
{
    proof {
        reveal_strlit("0");
        reveal_strlit("1");
        reveal_strlit("2");
        reveal_strlit("3");
        reveal_strlit("4");
        reveal_strlit("5");
        reveal_strlit("6");
        reveal_strlit("7");
        reveal_strlit("8");
        reveal_strlit("9");
    }
    let text = match d {
        0 => "0",
        1 => "1",
        2 => "2",
        3 => "3",
        4 => "4",
        5 => "5",
        6 => "6",
        7 => "7",
        8 => "8",
        _ => "9",
    };
    proof {
        assert(text@ =~= seq![digit(d as nat)]);
    }
    text
}

/// Appends `n` in decimal.
pub fn append_decimal(text: &mut String, n: usize)
    ensures
        final(text)@ == old(text)@ + decimal(n as nat),
    decreases n,
{
    if n >= 10 {
        append_decimal(text, n / 10);
    }
    text.append(digit_text(n % 10));
    proof {
        if n >= 10 {
            assert(old(text)@ + decimal((n / 10) as nat) + seq![digit((n % 10) as nat)] =~= old(
                text,
            )@ + decimal(n as nat));
        }
    }
}

/// The name under which a run of `count` scalars is reported: `[u32; 10]`
/// for ten of `u32`.
pub open spec fn block_label(element: Seq<char>, count: nat) -> Seq<char> {
    "["@ + element + "; "@ + decimal(count) + "]"@
}

/// The name of a run of `count` scalars named `element`.
pub fn block_label_text(element: &str, count: usize) -> (label: String)
    ensures
        label@ == block_label(element@, count as nat),
{
    let mut label = String::from_str("[");
    label.append(element);
    label.append("; ");
    append_decimal(&mut label, count);
    label.append("]");
    label
}

/// What is said of input that ended too early.
pub open spec fn shortfall_text(label: Seq<char>, index: nat) -> Seq<char> {
    "not enough bytes left to decode `"@ + label + "` starting at index `"@ + decimal(index)
        + "`"@
}

/// The sentence that tells which type was cut short and where.
pub fn shortfall_message(label: &str, index: usize) -> (text: String)
    ensures
        text@ == shortfall_text(label@, index as nat),
{
    let mut text = String::from_str("not enough bytes left to decode `");
    text.append(label);
    text.append("` starting at index `");
    append_decimal(&mut text, index);
    text.append("`");
    text
}

} // verus!
