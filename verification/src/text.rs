//! Text: numbers in decimal, the parts of an address, and octets read as
//! UTF-8.
use vstd::prelude::*;
use vstd::string::*;
use vstd::utf8::*;

verus! {

/// The decimal digit for `value`.
pub open spec fn digit(value: nat) -> char {
    (('0' as nat) + value) as char
}

/// `value` in decimal, without leading zeros.
pub open spec fn decimal(value: nat) -> Seq<char>
    decreases value,
{
    if value < 10 {
        seq![digit(value)]
    } else {
        decimal(value / 10).push(digit(value % 10))
    }
}

/// `text` without `prefix`, where it starts with it.
pub open spec fn without_prefix(text: Seq<char>, prefix: Seq<char>) -> Option<Seq<char>> {
    if prefix.len() <= text.len() && text.take(prefix.len() as int) == prefix {
        Some(text.skip(prefix.len() as int))
    } else {
        None
    }
}

/// What stands before and after the first `at` in `text`.
pub open spec fn parted(text: Seq<char>, at: char) -> Option<(Seq<char>, Seq<char>)> {
    match text.index_of_first(at) {
        Some(i) => Some((text.take(i), text.skip(i + 1))),
        None => None,
    }
}

/// What octets that are not UTF-8 read as, each run that is not UTF-8 replaced.
pub uninterp spec fn utf8_repaired(octets: Seq<u8>) -> Seq<char>;

/// What `octets` read as: their text where they are UTF-8, else the text with
/// what is not UTF-8 replaced.
pub open spec fn utf8_text(octets: Seq<u8>) -> Seq<char> {
    if valid_utf8(octets) {
        decode_utf8(octets)
    } else {
        utf8_repaired(octets)
    }
}

/// Text is read back from its own UTF-8.
pub proof fn lemma_utf8_text_round_trip(text: Seq<char>)
    ensures
        utf8_text(encode_utf8(text)) == text,
{
    encode_utf8_valid_utf8(text);
    encode_utf8_decode_utf8(text);
}

/// No character takes more than four octets.
pub proof fn lemma_utf8_len(text: Seq<char>)
    ensures
        encode_utf8(text).len() <= 4 * text.len(),
    decreases text.len(),
{
    if text.len() > 0 {
        lemma_utf8_len(text.drop_first());
    }
}

/// The first `at` parts a text.
pub proof fn lemma_parted(text: Seq<char>, at: char, i: int)
    requires
        0 <= i < text.len(),
        text[i] == at,
        forall|j: int| 0 <= j < i ==> text[j] != at,
    ensures
        parted(text, at) == Some((text.take(i), text.skip(i + 1))),
{
    text.index_of_first_ensures(at);
    assert(text.contains(at));
}

/// A text that `at` joins from two is parted into them, where the first does
/// not hold it.
pub proof fn lemma_parted_by(before: Seq<char>, at: char, after: Seq<char>)
    requires
        !before.contains(at),
    ensures
        parted(before + seq![at] + after, at) == Some((before, after)),
{
    let text = before + seq![at] + after;
    assert forall|j: int| 0 <= j < before.len() implies text[j] != at by {
        assert(before.contains(before[j]));
    }
    lemma_parted(text, at, before.len() as int);
    assert(text.take(before.len() as int) =~= before);
    assert(text.skip(before.len() as int + 1) =~= after);
}

/// Calls `String::from_utf8_lossy`. Of UTF-8 it claims that its text comes
/// out. What comes out of other octets, the replacement character in place of
/// each sequence that is not UTF-8, is a function of the octets that is named
/// but not spelled out.
#[verifier::external_body]
fn from_utf8_lossy(octets: &[u8]) -> (text: String)
    ensures
        valid_utf8(octets@) ==> text@ == decode_utf8(octets@),
        !valid_utf8(octets@) ==> text@ == utf8_repaired(octets@),
{
    String::from_utf8_lossy(octets).into_owned()
}

/// `octets` as text.
pub fn read_text(octets: &[u8]) -> (text: String)
    ensures
        text@ == utf8_text(octets@),
{
    from_utf8_lossy(octets)
}

/// The text of one decimal digit.
fn digit_text(value: u64) -> (text: &'static str)
    requires
        value < 10,
    ensures
        text@ == seq![digit(value as nat)],
{
    proof {
        reveal_strlit("0");
        reveal_strlit("1");
        reveal_strlit("2");
        reveal_strlit("3");
        reveal_strlit("4");
        reveal_strlit("5");
        reveal_strlit("6");
        reveal_strlit("7");
        reveal_strlit("8");
        reveal_strlit("9");
    }
    match value {
        0 => "0",
        1 => "1",
        2 => "2",
        3 => "3",
        4 => "4",
        5 => "5",
        6 => "6",
        7 => "7",
        8 => "8",
        _ => "9",
    }
}

/// Append `value` in decimal.
pub fn put_decimal(out: &mut String, value: u64)
    ensures
        final(out)@ == old(out)@ + decimal(value as nat),
    decreases value,
{
    if value >= 10 {
        put_decimal(out, value / 10);
    }
    out.append(digit_text(value % 10));
}

/// `text` without `prefix`, where it starts with it.
pub fn strip_prefix<'a>(text: &'a str, prefix: &str) -> (rest: Option<&'a str>)
    ensures
        match rest {
            Some(rest) => without_prefix(text@, prefix@) == Some(rest@),
            None => without_prefix(text@, prefix@) is None,
        },
{
    let whole: usize = text.unicode_len();
    let length: usize = prefix.unicode_len();
    if whole < length {
        return None;
    }
    let mut i: usize = 0;
    while i < length
        invariant
            i <= length,
            length == prefix@.len(),
            length <= text@.len(),
            text@.take(i as int) == prefix@.take(i as int),
        decreases length - i,
    {
        if text.get_char(i) != prefix.get_char(i) {
            assert(text@.take(length as int)[i as int] != prefix@[i as int]);
            return None;
        }
        assert(text@.take(i + 1) =~= text@.take(i as int).push(text@[i as int]));
        assert(prefix@.take(i + 1) =~= prefix@.take(i as int).push(prefix@[i as int]));
        i = i + 1;
    }
    assert(prefix@.take(length as int) =~= prefix@);
    Some(text.substring_char(length, whole))
}

/// What stands before and after the first `at` in `text`.
pub fn split_once<'a>(text: &'a str, at: char) -> (parts: Option<(&'a str, &'a str)>)
    ensures
        match parts {
            Some(parts) => parted(text@, at) == Some((parts.0@, parts.1@)),
            None => parted(text@, at) is None,
        },
{
    proof {
        text@.index_of_first_ensures(at);
    }
    let whole: usize = text.unicode_len();
    let mut i: usize = 0;
    for c in chars: text.chars()
        invariant
            chars.seq() == text@,
            i == chars.index(),
            whole == text@.len(),
            forall|j: int| 0 <= j < i ==> text@[j] != at,
            match text@.index_of_first(at) {
                Some(first) => {
                    &&& 0 <= first < text@.len()
                    &&& text@[first] == at
                    &&& forall|j: int| 0 <= j < first ==> text@[j] != at
                },
                None => !text@.contains(at),
            },
    {
        if c == at {
            return Some((text.substring_char(0, i), text.substring_char(i + 1, whole)));
        }
        i = i + 1;
    }
    None
}

/// The number that decimal digits spell.
pub open spec fn spelled(digits: Seq<char>) -> int
    decreases digits.len(),
{
    if digits.len() == 0 {
        0
    } else {
        spelled(digits.drop_last()) * 10 + (digits.last() as int - '0' as int)
    }
}

/// A number in decimal is digits and nothing else, spells the number, and has
/// no leading zero.
pub proof fn decimals_spell_their_number(value: nat)
    ensures
        spelled(decimal(value)) == value,
        decimal(value).len() > 0,
        forall|i: int|
            0 <= i < decimal(value).len() ==> '0' <= #[trigger] decimal(value)[i] <= '9',
        value > 0 ==> decimal(value)[0] != '0',
        value == 0 ==> decimal(value).len() == 1,
    decreases value,
{
    reveal_with_fuel(spelled, 2);
    if value >= 10 {
        decimals_spell_their_number(value / 10);
        assert(decimal(value).drop_last() =~= decimal(value / 10));
        assert(decimal(value)[0] == decimal(value / 10)[0]);
    } else {
        assert(decimal(value).drop_last() =~= Seq::empty());
    }
}

/// What follows a prefix is what is left without it, and a text that does not
/// start with the prefix has nothing to leave.
pub proof fn prefixes_are_stripped(text: Seq<char>, prefix: Seq<char>)
    ensures
        match without_prefix(text, prefix) {
            Some(rest) => text == prefix + rest,
            None => !prefix.is_prefix_of(text),
        },
{
    if without_prefix(text, prefix) is Some {
        assert(prefix + text.skip(prefix.len() as int) =~= text);
    } else if prefix.is_prefix_of(text) {
        assert(text.take(prefix.len() as int) =~= prefix);
    }
}

/// The parts of a text make it up with what parts them, which the first does
/// not hold. A text that does not hold it is not parted.
pub proof fn parts_make_up_the_text(text: Seq<char>, at: char)
    ensures
        match parted(text, at) {
            Some((before, after)) => text == before + seq![at] + after && !before.contains(at),
            None => !text.contains(at),
        },
{
    text.index_of_first_ensures(at);
    match text.index_of_first(at) {
        Some(i) => {
            assert(text.take(i) + seq![at] + text.skip(i + 1) =~= text);
        },
        None => {},
    }
}

/// Octets that are UTF-8 read as the text that they are the UTF-8 of.
pub proof fn utf8_is_read_as_its_text(octets: Seq<u8>)
    requires
        valid_utf8(octets),
    ensures
        encode_utf8(utf8_text(octets)) == octets,
{
    decode_utf8_encode_utf8(octets);
}

} // verus!
