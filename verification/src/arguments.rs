//! The argument types that a method's payload is written in: what each is on
//! the wire, what is read of it, and that the one undoes the other.
use vstd::prelude::*;
use vstd::utf8::*;

use crate::octets;
use crate::text;

verus! {

/// The longest short string, in octets.
pub const SHORT_STRING_MAX: usize = 255;

/// The type octet of a table field that holds a long string: `S`.
pub const LONG_STRING_TYPE: u8 = 0x53;

/// The octets of `text` that a short string carries: all of them, or the
/// first 255.
pub open spec fn short_string_content(text: Seq<char>) -> Seq<u8> {
    let octets = encode_utf8(text);
    if octets.len() <= SHORT_STRING_MAX {
        octets
    } else {
        octets.take(SHORT_STRING_MAX as int)
    }
}

/// `text` fits a short string whole.
pub open spec fn fits_short_string(text: Seq<char>) -> bool {
    encode_utf8(text).len() <= SHORT_STRING_MAX
}

/// What a short string carries of `text`, read as text.
pub open spec fn carried(text: Seq<char>) -> Seq<char> {
    text::utf8_text(short_string_content(text))
}

/// A short string: one octet of length, and the content.
pub open spec fn short_string(text: Seq<char>) -> Seq<u8> {
    let content = short_string_content(text);
    seq![content.len() as u8] + content
}

/// The length field of a long string, a table or a frame: four octets, and
/// what they cannot spell is written as the largest number they can.
pub open spec fn length_field(length: nat) -> Seq<u8> {
    octets::big_endian(
        if length <= u32::MAX {
            length
        } else {
            u32::MAX as nat
        },
        4,
    )
}

/// A long string: four octets of length, and the content.
pub open spec fn long_string(content: Seq<u8>) -> Seq<u8> {
    length_field(content.len()) + content
}

/// One field of a table: its name, the type of a long string, and its value.
pub open spec fn table_field(name: Seq<char>, value: Seq<char>) -> Seq<u8> {
    short_string(name) + seq![LONG_STRING_TYPE] + long_string(encode_utf8(value))
}

/// The fields of a table, one after the other.
pub open spec fn table_fields(fields: Seq<(Seq<char>, Seq<char>)>) -> Seq<u8>
    decreases fields.len(),
{
    if fields.len() == 0 {
        Seq::empty()
    } else {
        table_fields(fields.drop_last()) + table_field(fields.last().0, fields.last().1)
    }
}

/// A field table of long-string values.
pub open spec fn table(fields: Seq<(Seq<char>, Seq<char>)>) -> Seq<u8> {
    long_string(table_fields(fields))
}

/// Bit `at` of `octet`, the least significant being bit 0.
pub open spec fn bit_of(octet: u8, at: u8) -> bool {
    octet & (1u8 << at) != 0
}

/// `octet` with bit `at` set where `value` says so.
pub open spec fn with_bit(octet: u8, at: u8, value: bool) -> u8 {
    if value {
        octet | (1u8 << at)
    } else {
        octet
    }
}

/// `bits` packed, the first in the least significant bit of the first octet,
/// eight to an octet.
pub open spec fn packed(bits: Seq<bool>) -> Seq<u8>
    decreases bits.len(),
{
    if bits.len() == 0 {
        Seq::empty()
    } else {
        let before = packed(bits.drop_last());
        let at = ((bits.len() - 1) % 8) as u8;
        if at == 0 {
            before.push(with_bit(0, 0, bits.last()))
        } else {
            before.drop_last().push(with_bit(before.last(), at, bits.last()))
        }
    }
}

/// The next `width` octets as a number, and what follows them.
pub open spec fn read_number(octets: Seq<u8>, width: nat) -> Option<(nat, Seq<u8>)> {
    if octets.len() < width {
        None
    } else {
        Some((octets::big_endian_value(octets.take(width as int)), octets.skip(width as int)))
    }
}

/// The next short string, and what follows it.
pub open spec fn read_short_string(octets: Seq<u8>) -> Option<(Seq<char>, Seq<u8>)> {
    if octets.len() == 0 || octets.len() < 1 + octets[0] {
        None
    } else {
        let end = 1 + octets[0] as int;
        Some((text::utf8_text(octets.subrange(1, end)), octets.skip(end)))
    }
}

/// The next long string, and what follows it.
pub open spec fn read_long_string(octets: Seq<u8>) -> Option<(Seq<u8>, Seq<u8>)> {
    match read_number(octets, 4) {
        Some((length, rest)) => if rest.len() < length {
            None
        } else {
            Some((rest.take(length as int), rest.skip(length as int)))
        },
        None => None,
    }
}

/// A number that fits its width is read back, whatever follows it.
pub proof fn numbers_round_trip(value: nat, width: nat, tail: Seq<u8>)
    requires
        value < octets::octet_span(width),
    ensures
        read_number(octets::big_endian(value, width) + tail, width) == Some((value, tail)),
{
    octets::lemma_big_endian_len(value, width);
    octets::lemma_big_endian_round_trip(value, width);
    let octets = octets::big_endian(value, width) + tail;
    assert(octets.take(width as int) =~= octets::big_endian(value, width));
    assert(octets.skip(width as int) =~= tail);
}

/// Whatever text is written to a short string, what the string carries of it
/// is read back, whatever follows it. That is all of a text that fits.
pub proof fn short_strings_round_trip(text: Seq<char>, tail: Seq<u8>)
    ensures
        read_short_string(short_string(text) + tail) == Some((carried(text), tail)),
        fits_short_string(text) ==> carried(text) == text,
{
    let content = short_string_content(text);
    let octets = short_string(text) + tail;
    assert(octets[0] == content.len() as u8);
    assert(octets.subrange(1, 1 + content.len() as int) =~= content);
    assert(octets.skip(1 + content.len() as int) =~= tail);
    text::lemma_utf8_text_round_trip(text);
}

/// A long string whose length its field can spell is read back, whatever
/// follows it.
pub proof fn long_strings_round_trip(content: Seq<u8>, tail: Seq<u8>)
    requires
        content.len() <= u32::MAX,
    ensures
        read_long_string(long_string(content) + tail) == Some((content, tail)),
{
    octets::lemma_octet_spans();
    let length = content.len();
    numbers_round_trip(length, 4, content + tail);
    assert(long_string(content) + tail =~= length_field(length) + (content + tail));
    assert((content + tail).take(length as int) =~= content);
    assert((content + tail).skip(length as int) =~= tail);
}

/// A bit that was set is read back, and the bits beside it stay as they were.
pub proof fn lemma_with_bit(octet: u8, at: u8, value: bool)
    requires
        at < 8,
    ensures
        !bit_of(octet, at) ==> bit_of(with_bit(octet, at, value), at) == value,
        forall|other: u8|
            other < 8 && other != at ==> bit_of(with_bit(octet, at, value), other) == bit_of(
                octet,
                other,
            ),
{
    assert(at < 8 ==> (octet | (1u8 << at)) & (1u8 << at) != 0) by (bit_vector);
    assert forall|other: u8| other < 8 && other != at implies bit_of(
        with_bit(octet, at, value),
        other,
    ) == bit_of(octet, other) by {
        assert(other < 8 && at < 8 && other != at ==> ((octet | (1u8 << at)) & (1u8 << other)
            == octet & (1u8 << other))) by (bit_vector);
    }
}

/// Bit `i` of what was packed stands at bit `i % 8` of octet `i / 8`, and the
/// bits after the last are clear.
pub proof fn lemma_packed(bits: Seq<bool>)
    ensures
        packed(bits).len() == (bits.len() + 7) / 8,
        forall|i: int|
            0 <= i < bits.len() ==> bit_of(packed(bits)[i / 8], (i % 8) as u8)
                == #[trigger] bits[i],
        forall|at: u8|
            bits.len() > 0 && (bits.len() - 1) % 8 < at < 8 ==> !#[trigger] bit_of(
                packed(bits).last(),
                at,
            ),
    decreases bits.len(),
{
    if bits.len() > 0 {
        let fewer = bits.drop_last();
        let before = packed(fewer);
        let at = ((bits.len() - 1) % 8) as u8;
        lemma_packed(fewer);
        assert forall|other: u8| other < 8 implies !#[trigger] bit_of(0, other) by {
            assert(0u8 & (1u8 << other) == 0) by (bit_vector);
        }
        let octet = if at == 0 {
            0
        } else {
            before.last()
        };
        lemma_with_bit(octet, at, bits.last());
        assert(!bit_of(octet, at));
        assert(packed(bits).last() == with_bit(octet, at, bits.last()));
        assert forall|other: u8| at < other < 8 implies !#[trigger] bit_of(
            packed(bits).last(),
            other,
        ) by {
            assert(!bit_of(octet, other));
        }
        assert forall|i: int| 0 <= i < bits.len() implies bit_of(
            packed(bits)[i / 8],
            (i % 8) as u8,
        ) == #[trigger] bits[i] by {
            if i < bits.len() - 1 {
                assert(bits[i] == fewer[i]);
                if i / 8 == (bits.len() - 1) / 8 {
                    assert((i % 8) as u8 != at);
                }
            }
        }
    }
}

/// A short string is the length of the text's UTF-8 in one octet and then that
/// UTF-8, or 255 and the first 255 octets of it.
pub proof fn short_strings_are_counted(text: Seq<char>)
    ensures
        ({
            let octets = encode_utf8(text);
            &&& octets.len() <= 255 ==> short_string(text) == seq![octets.len() as u8] + octets
            &&& octets.len() > 255 ==> short_string(text) == seq![255u8] + octets.take(255)
        }),
{
}

/// Whatever octets stand behind a short string's length are its text, and what
/// follows them is left. A short string that is cut is not read.
pub proof fn short_strings_of_any_octets_are_read(content: Seq<u8>, tail: Seq<u8>, cut: nat)
    requires
        content.len() <= 255,
        cut <= content.len(),
    ensures
        read_short_string(seq![content.len() as u8] + content + tail) == Some(
            (text::utf8_text(content), tail),
        ),
        read_short_string((seq![content.len() as u8] + content).take(cut as int)) is None,
{
    let octets = seq![content.len() as u8] + content + tail;
    assert(octets.subrange(1, 1 + content.len() as int) =~= content);
    assert(octets.skip(1 + content.len() as int) =~= tail);
}

/// A text of at most 255 octets is carried whole, and of a longer one what its
/// first 255 octets read as.
pub proof fn texts_are_carried_up_to_their_limit(text: Seq<char>)
    ensures
        encode_utf8(text).len() <= 255 ==> carried(text) == text,
        encode_utf8(text).len() > 255 ==> carried(text) == text::utf8_text(
            encode_utf8(text).take(255),
        ),
{
    text::lemma_utf8_text_round_trip(text);
}

/// A long string is the length of the content in four octets and then the
/// content. A length that four octets cannot spell is written as the largest
/// they can.
pub proof fn long_strings_are_counted(content: Seq<u8>)
    ensures
        content.len() <= u32::MAX ==> long_string(content) == octets::big_endian(content.len(), 4)
            + content,
        content.len() > u32::MAX ==> long_string(content) == octets::big_endian(0xffff_ffff, 4)
            + content,
{
}

/// A long string that is cut is not read.
pub proof fn cut_long_strings_are_not_read(content: Seq<u8>, cut: nat)
    requires
        content.len() <= u32::MAX,
        cut < 4 + content.len(),
    ensures
        read_long_string(long_string(content).take(cut as int)) is None,
{
    octets::lemma_octet_spans();
    octets::lemma_big_endian_len(content.len(), 4);
    octets::lemma_big_endian_round_trip(content.len(), 4);
    let octets = long_string(content).take(cut as int);
    if cut >= 4 {
        assert(octets.take(4) =~= octets::big_endian(content.len(), 4));
    }
}

/// Octets too few for a number are not read as one, and no others are refused.
pub proof fn numbers_need_their_octets(octets: Seq<u8>, width: nat)
    ensures
        read_number(octets, width) is Some <==> octets.len() >= width,
{
}

/// Bit `at` of an octet tells whether 2 to the power of `at` is in it.
pub proof fn bits_are_powers_of_two(octet: u8)
    ensures
        bit_of(octet, 0) == (octet % 2 == 1),
        bit_of(octet, 1) == (octet / 2 % 2 == 1),
        bit_of(octet, 2) == (octet / 4 % 2 == 1),
        bit_of(octet, 3) == (octet / 8 % 2 == 1),
        bit_of(octet, 4) == (octet / 16 % 2 == 1),
        bit_of(octet, 5) == (octet / 32 % 2 == 1),
        bit_of(octet, 6) == (octet / 64 % 2 == 1),
        bit_of(octet, 7) == (octet / 128 % 2 == 1),
{
    assert((octet & (1u8 << 0u8) != 0) == (octet % 2 == 1) && (octet & (1u8 << 1u8) != 0) == (octet
        / 2 % 2 == 1) && (octet & (1u8 << 2u8) != 0) == (octet / 4 % 2 == 1) && (octet & (1u8
        << 3u8) != 0) == (octet / 8 % 2 == 1) && (octet & (1u8 << 4u8) != 0) == (octet / 16 % 2
        == 1) && (octet & (1u8 << 5u8) != 0) == (octet / 32 % 2 == 1) && (octet & (1u8 << 6u8)
        != 0) == (octet / 64 % 2 == 1) && (octet & (1u8 << 7u8) != 0) == (octet / 128 % 2 == 1))
        by (bit_vector);
}

/// The first field of a table, and the fields after it.
pub proof fn lemma_table_fields_first(fields: Seq<(Seq<char>, Seq<char>)>)
    requires
        fields.len() > 0,
    ensures
        table_fields(fields) == table_field(fields[0].0, fields[0].1) + table_fields(
            fields.skip(1),
        ),
    decreases fields.len(),
{
    let rest = fields.skip(1);
    let first = table_field(fields[0].0, fields[0].1);
    if fields.len() == 1 {
        assert(fields.drop_last() =~= Seq::empty());
        assert(rest =~= Seq::empty());
        assert(table_fields(fields) =~= first + table_fields(rest));
    } else {
        let fewer = fields.drop_last();
        lemma_table_fields_first(fewer);
        assert(fewer.skip(1) =~= rest.drop_last());
        assert(table_fields(fields) =~= first + table_fields(rest));
    }
}

} // verus!
