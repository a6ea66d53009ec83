//! Unsigned integers in network byte order.
use vstd::arithmetic::power::*;
use vstd::prelude::*;

verus! {

/// `value` in `width` octets, the most significant first.
pub open spec fn big_endian(value: nat, width: nat) -> Seq<u8>
    decreases width,
{
    if width == 0 {
        Seq::empty()
    } else {
        big_endian(value / 256, (width - 1) as nat).push((value % 256) as u8)
    }
}

/// The number that `octets` spell, the most significant first.
pub open spec fn big_endian_value(octets: Seq<u8>) -> nat
    decreases octets.len(),
{
    if octets.len() == 0 {
        0
    } else {
        big_endian_value(octets.drop_last()) * 256 + octets.last() as nat
    }
}

/// 256 to the power of `width`: how many numbers `width` octets can spell.
pub open spec fn octet_span(width: nat) -> nat
    decreases width,
{
    if width == 0 {
        1
    } else {
        256 * octet_span((width - 1) as nat)
    }
}

/// `width` octets are written for a number of `width` octets.
pub proof fn lemma_big_endian_len(value: nat, width: nat)
    ensures
        big_endian(value, width).len() == width,
    decreases width,
{
    if width > 0 {
        lemma_big_endian_len(value / 256, (width - 1) as nat);
    }
}

/// A number that fits its width is read back from the octets it was written in.
pub proof fn lemma_big_endian_round_trip(value: nat, width: nat)
    requires
        value < octet_span(width),
    ensures
        big_endian_value(big_endian(value, width)) == value,
    decreases width,
{
    if width > 0 {
        let high = big_endian(value / 256, (width - 1) as nat);
        lemma_big_endian_round_trip(value / 256, (width - 1) as nat);
        assert(big_endian(value, width).drop_last() =~= high);
    }
}

/// Octets are written back as they were from the number they spell.
pub proof fn numbers_are_written_back(octets: Seq<u8>)
    ensures
        big_endian(big_endian_value(octets), octets.len()) == octets,
    decreases octets.len(),
{
    if octets.len() > 0 {
        numbers_are_written_back(octets.drop_last());
        assert(octets.drop_last().push(octets.last()) =~= octets);
    } else {
        assert(octets =~= Seq::empty());
    }
}

/// What `octets` spell fits their width.
pub proof fn lemma_big_endian_value_bound(octets: Seq<u8>)
    ensures
        big_endian_value(octets) < octet_span(octets.len()),
    decreases octets.len(),
{
    if octets.len() > 0 {
        lemma_big_endian_value_bound(octets.drop_last());
    }
}

/// The spans of the widths that AMQP has.
pub proof fn lemma_octet_spans()
    ensures
        octet_span(1) == 0x100,
        octet_span(2) == 0x1_0000,
        octet_span(4) == 0x1_0000_0000,
        octet_span(8) == 0x1_0000_0000_0000_0000,
{
    reveal_with_fuel(octet_span, 9);
}

/// The last `low` octets of a number spell it modulo their span, and the
/// `high` ones before them what is left of it.
pub proof fn lemma_big_endian_parts(value: nat, high: nat, low: nat)
    ensures
        octet_span(low) > 0,
        big_endian(value, high + low) == big_endian(value / octet_span(low), high) + big_endian(
            value % octet_span(low),
            low,
        ),
    decreases low,
{
    if low == 0 {
        assert(value / 1 == value);
        assert(big_endian(value, high) =~= big_endian(value, high) + Seq::empty());
    } else {
        let less = (low - 1) as nat;
        let span = octet_span(less);
        lemma_big_endian_parts(value / 256, high, less);
        vstd::arithmetic::div_mod::lemma_div_denominator(value as int, 256, span as int);
        vstd::arithmetic::div_mod::lemma_mod_breakdown(value as int, 256, span as int);
        let rest = value % octet_span(low);
        assert(rest == 256 * ((value / 256) % span) + value % 256);
        assert(rest / 256 == (value / 256) % span);
        assert(rest % 256 == value % 256);
        assert((high + low - 1) as nat == high + less);
        assert(big_endian(value, high + low) =~= big_endian(value / octet_span(low), high)
            + big_endian(rest, low));
    }
}

/// Append `value` in two octets.
pub fn put_u16(out: &mut Vec<u8>, value: u16)
    ensures
        final(out)@ == old(out)@ + big_endian(value as nat, 2),
{
    reveal_with_fuel(big_endian, 3);
    out.push((value / 256) as u8);
    out.push((value % 256) as u8);
}

/// Append `value` in four octets.
pub fn put_u32(out: &mut Vec<u8>, value: u32)
    ensures
        final(out)@ == old(out)@ + big_endian(value as nat, 4),
{
    proof {
        lemma_octet_spans();
        lemma_big_endian_parts(value as nat, 2, 2);
    }
    put_u16(out, (value / 0x1_0000) as u16);
    put_u16(out, (value % 0x1_0000) as u16);
}

/// Append `value` in eight octets.
pub fn put_u64(out: &mut Vec<u8>, value: u64)
    ensures
        final(out)@ == old(out)@ + big_endian(value as nat, 8),
{
    proof {
        lemma_octet_spans();
        lemma_big_endian_parts(value as nat, 4, 4);
    }
    put_u32(out, (value / 0x1_0000_0000) as u32);
    put_u32(out, (value % 0x1_0000_0000) as u32);
}

/// The number that at most eight octets spell.
pub fn number(octets: &[u8]) -> (value: u64)
    requires
        octets@.len() <= 8,
    ensures
        value == big_endian_value(octets@),
{
    let mut value: u64 = 0;
    let mut i: usize = 0;
    while i < octets.len()
        invariant
            i <= octets@.len() <= 8,
            value == big_endian_value(octets@.take(i as int)),
        decreases octets@.len() - i,
    {
        proof {
            let before = octets@.take(i as int);
            let after = octets@.take(i + 1);
            assert(after.drop_last() =~= before);
            lemma_big_endian_value_bound(after);
            lemma_octet_span_grows(after.len(), 8);
            lemma_octet_spans();
        }
        value = value * 256 + octets[i] as u64;
        i = i + 1;
    }
    assert(octets@.take(i as int) =~= octets@);
    value
}

/// More octets spell at least as many numbers.
pub proof fn lemma_octet_span_grows(less: nat, more: nat)
    requires
        less <= more,
    ensures
        octet_span(less) <= octet_span(more),
    decreases more,
{
    if less < more {
        lemma_octet_span_grows(less, (more - 1) as nat);
    }
}

/// Octet `i` of a number is its digit for that place to the base of 256, the
/// most significant first.
pub proof fn each_octet_is_a_digit(value: nat, width: nat, i: int)
    requires
        0 <= i < width,
    ensures
        big_endian(value, width).len() == width,
        big_endian(value, width)[i] as int == value as int / pow(256, (width - 1 - i) as nat) % 256,
    decreases width,
{
    lemma_big_endian_len(value, width);
    let less = (width - 1) as nat;
    lemma_big_endian_len(value / 256, less);
    reveal(pow);
    if i < less {
        let place = pow(256, (less - 1 - i) as nat);
        each_octet_is_a_digit(value / 256, less, i);
        vstd::arithmetic::power::lemma_pow_positive(256, (less - 1 - i) as nat);
        vstd::arithmetic::div_mod::lemma_div_denominator(value as int, 256, place);
        assert(pow(256, (width - 1 - i) as nat) == 256 * place);
    } else {
        assert(pow(256, 0) == 1);
    }
}

} // verus!
