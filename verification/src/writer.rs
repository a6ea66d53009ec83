//! Writes method arguments in AMQP's types.
use vstd::prelude::*;
use vstd::utf8::*;

use crate::arguments::{self, LONG_STRING_TYPE, SHORT_STRING_MAX};
use crate::octets::{self, put_u16, put_u32, put_u64};

verus! {

/// What a writer has written: the octets, and how many bits of the last one
/// are taken while it still takes bits, 0 where the next bit opens an octet.
pub struct Written {
    pub octets: Seq<u8>,
    pub taken: nat,
}

impl Written {
    /// Nothing yet.
    pub open spec fn nothing() -> Written {
        Written { octets: Seq::empty(), taken: 0 }
    }

    /// `more` appended; the next bit opens an octet.
    pub open spec fn and(self, more: Seq<u8>) -> Written {
        Written { octets: self.octets + more, taken: 0 }
    }

    /// One bit appended, in the octet that still takes bits or in a new one.
    pub open spec fn and_bit(self, value: bool) -> Written {
        if 0 < self.taken < 8 {
            Written {
                octets: self.octets.drop_last().push(
                    arguments::with_bit(self.octets.last(), self.taken as u8, value),
                ),
                taken: self.taken + 1,
            }
        } else {
            Written { octets: self.octets.push(arguments::with_bit(0, 0, value)), taken: 1 }
        }
    }

    /// Several bits appended, one after the other.
    pub open spec fn and_bits(self, bits: Seq<bool>) -> Written
        decreases bits.len(),
    {
        if bits.len() == 0 {
            self
        } else {
            self.and_bits(bits.drop_last()).and_bit(bits.last())
        }
    }
}

/// Consecutive bits pack into octets, eight to each, wherever the run of them
/// starts.
pub proof fn bits_pack_into_octets(before: Written, bits: Seq<bool>)
    requires
        before.taken == 0,
    ensures
        before.and_bits(bits).octets == before.octets + arguments::packed(bits),
        bits.len() > 0 ==> before.and_bits(bits).taken == (bits.len() - 1) % 8 + 1,
    decreases bits.len(),
{
    if bits.len() == 0 {
        assert(before.octets + arguments::packed(bits) =~= before.octets);
    } else {
        let fewer = bits.drop_last();
        bits_pack_into_octets(before, fewer);
        arguments::lemma_packed(fewer);
        let at = (bits.len() - 1) % 8;
        if at > 0 {
            let packed = arguments::packed(fewer);
            assert((before.octets + packed).last() == packed.last());
        }
        assert(before.and_bits(bits).octets =~= before.octets + arguments::packed(bits));
    }
}

/// Writes method arguments in AMQP's types.
pub struct Writer {
    out: Vec<u8>,
    bits: Option<(usize, u8)>,
}

impl View for Writer {
    type V = Written;

    closed spec fn view(&self) -> Written {
        Written {
            octets: self.out@,
            taken: match self.bits {
                Some((_, count)) => count as nat,
                None => 0,
            },
        }
    }
}

impl Default for Writer {
    fn default() -> (writer: Self)
        ensures
            writer.wf(),
            writer@ == Written::nothing(),
    {
        Writer { out: Vec::new(), bits: None }
    }
}

impl Writer {
    /// An octet that still takes bits is the last one written.
    pub closed spec fn wf(&self) -> bool {
        match self.bits {
            Some((at, count)) => at + 1 == self.out@.len() && 1 <= count <= 8,
            None => true,
        }
    }

    /// A writer that has written nothing.
    #[must_use]
    pub fn new() -> (writer: Self)
        ensures
            writer.wf(),
            writer@ == Written::nothing(),
    {
        Self::default()
    }

    /// One octet.
    pub fn octet(&mut self, value: u8) -> (writer: &mut Self)
        requires
            old(self).wf(),
        ensures
            writer.wf(),
            writer@ == old(self)@.and(seq![value]),
            *final(self) == *final(writer),
    {
        self.bits = None;
        self.out.push(value);
        assert(self@.octets =~= old(self)@.octets + seq![value]);
        self
    }

    /// Two octets.
    pub fn short(&mut self, value: u16) -> (writer: &mut Self)
        requires
            old(self).wf(),
        ensures
            writer.wf(),
            writer@ == old(self)@.and(octets::big_endian(value as nat, 2)),
            *final(self) == *final(writer),
    {
        self.bits = None;
        put_u16(&mut self.out, value);
        self
    }

    /// Four octets.
    pub fn long(&mut self, value: u32) -> (writer: &mut Self)
        requires
            old(self).wf(),
        ensures
            writer.wf(),
            writer@ == old(self)@.and(octets::big_endian(value as nat, 4)),
            *final(self) == *final(writer),
    {
        self.bits = None;
        put_u32(&mut self.out, value);
        self
    }

    /// Eight octets.
    pub fn longlong(&mut self, value: u64) -> (writer: &mut Self)
        requires
            old(self).wf(),
        ensures
            writer.wf(),
            writer@ == old(self)@.and(octets::big_endian(value as nat, 8)),
            *final(self) == *final(writer),
    {
        self.bits = None;
        put_u64(&mut self.out, value);
        self
    }

    /// A short string, at most 255 octets; longer is cut.
    pub fn shortstr(&mut self, value: &str) -> (writer: &mut Self)
        requires
            old(self).wf(),
        ensures
            writer.wf(),
            writer@ == old(self)@.and(arguments::short_string(value@)),
            *final(self) == *final(writer),
    {
        self.bits = None;
        let octets: &[u8] = value.as_bytes();
        let length: usize = if octets.len() < SHORT_STRING_MAX {
            octets.len()
        } else {
            SHORT_STRING_MAX
        };
        let content: &[u8] = vstd::slice::slice_subrange(octets, 0, length);
        assert(content@ =~= arguments::short_string_content(value@));
        self.out.push(length as u8);
        self.out.extend_from_slice(content);
        assert(self@.octets =~= old(self)@.octets + arguments::short_string(value@));
        self
    }

    /// A long string.
    pub fn longstr(&mut self, value: &[u8]) -> (writer: &mut Self)
        requires
            old(self).wf(),
        ensures
            writer.wf(),
            writer@ == old(self)@.and(arguments::long_string(value@)),
            *final(self) == *final(writer),
    {
        self.bits = None;
        put_length(&mut self.out, value.len());
        self.out.extend_from_slice(value);
        assert(self@.octets =~= old(self)@.octets + arguments::long_string(value@));
        self
    }

    /// A field table of long-string values.
    pub fn table(&mut self, entries: &[(&str, &str)]) -> (writer: &mut Self)
        requires
            old(self).wf(),
        ensures
            writer.wf(),
            writer@ == old(self)@.and(arguments::table(entries.deep_view())),
            *final(self) == *final(writer),
    {
        let ghost fields = entries.deep_view();
        let mut inner = Writer::new();
        let mut i: usize = 0;
        while i < entries.len()
            invariant
                i <= entries@.len(),
                fields == entries.deep_view(),
                inner.wf(),
                inner@ == Written::nothing().and(arguments::table_fields(fields.take(i as int))),
            decreases entries@.len() - i,
        {
            let (key, value) = entries[i];
            proof {
                let done = fields.take(i as int);
                let more = fields.take(i + 1);
                assert(more.drop_last() =~= done);
                assert(more.last() == (key@, value@));
                assert(Seq::<u8>::empty() + arguments::table_fields(more) =~= Seq::<u8>::empty()
                    + arguments::table_fields(done) + arguments::short_string(key@)
                    + seq![LONG_STRING_TYPE] + arguments::long_string(encode_utf8(value@)));
            }
            inner.shortstr(key).octet(LONG_STRING_TYPE).longstr(value.as_bytes());
            i = i + 1;
        }
        assert(fields.take(i as int) =~= fields);
        let content = inner.finish();
        assert(content@ =~= arguments::table_fields(fields));
        self.longstr(&content)
    }

    /// One bit; consecutive bits pack into one octet, as the grammar says.
    pub fn bit(&mut self, value: bool) -> (writer: &mut Self)
        requires
            old(self).wf(),
        ensures
            writer.wf(),
            writer@ == old(self)@.and_bit(value),
            *final(self) == *final(writer),
    {
        match self.bits {
            Some((at, count)) if count < 8 => {
                if value {
                    let octet: u8 = self.out[at];
                    self.out[at] = octet | (1u8 << count);
                }
                self.bits = Some((at, count + 1));
                assert(self@.octets =~= old(self)@.and_bit(value).octets);
            },
            _ => {
                let octet: u8 = if value {
                    1
                } else {
                    0
                };
                assert(0u8 | (1u8 << 0u8) == 1u8) by (bit_vector);
                self.out.push(octet);
                self.bits = Some((self.out.len() - 1, 1));
            },
        }
        self
    }

    /// What was written.
    #[must_use]
    pub fn finish(&self) -> (octets: Vec<u8>)
        ensures
            octets@ == self@.octets,
    {
        self.out.clone()
    }
}

/// Append a length field.
pub fn put_length(out: &mut Vec<u8>, length: usize)
    ensures
        final(out)@ == old(out)@ + arguments::length_field(length as nat),
{
    if length <= u32::MAX as usize {
        put_u32(out, length as u32);
    } else {
        put_u32(out, u32::MAX);
    }
}

/// What is written comes after what was written before, and closes the octet
/// that bits were packed in.
pub proof fn what_is_written_comes_last(before: Written, more: Seq<u8>, bit: bool)
    ensures
        Written::nothing().octets.len() == 0,
        before.and(more).octets == before.octets + more,
        before.and(more).and_bit(bit).octets == before.octets + more + arguments::packed(seq![bit]),
{
    reveal_with_fuel(arguments::packed, 2);
    assert(seq![bit].drop_last() =~= Seq::empty());
    assert(before.and(more).and_bit(bit).octets =~= before.octets + more + arguments::packed(
        seq![bit],
    ));
}

} // verus!
