//! Reads method arguments in AMQP's types.
use vstd::prelude::*;

use crate::arguments;
use crate::error::Error;
use crate::octets::{self, number};
use crate::text::read_text;

verus! {

/// What a reader has before it: the octets that were not read yet, and the
/// octet whose bits are being read, with how many of them were.
pub struct Unread {
    pub octets: Seq<u8>,
    pub bits: Option<(u8, u8)>,
}

impl Unread {
    /// After an octet that holds no bits, or that is not there.
    pub open spec fn at(octets: Seq<u8>) -> Unread {
        Unread { octets, bits: None }
    }

    /// The next bit, and what follows it: one of the octet whose bits are being
    /// read, or the first of the next octet.
    pub open spec fn next_bit(self) -> Option<(bool, Unread)> {
        match self.bits {
            Some((octet, count)) if count < 8 => Some(
                (
                    arguments::bit_of(octet, count),
                    Unread { octets: self.octets, bits: Some((octet, (count + 1) as u8)) },
                ),
            ),
            _ => if self.octets.len() == 0 {
                None
            } else {
                Some(
                    (
                        arguments::bit_of(self.octets[0], 0),
                        Unread { octets: self.octets.skip(1), bits: Some((self.octets[0], 1)) },
                    ),
                )
            },
        }
    }

    /// The next `count` bits, and what follows them.
    pub open spec fn next_bits(self, count: nat) -> Option<(Seq<bool>, Unread)>
        decreases count,
    {
        if count == 0 {
            Some((Seq::empty(), self))
        } else {
            match self.next_bits((count - 1) as nat) {
                Some((bits, rest)) => match rest.next_bit() {
                    Some((bit, rest)) => Some((bits.push(bit), rest)),
                    None => None,
                },
                None => None,
            }
        }
    }
}

/// What is left once some of the bits that were packed are read.
proof fn lemma_bits_left(bits: Seq<bool>, tail: Seq<u8>, count: nat)
    requires
        count <= bits.len(),
    ensures
        Unread::at(arguments::packed(bits) + tail).next_bits(count) == Some(
            (
                bits.take(count as int),
                Unread {
                    octets: (arguments::packed(bits) + tail).skip((count + 7) as int / 8),
                    bits: if count == 0 {
                        None
                    } else {
                        Some(
                            (
                                arguments::packed(bits)[(count - 1) / 8],
                                ((count - 1) % 8 + 1) as u8,
                            ),
                        )
                    },
                },
            ),
        ),
    decreases count,
{
    let octets = arguments::packed(bits) + tail;
    arguments::lemma_packed(bits);
    if count == 0 {
        assert(octets.skip(0) =~= octets);
        assert(bits.take(0) =~= Seq::empty());
    } else {
        let last = count - 1;
        lemma_bits_left(bits, tail, last as nat);
        assert(bits.take(count as int) =~= bits.take(last).push(bits[last]));
        let octet = arguments::packed(bits)[last / 8];
        assert(arguments::bit_of(octet, (last % 8) as u8) == bits[last]);
        if last % 8 == 0 {
            assert((last + 7) / 8 == last / 8);
            assert(octets.skip(last / 8)[0] == arguments::packed(bits)[last / 8]);
            assert(octets.skip(last / 8).skip(1) =~= octets.skip((count + 7) as int / 8));
        } else {
            assert((last - 1) / 8 == last / 8);
            assert((last + 7) / 8 == (count + 7) / 8);
        }
    }
}

/// Bits that were packed are read back in their order, and what follows them is
/// left.
pub proof fn bits_are_read_back(bits: Seq<bool>, tail: Seq<u8>)
    ensures
        Unread::at(arguments::packed(bits) + tail).next_bits(bits.len()) matches Some((read, rest))
            && read == bits && rest.octets == tail,
{
    lemma_bits_left(bits, tail, bits.len());
    arguments::lemma_packed(bits);
    assert(bits.take(bits.len() as int) =~= bits);
    assert((arguments::packed(bits) + tail).skip(arguments::packed(bits).len() as int) =~= tail);
}

/// Reads method arguments in AMQP's types.
pub struct Reader<'a> {
    bytes: &'a [u8],
    at: usize,
    bits: Option<(u8, u8)>,
}

impl<'a> View for Reader<'a> {
    type V = Unread;

    closed spec fn view(&self) -> Unread {
        Unread { octets: self.bytes@.skip(self.at as int), bits: self.bits }
    }
}

impl<'a> Reader<'a> {
    /// The place of the reader lies within its octets.
    pub closed spec fn wf(&self) -> bool {
        &&& self.at <= self.bytes@.len()
        &&& self.bits matches Some((_, count)) ==> 1 <= count <= 8
    }

    /// A reader before the first of `bytes`.
    #[must_use]
    pub fn new(bytes: &'a [u8]) -> (reader: Self)
        ensures
            reader.wf(),
            reader@ == Unread::at(bytes@),
    {
        assert(bytes@.skip(0) =~= bytes@);
        Self { bytes, at: 0, bits: None }
    }

    /// The next `count` octets.
    fn take(&mut self, count: usize) -> (taken: Result<&'a [u8], Error>)
        requires
            old(self).wf(),
        ensures
            final(self).wf(),
            count <= old(self)@.octets.len() ==> {
                &&& taken matches Ok(octets) && octets@ == old(self)@.octets.take(count as int)
                &&& final(self)@ == Unread::at(old(self)@.octets.skip(count as int))
            },
            count > old(self)@.octets.len() ==> {
                &&& taken == Err::<&'a [u8], Error>(Error::ArgumentPastFrame)
                &&& final(self)@ == Unread::at(old(self)@.octets)
            },
    {
        self.bits = None;
        if count > self.bytes.len() - self.at {
            return Err(Error::ArgumentPastFrame);
        }
        let end: usize = self.at + count;
        let slice = vstd::slice::slice_subrange(self.bytes, self.at, end);
        assert(slice@ =~= old(self)@.octets.take(count as int));
        assert(self.bytes@.skip(end as int) =~= old(self)@.octets.skip(count as int));
        self.at = end;
        Ok(slice)
    }

    /// One octet.
    ///
    /// # Errors
    /// Past the end.
    pub fn octet(&mut self) -> (value: Result<u8, Error>)
        requires
            old(self).wf(),
        ensures
            final(self).wf(),
            match arguments::read_number(old(self)@.octets, 1) {
                Some((number, rest)) => {
                    &&& value matches Ok(value) && value == number
                    &&& final(self)@ == Unread::at(rest)
                },
                None => {
                    &&& value == Err::<u8, Error>(Error::ArgumentPastFrame)
                    &&& final(self)@ == Unread::at(old(self)@.octets)
                },
            },
    {
        let octets = self.take(1)?;
        proof {
            reveal_with_fuel(octets::big_endian_value, 2);
        }
        Ok(octets[0])
    }

    /// Two octets.
    ///
    /// # Errors
    /// Past the end.
    pub fn short(&mut self) -> (value: Result<u16, Error>)
        requires
            old(self).wf(),
        ensures
            final(self).wf(),
            match arguments::read_number(old(self)@.octets, 2) {
                Some((number, rest)) => {
                    &&& value matches Ok(value) && value == number
                    &&& final(self)@ == Unread::at(rest)
                },
                None => {
                    &&& value == Err::<u16, Error>(Error::ArgumentPastFrame)
                    &&& final(self)@ == Unread::at(old(self)@.octets)
                },
            },
    {
        let octets = self.take(2)?;
        proof {
            octets::lemma_big_endian_value_bound(octets@);
            octets::lemma_octet_spans();
        }
        Ok(number(octets) as u16)
    }

    /// Four octets.
    ///
    /// # Errors
    /// Past the end.
    pub fn long(&mut self) -> (value: Result<u32, Error>)
        requires
            old(self).wf(),
        ensures
            final(self).wf(),
            match arguments::read_number(old(self)@.octets, 4) {
                Some((number, rest)) => {
                    &&& value matches Ok(value) && value == number
                    &&& final(self)@ == Unread::at(rest)
                },
                None => {
                    &&& value == Err::<u32, Error>(Error::ArgumentPastFrame)
                    &&& final(self)@ == Unread::at(old(self)@.octets)
                },
            },
    {
        let octets = self.take(4)?;
        proof {
            octets::lemma_big_endian_value_bound(octets@);
            octets::lemma_octet_spans();
        }
        Ok(number(octets) as u32)
    }

    /// Eight octets.
    ///
    /// # Errors
    /// Past the end.
    pub fn longlong(&mut self) -> (value: Result<u64, Error>)
        requires
            old(self).wf(),
        ensures
            final(self).wf(),
            match arguments::read_number(old(self)@.octets, 8) {
                Some((number, rest)) => {
                    &&& value matches Ok(value) && value == number
                    &&& final(self)@ == Unread::at(rest)
                },
                None => {
                    &&& value == Err::<u64, Error>(Error::ArgumentPastFrame)
                    &&& final(self)@ == Unread::at(old(self)@.octets)
                },
            },
    {
        let octets = self.take(8)?;
        Ok(number(octets))
    }

    /// A short string; what is not UTF-8 in it is replaced. Where only its
    /// content is cut off, its length octet counts as read.
    ///
    /// # Errors
    /// Past the end.
    pub fn shortstr(&mut self) -> (value: Result<String, Error>)
        requires
            old(self).wf(),
        ensures
            final(self).wf(),
            match arguments::read_short_string(old(self)@.octets) {
                Some((text, rest)) => {
                    &&& value matches Ok(value) && value@ == text
                    &&& final(self)@ == Unread::at(rest)
                },
                None => {
                    &&& value == Err::<String, Error>(Error::ArgumentPastFrame)
                    &&& final(self)@ == Unread::at(
                        if old(self)@.octets.len() == 0 {
                            old(self)@.octets
                        } else {
                            old(self)@.octets.skip(1)
                        },
                    )
                },
            },
    {
        let ghost before = self@.octets;
        let length: usize = self.octet()? as usize;
        proof {
            reveal_with_fuel(octets::big_endian_value, 2);
            assert(length == before[0]);
        }
        let content = self.take(length)?;
        proof {
            assert(content@ =~= before.subrange(1, 1 + length as int));
            assert(self@.octets =~= before.skip(1 + length as int));
        }
        Ok(read_text(content))
    }

    /// A long string. Where only its content is cut off, its length field
    /// counts as read.
    ///
    /// # Errors
    /// Past the end.
    pub fn longstr(&mut self) -> (value: Result<&'a [u8], Error>)
        requires
            old(self).wf(),
        ensures
            final(self).wf(),
            match arguments::read_long_string(old(self)@.octets) {
                Some((content, rest)) => {
                    &&& value matches Ok(value) && value@ == content
                    &&& final(self)@ == Unread::at(rest)
                },
                None => {
                    &&& value == Err::<&'a [u8], Error>(Error::ArgumentPastFrame)
                    &&& final(self)@ == Unread::at(
                        if old(self)@.octets.len() < 4 {
                            old(self)@.octets
                        } else {
                            old(self)@.octets.skip(4)
                        },
                    )
                },
            },
    {
        let length: usize = self.long()? as usize;
        self.take(length)
    }

    /// A field table, skipped: its length is all this transport needs.
    ///
    /// # Errors
    /// Past the end.
    pub fn table(&mut self) -> (skipped: Result<(), Error>)
        requires
            old(self).wf(),
        ensures
            final(self).wf(),
            match arguments::read_long_string(old(self)@.octets) {
                Some((_, rest)) => {
                    &&& skipped == Ok::<(), Error>(())
                    &&& final(self)@ == Unread::at(rest)
                },
                None => {
                    &&& skipped == Err::<(), Error>(Error::ArgumentPastFrame)
                    &&& final(self)@ == Unread::at(
                        if old(self)@.octets.len() < 4 {
                            old(self)@.octets
                        } else {
                            old(self)@.octets.skip(4)
                        },
                    )
                },
            },
    {
        match self.longstr() {
            Ok(_) => Ok(()),
            Err(error) => Err(error),
        }
    }

    /// One bit; consecutive bits lie packed in one octet.
    ///
    /// # Errors
    /// Past the end.
    pub fn bit(&mut self) -> (value: Result<bool, Error>)
        requires
            old(self).wf(),
        ensures
            final(self).wf(),
            match old(self)@.next_bit() {
                Some((bit, rest)) => {
                    &&& value == Ok::<bool, Error>(bit)
                    &&& final(self)@ == rest
                },
                None => {
                    &&& value == Err::<bool, Error>(Error::ArgumentPastFrame)
                    &&& final(self)@ == Unread::at(old(self)@.octets)
                },
            },
    {
        match self.bits {
            Some((octet, count)) if count < 8 => {
                self.bits = Some((octet, count + 1));
                Ok(octet & (1u8 << count) != 0)
            },
            _ => {
                let octet: u8 = self.take(1)?[0];
                self.bits = Some((octet, 1));
                assert(1u8 << 0u8 == 1u8) by (bit_vector);
                Ok(octet & 1 != 0)
            },
        }
    }

    /// What was not read yet.
    #[must_use]
    pub fn rest(&self) -> (rest: &'a [u8])
        requires
            self.wf(),
        ensures
            rest@ == self@.octets,
    {
        vstd::slice::slice_subrange(self.bytes, self.at, self.bytes.len())
    }
}

/// A bit is there to read unless the octet whose bits are being read has none
/// left and no octet follows it. Where an octet is taken for its bits, the
/// octets after it are left.
pub proof fn bits_are_read_while_there_are_octets(octets: Seq<u8>)
    ensures
        Unread::at(octets).octets == octets,
        Unread::at(octets).next_bit() is Some <==> octets.len() > 0,
        octets.len() > 0 ==> (Unread::at(octets).next_bit() matches Some((bit, rest)) && bit == (
        octets[0] % 2 == 1) && rest.octets == octets.skip(1)),
{
    if octets.len() > 0 {
        arguments::bits_are_powers_of_two(octets[0]);
    }
}

} // verus!
