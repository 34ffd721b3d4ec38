use vstd::prelude::*;

verus! {

/// Bit `k` (0 = least significant) of the byte `b`, as 0 or 1.
pub open spec fn bit_of(b: u8, k: int) -> u8 {
    (b >> (k as u8)) & 1u8
}

/// The bits of `data`, least significant bit of each byte first.
pub open spec fn bits_of(data: Seq<u8>) -> Seq<u8> {
    Seq::new((data.len() * 8) as nat, |i: int| bit_of(data[i / 8], i % 8))
}

/// A reader of the bits of a byte slice, least significant bit first.
pub struct Stream<'a> {
    data: &'a [u8],
    seek: usize,
    shift: usize,
}

impl<'a> Stream<'a> {
    #[verifier::type_invariant]
    spec fn inv(self) -> bool {
        &&& self.shift < 8
        &&& self.seek <= self.data@.len()
        &&& self.seek == self.data@.len() ==> self.shift == 0
    }

    /// The bits that the stream reads.
    pub closed spec fn bits(self) -> Seq<u8> {
        bits_of(self.data@)
    }

    /// How many bits have been read.
    pub closed spec fn pos(self) -> int {
        self.seek * 8 + self.shift
    }

    pub fn new(data: &'a [u8]) -> (s: Stream<'a>)
        ensures
            s.bits() == bits_of(data@),
            s.pos() == 0,
    {
        Stream { data: data, seek: 0, shift: 0 }
    }

    pub fn has_next(&self) -> (r: bool)
        ensures
            0 <= self.pos() <= self.bits().len(),
            r == (self.pos() < self.bits().len()),
    {
        proof {
            use_type_invariant(self);
        }
        self.seek < self.data.len()
    }

    /// Reads the next bit.
    pub fn next_byte(&mut self) -> (bit: u8)
        requires
            old(self).pos() < old(self).bits().len(),
        ensures
            bit == old(self).bits()[old(self).pos()],
            bit <= 1,
            final(self).bits() == old(self).bits(),
            final(self).pos() == old(self).pos() + 1,
            0 <= final(self).pos() <= final(self).bits().len(),
    {
        proof {
            use_type_invariant(&*self);
        }
        let seek = self.seek;
        let shift = self.shift;
        let ghost p = self.pos();
        assert(p / 8 == seek && p % 8 == shift) by (nonlinear_arith)
            requires
                p == seek * 8 + shift,
                shift < 8,
        ;
        assert(seek < self.data@.len()) by (nonlinear_arith)
            requires
                p == seek * 8 + shift,
                p < self.data@.len() * 8,
                shift < 8,
        ;
        let byte = self.data[seek];
        let bit = (byte >> (shift as u8)) & 1u8;
        assert(bit <= 1) by (bit_vector)
            requires
                bit == (byte >> (shift as u8)) & 1u8,
        ;
        if shift == 7 {
            *self = Stream { data: self.data, seek: seek + 1, shift: 0 };
        } else {
            *self = Stream { data: self.data, seek: seek, shift: shift + 1 };
        }
        bit
    }

    /// The number of bits left to read.
    pub fn remain(&self) -> (r: usize)
        requires
            self.bits().len() <= usize::MAX,
        ensures
            0 <= self.pos() <= self.bits().len(),
            r == self.bits().len() - self.pos(),
    {
        proof {
            use_type_invariant(self);
        }
        (self.data.len() - self.seek) * 8 - self.shift
    }
}

/// After `Stream::new(data)` and `k` reads (each of which moves one bit on),
/// the bits left, which `remain` gives, are `8 * data.len() - k`, never
/// fewer than zero, and `has_next` holds exactly while some are left.
pub proof fn lemma_remain_after_reads(s: Stream, data: Seq<u8>, k: int)
    requires
        s.bits() == bits_of(data),
        s.pos() == k,
        0 <= k <= 8 * data.len(),
    ensures
        s.bits().len() - s.pos() == 8 * data.len() - k,
        s.bits().len() - s.pos() >= 0,
        (s.pos() < s.bits().len()) == (s.bits().len() - s.pos() > 0),
{
}

} // verus!
