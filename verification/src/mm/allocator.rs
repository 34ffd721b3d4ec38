use vstd::prelude::*;

verus! {

/// The kernel heap: addresses from `KRNL_MEM_BEGIN` up to `KRNL_MEM_END`.
pub const KRNL_MEM_BEGIN: usize = 0xc040_0000;

pub const KRNL_MEM_END: usize = 0xc0c0_0000;

/// `a` is a power of two: it is nonzero and has a single bit set.
pub open spec fn is_power_of_two(a: usize) -> bool {
    a != 0 && a & ((a - 1) as usize) == 0
}

/// The largest multiple of `a` that is not above `x`.
pub open spec fn round_down(x: int, a: int) -> int {
    x - x % a
}

/// `n` rounded up to a multiple of `align` when `align` is a power of two:
/// the smallest such multiple not below `n`, or, where that is above
/// `usize::MAX`, the largest multiple of `align` that a `usize` holds.
/// Any other `align` leaves `n` as it is.
pub open spec fn aligned_spec(n: usize, align: usize) -> int {
    if !is_power_of_two(align) {
        n as int
    } else if n + align - 1 <= usize::MAX {
        round_down(n + align - 1, align as int)
    } else {
        round_down(usize::MAX as int, align as int)
    }
}

proof fn lemma_and_split_low_bit(x: usize, m: usize)
    by (bit_vector)
    ensures
        x & m == ((x / 2) & (m / 2)) * 2 + ((x % 2) & (m % 2)),
{
}

/// For a power of two `a`, masking with `a - 1` keeps the remainder by `a`.
proof fn lemma_low_mask_is_mod(x: usize, a: usize)
    requires
        is_power_of_two(a),
    ensures
        x & ((a - 1) as usize) == x % a,
    decreases a,
{
    let m = (a - 1) as usize;
    if a == 1 {
        assert(x & 0 == 0) by (bit_vector);
    } else {
        let b = a / 2;
        assert(a % 2 == 0 && b != 0 && b & ((b - 1) as usize) == 0 && m / 2 == (b - 1) as usize
            && m % 2 == 1) by (bit_vector)
            requires
                a != 0,
                a != 1,
                m == a - 1,
                a & m == 0,
                b == a / 2,
        ;
        lemma_low_mask_is_mod(x / 2, b);
        vstd::arithmetic::div_mod::lemma_mod_breakdown(x as int, 2, b as int);
        lemma_and_split_low_bit(x, m);
        assert((x % 2) & 1 == x % 2) by (bit_vector);
    }
}

proof fn lemma_mask_is_round_down(x: usize, a: usize)
    requires
        is_power_of_two(a),
    ensures
        x & !((a - 1) as usize) == round_down(x as int, a as int),
{
    let m = (a - 1) as usize;
    assert(x & !m == x - (x & m)) by (bit_vector);
    lemma_low_mask_is_mod(x, a);
}

/// Rounds `n` up to a multiple of `align` where `align` is a power of two,
/// saturating at the top of the address space.
pub fn align_by(n: usize, align: usize) -> (r: usize)
    ensures
        r == aligned_spec(n, align),
{
    if align == 0 || align & (align - 1) != 0 {
        return n;
    }
    let mask = align - 1;
    let sum = n.saturating_add(mask);
    proof {
        lemma_mask_is_round_down(sum, align);
    }
    sum & !mask
}

/// The decision of one allocation from the heap whose free part starts at
/// `cur`: the address of the block and the new start of the free part, or
/// `None` where the block would pass `KRNL_MEM_END`.
pub open spec fn bump_spec(cur: usize, size: usize, align: usize) -> Option<(usize, usize)> {
    let aligned = aligned_spec(cur, align);
    let next = if aligned + size > usize::MAX {
        usize::MAX as int
    } else {
        aligned + size
    };
    if next > KRNL_MEM_END {
        None
    } else {
        Some((aligned as usize, next as usize))
    }
}

pub fn bump(cur: usize, size: usize, align: usize) -> (r: Option<(usize, usize)>)
    ensures
        r == bump_spec(cur, size, align),
{
    let aligned = align_by(cur, align);
    let next = aligned.saturating_add(size);
    if next > KRNL_MEM_END {
        None
    } else {
        Some((aligned, next))
    }
}

/// A bump allocator over the kernel heap; memory is never given back.
pub struct Allocator {
    next: usize,
}

impl View for Allocator {
    type V = nat;

    /// The start of the free part of the heap.
    closed spec fn view(&self) -> nat {
        self.next as nat
    }
}

impl Allocator {
    pub fn instance() -> (a: Allocator)
        ensures
            a@ == KRNL_MEM_BEGIN,
    {
        Allocator { next: KRNL_MEM_BEGIN }
    }

    /// The start of the free part of the heap.
    pub fn current(&self) -> (c: usize)
        ensures
            c == self@,
    {
        self.next
    }

    /// Allocates `size` bytes aligned to `align`; `None`, and no change,
    /// where the heap is exhausted.
    pub fn allocate(&mut self, size: usize, align: usize) -> (r: Option<usize>)
        ensures
            match bump_spec(old(self)@ as usize, size, align) {
                None => r is None && final(self)@ == old(self)@,
                Some(b) => r == Some(b.0) && final(self)@ == b.1,
            },
    {
        match bump(self.next, size, align) {
            None => None,
            Some((aligned, next)) => {
                self.next = next;
                Some(aligned)
            },
        }
    }

    /// Memory is never given back.
    pub fn deallocate(&mut self, _ptr: usize, _size: usize, _align: usize)
        ensures
            final(self)@ == old(self)@,
    {
    }
}

/// Rounding up with a power of two gives a multiple of it, no smaller than
/// `n` and less than one alignment above it, when that fits in a `usize`.
pub proof fn lemma_align_rounds_up(n: usize, align: usize)
    requires
        is_power_of_two(align),
        n + align - 1 <= usize::MAX,
    ensures
        aligned_spec(n, align) % (align as int) == 0,
        n <= aligned_spec(n, align) < n + align,
{
    let x = n + align - 1;
    vstd::arithmetic::div_mod::lemma_fundamental_div_mod(x as int, align as int);
    vstd::arithmetic::div_mod::lemma_mod_multiples_basic(x / (align as int), align as int);
    vstd::arithmetic::mul::lemma_mul_is_commutative(x / (align as int), align as int);
}

/// A block that the heap hands out (where rounding the free start up to a
/// power-of-two alignment does not saturate) starts no lower than the free start, is
/// aligned, lies inside the heap, and the free part starts right after it.
pub proof fn lemma_bump_block(cur: usize, size: usize, align: usize)
    requires
        bump_spec(cur, size, align) is Some,
        is_power_of_two(align) ==> cur + align - 1 <= usize::MAX,
    ensures
        cur <= bump_spec(cur, size, align).unwrap().0,
        bump_spec(cur, size, align).unwrap().0 + size == bump_spec(cur, size, align).unwrap().1,
        bump_spec(cur, size, align).unwrap().1 <= KRNL_MEM_END,
        is_power_of_two(align) ==> bump_spec(cur, size, align).unwrap().0 % align == 0,
{
    if is_power_of_two(align) {
        lemma_align_rounds_up(cur, align);
    }
}

/// Two blocks handed out one after the other do not overlap.
pub proof fn lemma_bump_disjoint(cur: usize, s1: usize, a1: usize, s2: usize, a2: usize)
    requires
        bump_spec(cur, s1, a1) is Some,
        is_power_of_two(a1) ==> cur + a1 - 1 <= usize::MAX,
        bump_spec(bump_spec(cur, s1, a1).unwrap().1, s2, a2) is Some,
        is_power_of_two(a2) ==> bump_spec(cur, s1, a1).unwrap().1 + a2 - 1 <= usize::MAX,
    ensures
        bump_spec(cur, s1, a1).unwrap().0 + s1 <= bump_spec(
            bump_spec(cur, s1, a1).unwrap().1,
            s2,
            a2,
        ).unwrap().0,
{
    lemma_bump_block(cur, s1, a1);
    lemma_bump_block(bump_spec(cur, s1, a1).unwrap().1, s2, a2);
}

/// A call on the allocator: an allocation of `size` bytes aligned to
/// `align`, or a deallocation (which changes nothing).
pub enum AllocOp {
    Allocate { size: usize, align: usize },
    Deallocate,
}

/// The free start after the calls `ops` from `start`, with the blocks handed
/// out (address and size), in order.
pub open spec fn run_ops(start: usize, ops: Seq<AllocOp>) -> (usize, Seq<(usize, usize)>)
    decreases ops.len(),
{
    if ops.len() == 0 {
        (start, Seq::empty())
    } else {
        let (cur, blocks) = run_ops(start, ops.drop_last());
        match ops.last() {
            AllocOp::Allocate { size, align } => match bump_spec(cur, size, align) {
                Some(b) => (b.1, blocks.push((b.0, size))),
                None => (cur, blocks),
            },
            AllocOp::Deallocate => (cur, blocks),
        }
    }
}

/// Over any sequence of calls from a free start inside the heap, with
/// power-of-two alignments small enough that rounding up never saturates
/// (other alignments are not rounded to): the free start
/// never goes down and stays inside the heap, every block lies between the
/// first free start and the last, the blocks come in address order, and no
/// two of them overlap.
pub proof fn lemma_run_ops(start: usize, ops: Seq<AllocOp>)
    requires
        KRNL_MEM_BEGIN <= start <= KRNL_MEM_END,
        forall|i: int|
            0 <= i < ops.len() ==> (#[trigger] ops[i] matches AllocOp::Allocate { align, .. }
                ==> (is_power_of_two(align) ==> KRNL_MEM_END + align - 1 <= usize::MAX)),
    ensures
        start <= run_ops(start, ops).0 <= KRNL_MEM_END,
        forall|j: int|
            0 <= j < run_ops(start, ops).1.len() ==> start <= (#[trigger] run_ops(start, ops).1[j]).0
                && run_ops(start, ops).1[j].0 + run_ops(start, ops).1[j].1 <= run_ops(start, ops).0,
        forall|i: int, j: int|
            0 <= i < j < run_ops(start, ops).1.len() ==> (#[trigger] run_ops(start, ops).1[i]).0
                + run_ops(start, ops).1[i].1 <= (#[trigger] run_ops(start, ops).1[j]).0,
    decreases ops.len(),
{
    if ops.len() > 0 {
        let prefix = ops.drop_last();
        assert forall|i: int|
            0 <= i < prefix.len() implies (#[trigger] prefix[i] matches AllocOp::Allocate { align, .. }
            ==> (is_power_of_two(align) ==> KRNL_MEM_END + align - 1 <= usize::MAX)) by {
            assert(prefix[i] == ops[i]);
        }
        lemma_run_ops(start, prefix);
        let (cur, blocks) = run_ops(start, prefix);
        assert(ops.last() == ops[ops.len() - 1]);
        match ops.last() {
            AllocOp::Allocate { size, align } => {
                if bump_spec(cur, size, align) is Some {
                    lemma_bump_block(cur, size, align);
                }
            },
            AllocOp::Deallocate => {},
        }
    }
}

} // verus!
