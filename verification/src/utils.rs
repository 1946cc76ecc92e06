//! Bit-flag helpers: turning a list of bit positions into a 32-bit mask.

use vstd::prelude::*;

verus! {

/// Whether bit `k` of `flags` is set.
pub open spec fn has_bit(flags: u32, k: u8) -> bool {
    (flags >> k) & 1u32 == 1u32
}

/// The mask with exactly the bits listed in `bits` set.
pub open spec fn bit_flags(bits: Seq<u8>) -> u32
    decreases bits.len(),
{
    if bits.len() == 0 {
        0u32
    } else {
        bit_flags(bits.drop_last()) | (1u32 << bits.last())
    }
}

/// Setting bit `num` in `flags` sets that bit and leaves every other bit as it was.
pub proof fn lemma_set_bit(flags: u32, num: u8, k: u8)
    requires
        num < 32,
        k < 32,
    ensures
        has_bit(flags | (1u32 << num), k) <==> (has_bit(flags, k) || k == num),
{
    assert(((flags | (1u32 << num)) >> k) & 1u32 == 1u32 <==> ((flags >> k) & 1u32 == 1u32 || k
        == num)) by (bit_vector)
        requires
            num < 32,
            k < 32,
    ;
}

/// No bit of the zero mask is set.
pub proof fn lemma_zero_has_no_bit(k: u8)
    requires
        k < 32,
    ensures
        !has_bit(0u32, k),
{
    assert((0u32 >> k) & 1u32 != 1u32) by (bit_vector)
        requires
            k < 32,
    ;
}

/// A bit of `bit_flags(bits)` is set exactly when its position occurs in `bits`.
pub proof fn lemma_bit_flags_membership(bits: Seq<u8>, k: u8)
    requires
        forall|i: int| 0 <= i < bits.len() ==> bits[i] < 32,
        k < 32,
    ensures
        has_bit(bit_flags(bits), k) <==> bits.contains(k),
    decreases bits.len(),
{
    if bits.len() == 0 {
        lemma_zero_has_no_bit(k);
    } else {
        let init = bits.drop_last();
        lemma_bit_flags_membership(init, k);
        lemma_set_bit(bit_flags(init), bits.last(), k);
        if bits.contains(k) {
            let i = choose|i: int| 0 <= i < bits.len() && bits[i] == k;
            if i < bits.len() - 1 {
                assert(init[i] == k);
            }
        }
        if init.contains(k) {
            let i = choose|i: int| 0 <= i < init.len() && init[i] == k;
            assert(bits[i] == k);
        }
    }
}

/// Convert a list of bit positions into an integer with those bits set.
pub fn int_list_to_num(int_list: &[u8]) -> (flags: u32)
    requires
        forall|i: int| 0 <= i < int_list@.len() ==> int_list@[i] < 32,
    ensures
        flags == bit_flags(int_list@),
        forall|k: u8| k < 32 ==> (has_bit(flags, k) <==> int_list@.contains(k)),
{
    let mut flags: u32 = 0;
    let mut i: usize = 0;
    while i < int_list.len()
        invariant
            i <= int_list@.len(),
            forall|j: int| 0 <= j < int_list@.len() ==> int_list@[j] < 32,
            flags == bit_flags(int_list@.take(i as int)),
        decreases int_list@.len() - i,
    {
        let flag: u8 = int_list[i];
        proof {
            let next = int_list@.take(i + 1);
            assert(next.drop_last() =~= int_list@.take(i as int));
            assert(next.last() == flag);
        }
        flags = flags | (1u32 << flag);
        i = i + 1;
    }
    proof {
        assert(int_list@.take(i as int) =~= int_list@);
        assert forall|k: u8| k < 32 implies (has_bit(flags, k) <==> int_list@.contains(k)) by {
            lemma_bit_flags_membership(int_list@, k);
        }
    }
    flags
}

/// An accumulator of bit flags.
pub struct BitInt {
    data: u32,
}

impl BitInt {
    /// The mask accumulated so far.
    pub closed spec fn view(&self) -> u32 {
        self.data
    }

    /// An accumulator with no bit set.
    pub fn new() -> (b: BitInt)
        ensures
            b@ == 0,
    {
        BitInt { data: 0 }
    }

    /// Set bit `num`.
    pub fn push(&mut self, num: u8)
        requires
            num < 32,
        ensures
            final(self)@ == old(self)@ | (1u32 << num),
            forall|k: u8| k < 32 ==> (has_bit(final(self)@, k) <==> (has_bit(old(self)@, k) || k == num)),
    {
        proof {
            assert forall|k: u8| k < 32 implies (has_bit(self.data | (1u32 << num), k) <==> (
            has_bit(self.data, k) || k == num)) by {
                lemma_set_bit(self.data, num, k);
            }
        }
        self.data = self.data | (1u32 << num);
    }

    /// The accumulated mask.
    pub fn to_int(self) -> (r: u32)
        ensures
            r == self@,
    {
        self.data
    }
}

} // verus!
