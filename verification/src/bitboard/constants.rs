//! Named masks.

use vstd::prelude::*;
use crate::bits::bit;

verus! {

/// The a-file.
pub const A_FILE: u64 = 0x01_01_01_01_01_01_01_01;

/// The h-file.
pub const H_FILE: u64 = 0x80_80_80_80_80_80_80_80;

/// The two named files hold the squares of file 0 and of file 7.
pub proof fn lemma_files()
    ensures
        forall|i: int| 0 <= i < 64 ==> (#[trigger] bit(A_FILE, i) <==> i % 8 == 0),
        forall|i: int| 0 <= i < 64 ==> (#[trigger] bit(H_FILE, i) <==> i % 8 == 7),
{
    assert forall|i: int| 0 <= i < 64 implies (#[trigger] bit(A_FILE, i) <==> i % 8 == 0) by {
        let k = i as u64;
        assert(k < 64 ==> ((0x01_01_01_01_01_01_01_01u64 >> k) & 1u64 == 1u64 <==> k % 8 == 0))
            by (bit_vector);
    }
    assert forall|i: int| 0 <= i < 64 implies (#[trigger] bit(H_FILE, i) <==> i % 8 == 7) by {
        let k = i as u64;
        assert(k < 64 ==> ((0x80_80_80_80_80_80_80_80u64 >> k) & 1u64 == 1u64 <==> k % 8 == 7))
            by (bit_vector);
    }
}

} // verus!
