//! Where the data of an entry starts, and the padding that moves it onto a
//! boundary.

use vstd::prelude::*;

verus! {

/// Bytes that the header of a padding field takes: a two-byte tag and a
/// two-byte length.
pub open spec fn padding_header() -> nat {
    4
}

/// `offset` lies on a multiple of `align`. A boundary of 0 or 1 holds every
/// offset.
pub open spec fn is_aligned(offset: nat, align: u16) -> bool {
    align <= 1 || offset as int % align as int == 0
}

/// Bytes of filler that a padding field carries so that data which would
/// start at `unpadded` starts on a multiple of `align` once the field and its
/// header stand before it.
pub open spec fn filler_len(unpadded: nat, align: u16) -> nat {
    let a = align as int;
    let unaligned = (unpadded + padding_header()) as int;
    ((a - unaligned % a) % a) as nat
}

/// Total length of what is put before the data of an entry to align it:
/// nothing where the data is aligned already, else a padding field.
pub open spec fn padding_len(unpadded: nat, align: u16) -> nat {
    if align > 1 && unpadded as int % align as int != 0 {
        padding_header() + filler_len(unpadded, align)
    } else {
        0
    }
}

/// Padded data is aligned: with the padding before it, the data starts on a
/// multiple of the boundary.
pub proof fn lemma_padding_aligns(unpadded: nat, align: u16)
    ensures
        is_aligned(unpadded + padding_len(unpadded, align), align),
{
    if align > 1 && unpadded as int % align as int != 0 {
        let a = align as int;
        let x = (unpadded + padding_header()) as int;
        let r = x % a;
        let p = (a - r) % a;
        assert(p == filler_len(unpadded, align));
        assert((x + p) % a == 0) by (nonlinear_arith)
            requires
                a > 1,
                r == x % a,
                p == (a - r) % a,
        ;
        assert(unpadded + padding_len(unpadded, align) == x + p);
    }
}

} // verus!
