//! The output layout: every chapter is persisted under a directory named
//! `chapter_<number>`, and every image inside it as `img_<index>.jpg`, with
//! the zero-based extraction-order index and no zero padding.

use vstd::prelude::*;

verus! {

/// The decimal digits of `n`, most significant first, without leading
/// zeros (the single digit `0` for zero).
pub open spec fn spec_decimal(n: nat) -> Seq<u8>
    decreases n,
{
    if n < 10 {
        seq![(48 + n) as u8]
    } else {
        spec_decimal(n / 10).push((48 + n % 10) as u8)
    }
}

/// Write `n` in decimal.
pub fn decimal_bytes(n: usize) -> (r: Vec<u8>)
    ensures
        r@ == spec_decimal(n as nat),
    decreases n,
{
    if n < 10 {
        let mut r: Vec<u8> = Vec::new();
        r.push(48 + (n as u8));
        proof {
            assert(r@ =~= spec_decimal(n as nat));
        }
        r
    } else {
        let mut r = decimal_bytes(n / 10);
        r.push(48 + ((n % 10) as u8));
        r
    }
}

/// The bytes of `chapter_`.
pub open spec fn chapter_prefix() -> Seq<u8> {
    seq![99u8, 104u8, 97u8, 112u8, 116u8, 101u8, 114u8, 95u8]
}

/// The bytes of `img_`.
pub open spec fn image_prefix() -> Seq<u8> {
    seq![105u8, 109u8, 103u8, 95u8]
}

/// The bytes of `.jpg`.
pub open spec fn image_suffix() -> Seq<u8> {
    seq![46u8, 106u8, 112u8, 103u8]
}

/// The directory name of chapter `n` under the run's root:
/// `chapter_<n>`.
pub fn chapter_dir_name(n: usize) -> (r: Vec<u8>)
    ensures
        r@ == chapter_prefix() + spec_decimal(n as nat),
{
    let mut r: Vec<u8> = Vec::new();
    r.push(99);
    r.push(104);
    r.push(97);
    r.push(112);
    r.push(116);
    r.push(101);
    r.push(114);
    r.push(95);
    proof {
        assert(r@ =~= chapter_prefix());
    }
    let digits = decimal_bytes(n);
    crate::bytes::append_bytes(&mut r, digits.as_slice());
    r
}

/// The file name of the image at ordinal index `i` inside its chapter
/// directory: `img_<i>.jpg`.
pub fn image_file_name(i: usize) -> (r: Vec<u8>)
    ensures
        r@ == image_prefix() + spec_decimal(i as nat) + image_suffix(),
{
    let mut r: Vec<u8> = Vec::new();
    r.push(105);
    r.push(109);
    r.push(103);
    r.push(95);
    proof {
        assert(r@ =~= image_prefix());
    }
    let digits = decimal_bytes(i);
    crate::bytes::append_bytes(&mut r, digits.as_slice());
    r.push(46);
    r.push(106);
    r.push(112);
    r.push(103);
    proof {
        assert(r@ =~= image_prefix() + spec_decimal(i as nat) + image_suffix());
    }
    r
}

} // verus!
