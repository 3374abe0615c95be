//! In-place transformations over flat RGBA byte buffers.
//!
//! A buffer is a sequence of bytes read as consecutive 4-byte pixel groups
//! `(R, G, B, A)`. Two operations are offered: grayscale conversion, which
//! replaces the three color channels of every complete group with the pixel's
//! integer luma, and color inversion, which replaces each color channel `c`
//! with `255 - c`. The alpha byte of every group is left untouched, as is any
//! incomplete trailing group (a buffer length that is not a multiple of 4 is
//! not an error).

use vstd::prelude::*;

verus! {

/// Integer luma of one pixel: `floor(0.299 r + 0.587 g + 0.114 b)`,
/// computed exactly as `(299 r + 587 g + 114 b) / 1000`.
///
/// The weights sum to 1000, so the quotient never exceeds 255.
pub open spec fn luma(r: u8, g: u8, b: u8) -> u8 {
    ((299 * (r as int) + 587 * (g as int) + 114 * (b as int)) / 1000) as u8
}

/// Offset of the first byte (the red channel) of the 4-byte group that
/// byte `i` belongs to.
pub open spec fn group_start(i: int) -> int {
    4 * (i / 4)
}

/// Whether byte `i` lies in a complete 4-byte group of a buffer of length
/// `len`. Bytes of an incomplete trailing group are outside every complete
/// group and are never touched.
pub open spec fn in_complete_group(len: int, i: int) -> bool {
    group_start(i) + 4 <= len
}

/// The buffer after grayscale conversion: in every complete group the three
/// color bytes carry the group's luma, and every other byte (each alpha byte
/// and any trailing bytes) is unchanged.
#[verifier::opaque]
pub open spec fn grayscaled(s: Seq<u8>) -> Seq<u8> {
    Seq::new(
        s.len(),
        |i: int|
            if in_complete_group(s.len() as int, i) && i % 4 != 3 {
                luma(s[group_start(i)], s[group_start(i) + 1], s[group_start(i) + 2])
            } else {
                s[i]
            },
    )
}

/// The buffer after color inversion: in every complete group each color byte
/// `c` becomes `255 - c`, and every other byte is unchanged.
#[verifier::opaque]
pub open spec fn inverted(s: Seq<u8>) -> Seq<u8> {
    Seq::new(
        s.len(),
        |i: int|
            if in_complete_group(s.len() as int, i) && i % 4 != 3 {
                (255 - s[i]) as u8
            } else {
                s[i]
            },
    )
}

/// Division and remainder of the four bytes of the group that starts at
/// `4 * k`: they share the group start, and their offsets within the group
/// are 0 through 3.
proof fn lemma_group_arith(k: int)
    requires
        0 <= k,
    ensures
        (4 * k) / 4 == k,
        (4 * k + 1) / 4 == k,
        (4 * k + 2) / 4 == k,
        (4 * k + 3) / 4 == k,
        (4 * k) % 4 == 0,
        (4 * k + 1) % 4 == 1,
        (4 * k + 2) % 4 == 2,
        (4 * k + 3) % 4 == 3,
{
    assert((4 * k) / 4 == k && (4 * k) % 4 == 0) by (nonlinear_arith);
    assert((4 * k + 1) / 4 == k && (4 * k + 1) % 4 == 1) by (nonlinear_arith);
    assert((4 * k + 2) / 4 == k && (4 * k + 2) % 4 == 2) by (nonlinear_arith);
    assert((4 * k + 3) / 4 == k && (4 * k + 3) % 4 == 3) by (nonlinear_arith);
}

/// The four bytes of the complete group number `k` after grayscale
/// conversion: the three color bytes carry the group's luma and the alpha
/// byte is unchanged.
pub proof fn lemma_grayscale_pixel(s: Seq<u8>, k: int)
    requires
        0 <= k,
        4 * k + 4 <= s.len(),
    ensures
        grayscaled(s)[4 * k] == luma(s[4 * k], s[4 * k + 1], s[4 * k + 2]),
        grayscaled(s)[4 * k + 1] == grayscaled(s)[4 * k],
        grayscaled(s)[4 * k + 2] == grayscaled(s)[4 * k],
        grayscaled(s)[4 * k + 3] == s[4 * k + 3],
{
    reveal(grayscaled);
    lemma_group_arith(k);
}

/// The four bytes of the complete group number `k` after color inversion:
/// each color byte is replaced by its distance from 255 and the alpha byte
/// is unchanged.
pub proof fn lemma_invert_pixel(s: Seq<u8>, k: int)
    requires
        0 <= k,
        4 * k + 4 <= s.len(),
    ensures
        inverted(s)[4 * k] == (255 - s[4 * k]) as u8,
        inverted(s)[4 * k + 1] == (255 - s[4 * k + 1]) as u8,
        inverted(s)[4 * k + 2] == (255 - s[4 * k + 2]) as u8,
        inverted(s)[4 * k + 3] == s[4 * k + 3],
{
    reveal(inverted);
    lemma_group_arith(k);
}

/// A byte of an incomplete trailing group lies in no complete group, so both
/// operations leave it unchanged.
pub proof fn lemma_tail_unchanged(s: Seq<u8>, j: int)
    requires
        4 * (s.len() / 4) <= j < s.len(),
    ensures
        grayscaled(s)[j] == s[j],
        inverted(s)[j] == s[j],
{
    reveal(grayscaled);
    reveal(inverted);
    vstd::arithmetic::div_mod::lemma_fundamental_div_mod(s.len() as int, 4);
    vstd::arithmetic::div_mod::lemma_mod_bound(s.len() as int, 4);
    vstd::arithmetic::div_mod::lemma_fundamental_div_mod(j, 4);
    vstd::arithmetic::div_mod::lemma_mod_bound(j, 4);
}

/// Both operations keep the buffer's length.
pub proof fn lemma_len_unchanged(s: Seq<u8>)
    ensures
        grayscaled(s).len() == s.len(),
        inverted(s).len() == s.len(),
{
    reveal(grayscaled);
    reveal(inverted);
}

/// Computes the luma of one pixel from its three color bytes.
fn luma_byte(r: u8, g: u8, b: u8) -> (l: u8)
    ensures
        l == luma(r, g, b),
{
    let sum = 299 * (r as u32) + 587 * (g as u32) + 114 * (b as u32);
    proof {
        vstd::arithmetic::div_mod::lemma_div_is_ordered(sum as int, 255000, 1000);
    }
    (sum / 1000) as u8
}

/// Replaces, in place, the three color bytes of every complete 4-byte group
/// of `data` with the group's luma. Alpha bytes, and the bytes of an
/// incomplete trailing group, keep their values. The dimensions are
/// informational only: they neither validate the buffer length nor drive the
/// traversal.
pub fn convert_to_grayscale(data: &mut Vec<u8>, _width: u32, _height: u32)
    ensures
        final(data)@ == grayscaled(old(data)@),
{
    let ghost s0: Seq<u8> = data@;
    let len = data.len();
    let n = len / 4;
    proof {
        vstd::arithmetic::div_mod::lemma_fundamental_div_mod(len as int, 4);
        vstd::arithmetic::div_mod::lemma_mod_bound(len as int, 4);
    }
    let mut i: usize = 0;
    while i < n
        invariant
            i <= n,
            4 * n <= s0.len() <= usize::MAX,
            n == s0.len() / 4,
            data@.len() == s0.len(),
            forall|j: int| 0 <= j < 4 * i ==> data@[j] == grayscaled(s0)[j],
            forall|j: int| 4 * i <= j < s0.len() ==> data@[j] == s0[j],
        decreases n - i,
    {
        let p = 4 * i;
        let gray = luma_byte(data[p], data[p + 1], data[p + 2]);
        data.set(p, gray);
        data.set(p + 1, gray);
        data.set(p + 2, gray);
        proof {
            lemma_grayscale_pixel(s0, i as int);
        }
        i = i + 1;
    }
    proof {
        lemma_len_unchanged(s0);
        assert forall|j: int| 0 <= j < s0.len() implies data@[j] == grayscaled(s0)[j] by {
            if 4 * n <= j {
                lemma_tail_unchanged(s0, j);
            }
        };
        assert(data@ =~= grayscaled(s0));
    }
}

/// Replaces, in place, each of the three color bytes `c` of every complete
/// 4-byte group of `data` with `255 - c`. Alpha bytes, and the bytes of an
/// incomplete trailing group, keep their values. The dimensions are
/// informational only: they neither validate the buffer length nor drive the
/// traversal.
pub fn invert_colors(data: &mut Vec<u8>, _width: u32, _height: u32)
    ensures
        final(data)@ == inverted(old(data)@),
{
    let ghost s0: Seq<u8> = data@;
    let len = data.len();
    let n = len / 4;
    proof {
        vstd::arithmetic::div_mod::lemma_fundamental_div_mod(len as int, 4);
        vstd::arithmetic::div_mod::lemma_mod_bound(len as int, 4);
    }
    let mut i: usize = 0;
    while i < n
        invariant
            i <= n,
            4 * n <= s0.len() <= usize::MAX,
            n == s0.len() / 4,
            data@.len() == s0.len(),
            forall|j: int| 0 <= j < 4 * i ==> data@[j] == inverted(s0)[j],
            forall|j: int| 4 * i <= j < s0.len() ==> data@[j] == s0[j],
        decreases n - i,
    {
        let p = 4 * i;
        let r = data[p];
        let g = data[p + 1];
        let b = data[p + 2];
        data.set(p, 255 - r);
        data.set(p + 1, 255 - g);
        data.set(p + 2, 255 - b);
        proof {
            lemma_invert_pixel(s0, i as int);
        }
        i = i + 1;
    }
    proof {
        lemma_len_unchanged(s0);
        assert forall|j: int| 0 <= j < s0.len() implies data@[j] == inverted(s0)[j] by {
            if 4 * n <= j {
                lemma_tail_unchanged(s0, j);
            }
        };
        assert(data@ =~= inverted(s0));
    }
}

/// Alpha is never touched: every fourth byte of the buffer is unchanged by
/// either operation.
pub proof fn lemma_alpha_unchanged(s: Seq<u8>, i: int)
    requires
        0 <= i < s.len(),
        i % 4 == 3,
    ensures
        grayscaled(s)[i] == s[i],
        inverted(s)[i] == s[i],
{
    reveal(grayscaled);
    reveal(inverted);
}

/// A pixel whose three color bytes are equal is a fixed point of the luma,
/// because the three weights sum exactly to 1000.
pub proof fn lemma_luma_fixed(v: u8)
    ensures
        luma(v, v, v) == v,
{
    assert(299 * (v as int) + 587 * (v as int) + 114 * (v as int) == 1000 * (v as int));
    assert(1000 * (v as int) / 1000 == v as int) by (nonlinear_arith);
}

/// Grayscale conversion is idempotent: a second pass reproduces the first,
/// because the first pass leaves the three color bytes of every complete
/// group equal, and a pixel with equal color bytes is a fixed point of the
/// luma.
pub proof fn lemma_grayscale_idempotent(s: Seq<u8>)
    ensures
        grayscaled(grayscaled(s)) == grayscaled(s),
{
    let t = grayscaled(s);
    lemma_len_unchanged(s);
    lemma_len_unchanged(t);
    vstd::arithmetic::div_mod::lemma_fundamental_div_mod(s.len() as int, 4);
    vstd::arithmetic::div_mod::lemma_mod_bound(s.len() as int, 4);
    let n = s.len() as int / 4;
    assert forall|j: int| 0 <= j < t.len() implies grayscaled(t)[j] == t[j] by {
        if j < 4 * n {
            let k = j / 4;
            vstd::arithmetic::div_mod::lemma_fundamental_div_mod(j, 4);
            vstd::arithmetic::div_mod::lemma_mod_bound(j, 4);
            lemma_grayscale_pixel(s, k);
            lemma_grayscale_pixel(t, k);
            lemma_luma_fixed(t[4 * k]);
        } else {
            lemma_tail_unchanged(t, j);
        }
    };
    assert(grayscaled(t) =~= t);
}

/// Color inversion is an involution: a second pass restores every byte of
/// the buffer, because `255 - (255 - c) == c` for every color byte `c` and
/// no other byte is touched.
pub proof fn lemma_invert_involution(s: Seq<u8>)
    ensures
        inverted(inverted(s)) == s,
{
    let t = inverted(s);
    lemma_len_unchanged(s);
    lemma_len_unchanged(t);
    vstd::arithmetic::div_mod::lemma_fundamental_div_mod(s.len() as int, 4);
    vstd::arithmetic::div_mod::lemma_mod_bound(s.len() as int, 4);
    let n = s.len() as int / 4;
    assert forall|j: int| 0 <= j < s.len() implies inverted(t)[j] == s[j] by {
        if j < 4 * n {
            let k = j / 4;
            vstd::arithmetic::div_mod::lemma_fundamental_div_mod(j, 4);
            vstd::arithmetic::div_mod::lemma_mod_bound(j, 4);
            lemma_invert_pixel(s, k);
            lemma_invert_pixel(t, k);
        } else {
            lemma_tail_unchanged(s, j);
            lemma_tail_unchanged(t, j);
        }
    };
    assert(inverted(t) =~= s);
}

} // verus!

