//! The image-diff engine.
//!
//! Two same-shaped renderings are compared pixel by pixel: a changed pixel
//! becomes pure white and opaque; an unchanged pixel that the baseline
//! painted keeps the baseline color darkened by a rational coefficient; an
//! unchanged pixel the baseline left transparent stays transparent.  The
//! rule is keyed off the baseline's transparency alone, on purpose.

use vstd::prelude::*;
use crate::room::{lemma_base_decomp, lemma_byte_decomp, pix_base, spec_set_pixel, Image};
use crate::tile::Color;

verus! {

/// A channel darkened by the coefficient `num / den`, truncated toward
/// zero.
pub open spec fn spec_dark(c: u8, num: u32, den: u32) -> u8 {
    ((c * num) / (den as int)) as u8
}

/// Byte `i` of the diff of the first `n` pixels: white where the sources'
/// RGB triples differ, the darkened baseline where they agree and the
/// baseline is opaque, untouched zero where the baseline is transparent,
/// and zero beyond the first `n` pixels.
pub open spec fn spec_diff_byte(
    p1: Seq<u8>,
    p2: Seq<u8>,
    num: u32,
    den: u32,
    n: int,
    i: int,
) -> u8 {
    let b = 4 * (i / 4);
    if i / 4 < n {
        if p1[b] != p2[b] || p1[b + 1] != p2[b + 1] || p1[b + 2] != p2[b + 2] {
            255u8
        } else if p1[b + 3] != 0 {
            if i % 4 == 3 {
                255u8
            } else {
                spec_dark(p1[i], num, den)
            }
        } else {
            0u8
        }
    } else {
        0u8
    }
}

/// The diff buffer after the first `n` pixels.
pub open spec fn spec_diff_upto(p1: Seq<u8>, p2: Seq<u8>, num: u32, den: u32, n: int) -> Seq<u8> {
    Seq::new(p1.len(), |i: int| spec_diff_byte(p1, p2, num, den, n, i))
}

/// The complete diff of two equally long pixel buffers.
pub open spec fn spec_diff_pixels(p1: Seq<u8>, p2: Seq<u8>, num: u32, den: u32) -> Seq<u8> {
    spec_diff_upto(p1, p2, num, den, p1.len() as int / 4)
}

/// Darken one channel by `num / den`.
fn dark(c: u8, num: u32, den: u32) -> (r: u8)
    requires
        0 < den,
        num <= den,
    ensures
        r == spec_dark(c, num, den),
{
    proof {
        assert((c as int) * (num as int) / (den as int) <= 255) by (nonlinear_arith)
            requires
                0 < den,
                num <= den,
                0 <= c <= 255,
                0 <= num,
        ;
        assert((c as int) * (num as int) <= 255 * 0xFFFF_FFFF) by (nonlinear_arith)
            requires
                0 <= c <= 255,
                0 <= num <= 0xFFFF_FFFF,
        ;
    }
    let v = (c as u64) * (num as u64) / (den as u64);
    v as u8
}

/// Diff two same-shaped images.
///
/// The result is as wide and tall as the inputs; each of its pixels is
/// either the white difference marker, the darkened opaque baseline pixel,
/// or untouched-transparent, as `spec_diff_pixels` states.
pub fn diff_image(img1: &Image, img2: &Image, num: u32, den: u32) -> (img: Image)
    requires
        img1.wf(),
        img2.wf(),
        img1.width == img2.width,
        img1.height == img2.height,
        0 < den,
        num <= den,
    ensures
        img.wf(),
        img.width == img1.width,
        img.height == img1.height,
        img.pixels@ == spec_diff_pixels(img1.pixels@, img2.pixels@, num, den),
{
    let ghost p1 = img1.pixels@;
    let ghost p2 = img2.pixels@;
    let ghost w = img1.width as int;
    let ghost h = img1.height as int;
    // Reading the buffer length puts its usize bound in scope for the
    // allocation below.
    let _buffer_len = img1.pixels.len();
    let mut img = Image::new(img1.width, img1.height);
    proof {
        assert(img.pixels@ =~= spec_diff_upto(p1, p2, num, den, 0));
    }
    let mut y: usize = 0;
    while y < img1.height
        invariant
            y <= img1.height,
            img1.wf(),
            img2.wf(),
            img1.width == img2.width,
            img1.height == img2.height,
            0 < den,
            num <= den,
            p1 == img1.pixels@,
            p2 == img2.pixels@,
            w == img1.width as int,
            h == img1.height as int,
            img.wf(),
            img.width == img1.width,
            img.height == img1.height,
            img.pixels@ == spec_diff_upto(p1, p2, num, den, y * w),
        decreases img1.height - y,
    {
        let mut x: usize = 0;
        while x < img1.width
            invariant
                x <= img1.width,
                y < img1.height,
                img1.wf(),
                img2.wf(),
                img1.width == img2.width,
                img1.height == img2.height,
                0 < den,
                num <= den,
                p1 == img1.pixels@,
                p2 == img2.pixels@,
                w == img1.width as int,
                h == img1.height as int,
                img.wf(),
                img.width == img1.width,
                img.height == img1.height,
                img.pixels@ == spec_diff_upto(p1, p2, num, den, y * w + x),
            decreases img1.width - x,
        {
            let ghost n = y * w + x;
            let ghost pn = img.pixels@;
            let c1 = img1.get_pixel(x, y);
            let c2 = img2.get_pixel(x, y);
            if c1 != c2 {
                img.set_pixel(x, y, Color { r: 255, g: 255, b: 255 });
            } else if !img1.get_transparent(x, y) {
                let c = Color {
                    r: dark(c1.r, num, den),
                    g: dark(c1.g, num, den),
                    b: dark(c1.b, num, den),
                };
                img.set_pixel(x, y, c);
            }
            proof {
                lemma_diff_step(p1, p2, num, den, w, h, x as int, y as int, pn, img.pixels@);
            }
            x = x + 1;
        }
        proof {
            assert((y as int + 1) * w == y as int * w + w) by (nonlinear_arith);
        }
        y = y + 1;
    }
    proof {
        assert(p1.len() as int / 4 == w * h) by (nonlinear_arith)
            requires
                p1.len() == w * h * 4,
        ;
        assert(h * w == w * h) by (nonlinear_arith);
        assert(img.pixels@ == spec_diff_upto(p1, p2, num, den, h * w));
        assert(img.pixels@ =~= spec_diff_pixels(p1, p2, num, den));
    }
    img
}

/// One pixel of the diff advances the pointwise diff specification by one.
proof fn lemma_diff_step(
    p1: Seq<u8>,
    p2: Seq<u8>,
    num: u32,
    den: u32,
    w: int,
    h: int,
    x: int,
    y: int,
    pn: Seq<u8>,
    after: Seq<u8>,
)
    requires
        0 <= x < w,
        0 <= y < h,
        p1.len() == w * h * 4,
        p2.len() == p1.len(),
        pn == spec_diff_upto(p1, p2, num, den, y * w + x),
        ({
            let b = pix_base(w, x, y);
            if p1[b] != p2[b] || p1[b + 1] != p2[b + 1] || p1[b + 2] != p2[b + 2] {
                after == spec_set_pixel(pn, w, x, y, Color { r: 255, g: 255, b: 255 })
            } else if p1[b + 3] != 0 {
                after == spec_set_pixel(
                    pn,
                    w,
                    x,
                    y,
                    Color {
                        r: spec_dark(p1[b], num, den),
                        g: spec_dark(p1[b + 1], num, den),
                        b: spec_dark(p1[b + 2], num, den),
                    },
                )
            } else {
                after == pn
            }
        }),
    ensures
        after == spec_diff_upto(p1, p2, num, den, y * w + x + 1),
{
    let n = y * w + x;
    let target = spec_diff_upto(p1, p2, num, den, n + 1);
    assert(after.len() == p1.len());
    assert forall|i: int| 0 <= i < p1.len() implies after[i] == target[i] by {
        lemma_byte_decomp(w, h, i);
        let px = (i / 4) % w;
        let py = (i / 4) / w;
        let k = i % 4;
        lemma_base_decomp(w, h, x, y, k);
        if px == x && py == y {
            assert(i == pix_base(w, x, y) + k);
            assert(i / 4 == y * w + x);
            assert(4 * (i / 4) == pix_base(w, x, y));
        } else {
            assert(i / 4 != y * w + x) by {
                if i / 4 == y * w + x {
                    lemma_base_decomp(w, h, x, y, 0);
                }
            }
            assert(!(pix_base(w, x, y) <= i < pix_base(w, x, y) + 4)) by {
                if pix_base(w, x, y) <= i < pix_base(w, x, y) + 4 {
                    lemma_base_decomp(w, h, x, y, i - pix_base(w, x, y));
                }
            }
        }
    }
    assert(after =~= target);
}

/// Whether two image lists can be diffed pairwise: each facing pair is
/// well-formed with equal dimensions.
pub open spec fn spec_pairs_diffable(a: Seq<Image>, b: Seq<Image>) -> bool {
    forall|i: int|
        0 <= i < a.len() && i < b.len() ==> (#[trigger] a[i]).wf() && (#[trigger] b[i]).wf()
            && a[i].width == b[i].width && a[i].height == b[i].height
}

/// Diff two lists of images pairwise; extra images of the longer list are
/// dropped.
pub fn diff_image_list(img1: &[Image], img2: &[Image], num: u32, den: u32) -> (r: Vec<Image>)
    requires
        0 < den,
        num <= den,
        spec_pairs_diffable(img1@, img2@),
    ensures
        r@.len() == if img1@.len() <= img2@.len() {
            img1@.len()
        } else {
            img2@.len()
        },
        forall|i: int|
            0 <= i < r@.len() ==> (#[trigger] r@[i]).wf() && r@[i].width == img1@[i].width
                && r@[i].height == img1@[i].height && r@[i].pixels@ == spec_diff_pixels(
                img1@[i].pixels@,
                img2@[i].pixels@,
                num,
                den,
            ),
{
    let n = if img1.len() <= img2.len() {
        img1.len()
    } else {
        img2.len()
    };
    let mut out: Vec<Image> = Vec::new();
    let mut i: usize = 0;
    while i < n
        invariant
            i <= n,
            n == if img1@.len() <= img2@.len() {
                img1@.len()
            } else {
                img2@.len()
            },
            0 < den,
            num <= den,
            spec_pairs_diffable(img1@, img2@),
            out@.len() == i,
            forall|j: int|
                0 <= j < i ==> (#[trigger] out@[j]).wf() && out@[j].width == img1@[j].width
                    && out@[j].height == img1@[j].height && out@[j].pixels@ == spec_diff_pixels(
                    img1@[j].pixels@,
                    img2@[j].pixels@,
                    num,
                    den,
                ),
        decreases n - i,
    {
        let d = diff_image(&img1[i], &img2[i], num, den);
        out.push(d);
        i = i + 1;
    }
    out
}

/// Diffing an image against itself never yields the white difference
/// marker: every pixel is either the darkened baseline pixel, fully opaque,
/// or untouched-transparent where the baseline was transparent.
pub proof fn lemma_diff_identical(p: Seq<u8>, num: u32, den: u32)
    ensures
        forall|i: int|
            0 <= i < p.len() ==> #[trigger] spec_diff_pixels(p, p, num, den)[i] == (if i / 4
                < p.len() as int / 4 {
                if p[4 * (i / 4) + 3] != 0 {
                    if i % 4 == 3 {
                        255u8
                    } else {
                        spec_dark(p[i], num, den)
                    }
                } else {
                    0u8
                }
            } else {
                0u8
            }),
{
}

} // verus!
