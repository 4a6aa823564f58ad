use vstd::prelude::*;

verus! {

/// Pixel `p` of `rgba` renders the reversed triplet at pixel `p` of `bgr`,
/// with an opaque alpha byte appended.
pub open spec fn rgba_pixel_of_bgr(bgr: Seq<u8>, rgba: Seq<u8>, p: int) -> bool {
    &&& rgba[4 * p] == bgr[3 * p + 2]
    &&& rgba[4 * p + 1] == bgr[3 * p + 1]
    &&& rgba[4 * p + 2] == bgr[3 * p]
    &&& rgba[4 * p + 3] == 255u8
}

/// `rgba` is the display-native RGBA rendering of the 3-channel buffer
/// `bgr` whose triplets arrive in reversed channel order.
pub open spec fn is_rgba_of_bgr(bgr: Seq<u8>, rgba: Seq<u8>) -> bool {
    &&& rgba.len() == 4 * (bgr.len() / 3)
    &&& forall|p: int| 0 <= p < bgr.len() / 3 ==> #[trigger] rgba_pixel_of_bgr(bgr, rgba, p)
}

/// Normalizes a decoded 3-channel buffer with reversed triplets to the
/// canonical RGBA layout, appending a fixed opaque alpha value.
pub fn convert_bgr_to_rgba(bgr_data: &Vec<u8>) -> (rgba: Vec<u8>)
    ensures
        is_rgba_of_bgr(bgr_data@, rgba@),
{
    let n: usize = bgr_data.len();
    let pixel_count: usize = n / 3;
    let mut rgba_data: Vec<u8> = Vec::new();
    let mut p: usize = 0;
    while p < pixel_count
        invariant
            n == bgr_data@.len(),
            pixel_count == n / 3,
            p <= pixel_count,
            rgba_data@.len() == 4 * p,
            forall|q: int| 0 <= q < p ==> #[trigger] rgba_pixel_of_bgr(bgr_data@, rgba_data@, q),
        decreases pixel_count - p,
    {
        proof {
            assert(3 * ((n as int) / 3) <= n);
            assert(3 * (p as int) + 2 < n);
        }
        let base: usize = 3 * p;
        let ghost prev = rgba_data@;
        rgba_data.push(bgr_data[base + 2]);
        rgba_data.push(bgr_data[base + 1]);
        rgba_data.push(bgr_data[base]);
        rgba_data.push(255);
        proof {
            assert forall|q: int| 0 <= q < p + 1 implies #[trigger] rgba_pixel_of_bgr(
                bgr_data@,
                rgba_data@,
                q,
            ) by {
                if q < p {
                    assert(rgba_pixel_of_bgr(bgr_data@, prev, q));
                    assert(4 * q + 3 < prev.len());
                }
            }
        }
        p = p + 1;
    }
    rgba_data
}

/// The four channels of output pixel (`ox`, `oy`) of a quarter-turn
/// rotation equal those of input pixel (`w - 1 - oy`, `ox`).
pub open spec fn rotated_pixel(src: Seq<u8>, w: int, h: int, dst: Seq<u8>, ox: int, oy: int) -> bool {
    let di = 4 * (oy * h + ox);
    let si = 4 * (ox * w + (w - 1 - oy));
    &&& dst[di] == src[si]
    &&& dst[di + 1] == src[si + 1]
    &&& dst[di + 2] == src[si + 2]
    &&& dst[di + 3] == src[si + 3]
}

/// `dst` is the RGBA row-major buffer `src` of `w` x `h` pixels rotated
/// 270 degrees clockwise; the output is `h` x `w`, so width and height
/// swap.
pub open spec fn is_rotate270_of(src: Seq<u8>, w: int, h: int, dst: Seq<u8>) -> bool {
    &&& src.len() == 4 * w * h
    &&& dst.len() == 4 * w * h
    &&& forall|ox: int, oy: int|
        0 <= ox < h && 0 <= oy < w ==> #[trigger] rotated_pixel(src, w, h, dst, ox, oy)
}

/// Rotates an RGBA buffer 270 degrees clockwise, one entry of the fixed
/// table of right-angle orientation corrections. The output buffer is
/// `h` pixels wide and `w` pixels high.
pub fn rotate270_rgba(src: &Vec<u8>, w: usize, h: usize) -> (dst: Vec<u8>)
    requires
        src@.len() == 4 * w * h,
    ensures
        is_rotate270_of(src@, w as int, h as int, dst@),
{
    let n: usize = src.len();
    let mut dst: Vec<u8> = Vec::new();
    let mut oy: usize = 0;
    while oy < w
        invariant
            n == src@.len(),
            n == 4 * w * h,
            oy <= w,
            dst@.len() == 4 * ((oy as int) * (h as int)),
            forall|x: int, y: int|
                0 <= x < h && 0 <= y < oy ==> #[trigger] rotated_pixel(
                    src@,
                    w as int,
                    h as int,
                    dst@,
                    x,
                    y,
                ),
        decreases w - oy,
    {
        let mut ox: usize = 0;
        while ox < h
            invariant
                n == src@.len(),
                n == 4 * w * h,
                oy < w,
                ox <= h,
                dst@.len() == 4 * ((oy as int) * (h as int) + (ox as int)),
                forall|x: int, y: int|
                    0 <= x < h && 0 <= y < oy ==> #[trigger] rotated_pixel(
                        src@,
                        w as int,
                        h as int,
                        dst@,
                        x,
                        y,
                    ),
                forall|x: int|
                    0 <= x < ox ==> #[trigger] rotated_pixel(
                        src@,
                        w as int,
                        h as int,
                        dst@,
                        x,
                        oy as int,
                    ),
            decreases h - ox,
        {
            proof {
                assert((ox as int) * (w as int) + (w - 1 - oy) < (w as int) * (h as int)
                    && 4 * ((ox as int) * (w as int) + (w - 1 - oy)) + 3 < n
                    && (w as int) * (h as int) <= n) by (nonlinear_arith)
                    requires
                        0 <= ox < h,
                        0 <= oy < w,
                        n == 4 * (w as int) * (h as int),
                ;
            }
            let t: usize = ox * w + (w - 1 - oy);
            let si: usize = 4 * t;
            let ghost prev = dst@;
            dst.push(src[si]);
            dst.push(src[si + 1]);
            dst.push(src[si + 2]);
            dst.push(src[si + 3]);
            proof {
                let wi = w as int;
                let hi = h as int;
                assert forall|x: int, y: int|
                    0 <= x < hi && 0 <= y < oy implies #[trigger] rotated_pixel(
                    src@,
                    wi,
                    hi,
                    dst@,
                    x,
                    y,
                ) by {
                    assert(rotated_pixel(src@, wi, hi, prev, x, y));
                    assert(4 * (y * hi + x) + 3 < prev.len()) by (nonlinear_arith)
                        requires
                            0 <= x < hi,
                            0 <= y < oy,
                            prev.len() == 4 * ((oy as int) * hi + (ox as int)),
                            0 <= ox,
                    ;
                }
                assert forall|x: int| 0 <= x < ox + 1 implies #[trigger] rotated_pixel(
                    src@,
                    wi,
                    hi,
                    dst@,
                    x,
                    oy as int,
                ) by {
                    if x < ox {
                        assert(rotated_pixel(src@, wi, hi, prev, x, oy as int));
                        assert(4 * ((oy as int) * hi + x) + 3 < prev.len());
                    } else {
                        assert(4 * ((oy as int) * hi + x) == prev.len());
                    }
                }
            }
            ox = ox + 1;
        }
        oy = oy + 1;
        proof {
            assert((oy as int) * (h as int) == ((oy - 1) as int) * (h as int) + (h as int))
                by (nonlinear_arith)
            ;
        }
    }
    proof {
        assert(dst@.len() == 4 * (w as int) * (h as int)) by (nonlinear_arith)
            requires
                dst@.len() == 4 * ((w as int) * (h as int)),
        ;
    }
    dst
}

} // verus!
