use vstd::prelude::*;

use crate::image::{ImageView, RGBAImage};

verus! {

/// A point on the pixel grid.
#[derive(Clone, Copy, PartialEq, Eq, Structural, Debug)]
pub struct GridPoint {
    pub x: usize,
    pub y: usize,
}

/// A quadrilateral with corners on the pixel grid, in the order the warp
/// expects: `a` bottom-left, `b` top-left, `c` top-right, `d` bottom-right.
#[derive(Clone, Copy, PartialEq, Eq, Structural, Debug)]
pub struct PixelQuad {
    pub a: GridPoint,
    pub b: GridPoint,
    pub c: GridPoint,
    pub d: GridPoint,
}

/// The output rectangle of a `width` by `height` warp, upright: the source
/// quad's bottom-left corner lands on the output's bottom-left corner.
pub open spec fn upright_rectangle(width: usize, height: usize) -> PixelQuad {
    PixelQuad { a: GridPoint { x: 0, y: height }, b: GridPoint { x: 0, y: 0 }, c: GridPoint { x: width, y: 0 }, d: GridPoint { x: width, y: height } }
}

/// The same rectangle turned by a quarter: the source quad's bottom-left
/// corner lands on the output's top-left corner.
pub open spec fn turned_rectangle(width: usize, height: usize) -> PixelQuad {
    PixelQuad { a: GridPoint { x: 0, y: 0 }, b: GridPoint { x: width, y: 0 }, c: GridPoint { x: width, y: height }, d: GridPoint { x: 0, y: height } }
}

/// The rectangle onto which the source quad is mapped. When the quad and the
/// output agree in orientation (both portrait, or both not), it is the
/// upright rectangle; otherwise the rectangle turned by a quarter, so that
/// the document is not squeezed across.
pub fn target_rectangle(quad_is_portrait: bool, width: usize, height: usize) -> (r: PixelQuad)
    ensures
        r == (if quad_is_portrait == (height > width) {
            upright_rectangle(width, height)
        } else {
            turned_rectangle(width, height)
        }),
        quad_is_portrait == (height > width) ==> {
            &&& r.a == (GridPoint { x: 0, y: height })
            &&& r.b == (GridPoint { x: 0, y: 0 })
            &&& r.c == (GridPoint { x: width, y: 0 })
            &&& r.d == (GridPoint { x: width, y: height })
        },
        quad_is_portrait != (height > width) ==> {
            &&& r.a == (GridPoint { x: 0, y: 0 })
            &&& r.b == (GridPoint { x: width, y: 0 })
            &&& r.c == (GridPoint { x: width, y: height })
            &&& r.d == (GridPoint { x: 0, y: height })
        },
{
    let target_is_portrait = height > width;
    if quad_is_portrait == target_is_portrait {
        PixelQuad { a: GridPoint { x: 0, y: height }, b: GridPoint { x: 0, y: 0 }, c: GridPoint { x: width, y: 0 }, d: GridPoint { x: width, y: height } }
    } else {
        PixelQuad { a: GridPoint { x: 0, y: 0 }, b: GridPoint { x: width, y: 0 }, c: GridPoint { x: width, y: height }, d: GridPoint { x: 0, y: height } }
    }
}

/// The upright target keeps the document's orientation: its top-left corner
/// `b` is the output's origin, its top-right corner `c` lies at the right end
/// of the top edge, and its bottom corners `a` and `d` lie on the bottom edge
/// below them. The turned target sends the document's top-left corner to the
/// output's top-right corner and its bottom-left corner to the origin.
pub proof fn lemma_target_corners(width: usize, height: usize)
    ensures
        upright_rectangle(width, height).a == (GridPoint { x: 0, y: height }),
        upright_rectangle(width, height).b == (GridPoint { x: 0, y: 0 }),
        upright_rectangle(width, height).c == (GridPoint { x: width, y: 0 }),
        upright_rectangle(width, height).d == (GridPoint { x: width, y: height }),
        turned_rectangle(width, height).a == (GridPoint { x: 0, y: 0 }),
        turned_rectangle(width, height).b == (GridPoint { x: width, y: 0 }),
        turned_rectangle(width, height).c == (GridPoint { x: width, y: height }),
        turned_rectangle(width, height).d == (GridPoint { x: 0, y: height }),
{
}

/// The turned rectangle is the upright one with every corner moved one step
/// round: the turn is a quarter rotation of the output, not a reflection.
pub proof fn lemma_turned_is_quarter_rotation(width: usize, height: usize)
    ensures
        turned_rectangle(width, height).a == upright_rectangle(width, height).b,
        turned_rectangle(width, height).b == upright_rectangle(width, height).c,
        turned_rectangle(width, height).c == upright_rectangle(width, height).d,
        turned_rectangle(width, height).d == upright_rectangle(width, height).a,
{
}

/// The four source bytes around a sample point, for one channel.
#[derive(Clone, Copy, PartialEq, Eq, Structural, Debug)]
pub struct Neighborhood {
    pub top_left: u8,
    pub top_right: u8,
    pub bottom_left: u8,
    pub bottom_right: u8,
}

/// A sample point `(x, y)` (its coordinates rounded down) can be blended
/// when the pixel to its right and the pixel below it lie in the source.
pub open spec fn lands_inside(src: ImageView, x: int, y: int) -> bool {
    x + 1 < src.width && y + 1 < src.height
}

/// Channel `c` of the source pixel at `(x, y)` and of its right, lower and
/// lower-right neighbours.
pub open spec fn neighborhood(src: ImageView, x: int, y: int, c: int) -> Neighborhood {
    let p = y * src.width + x;
    Neighborhood {
        top_left: src.channel(p, c),
        top_right: src.channel(p + 1, c),
        bottom_left: src.channel(p + src.width, c),
        bottom_right: src.channel(p + src.width + 1, c),
    }
}

/// Stepping from a sample point to its right neighbour, and, when that one
/// lies in the source, to its lower neighbour, stays within `usize`.
pub open spec fn no_step_overflow(src: ImageView, sample: (usize, usize)) -> bool {
    &&& sample.0 < usize::MAX
    &&& sample.0 + 1 < src.width ==> sample.1 < usize::MAX
}

/// Pixel `p` of the output, given where it samples the source and the
/// blending it is handed: opaque, and either the blend of the source around
/// its sample point or white when that point falls outside the source.
pub open spec fn warped_pixel<B: Fn(usize, Neighborhood) -> u8>(
    src: ImageView,
    sample: (usize, usize),
    blend: B,
    out: ImageView,
    p: int,
) -> bool {
    &&& out.channel(p, 3) == 255
    &&& forall|c: int|
        0 <= c < 3 ==> if lands_inside(src, sample.0 as int, sample.1 as int) {
            call_ensures(
                blend,
                (p as usize, neighborhood(src, sample.0 as int, sample.1 as int, c)),
                #[trigger] out.channel(p, c),
            )
        } else {
            out.channel(p, c) == 255
        }
}

/// Whether a sample point is blended depends on the source's own width and
/// height: it needs a right neighbour within the width and a lower neighbour
/// within the height.
pub proof fn lemma_lands_inside_bounds(src: ImageView, x: int, y: int)
    ensures
        lands_inside(src, x, y) <==> (x + 1 < src.width && y + 1 < src.height),
{
}

/// The four bytes blended for sample point `(x, y)` and channel `c` are the
/// source pixels `(x, y)`, `(x + 1, y)`, `(x, y + 1)` and `(x + 1, y + 1)`,
/// the pixels laid out row by row with rows `src.width` pixels long.
pub proof fn lemma_window_bytes(src: ImageView, x: int, y: int, c: int)
    ensures
        neighborhood(src, x, y, c).top_left == src.data[4 * (y * src.width + x) + c],
        neighborhood(src, x, y, c).top_right == src.data[4 * (y * src.width + x + 1) + c],
        neighborhood(src, x, y, c).bottom_left == src.data[4 * ((y + 1) * src.width + x) + c],
        neighborhood(src, x, y, c).bottom_right == src.data[4 * ((y + 1) * src.width + x + 1)
            + c],
{
    let w = src.width as int;
    assert((y + 1) * w == y * w + w) by (nonlinear_arith);
}

proof fn lemma_neighborhood_in_range(w: int, h: int, x: int, y: int, c: int)
    requires
        0 <= x,
        0 <= y,
        x + 1 < w,
        y + 1 < h,
        0 <= c < 3,
    ensures
        0 <= y * w,
        y * w <= y * w + x,
        0 <= y * w + x,
        4 * (y * w + x) + c + 4 * w + 4 < 4 * (w * h),
        4 * (y * w + x) + 4 * w == 4 * ((y * w + x) + w),
        4 * (y * w + x) + 4 * w + 4 == 4 * ((y * w + x) + w + 1),
        4 * (y * w + x) + 4 == 4 * ((y * w + x) + 1),
{
    assert(0 <= y * w) by (nonlinear_arith)
        requires
            0 <= y,
            0 <= w,
    ;
    assert(y * w + x + w + 1 < w * h) by (nonlinear_arith)
        requires
            0 <= x,
            x + 1 < w,
            y + 1 < h,
            0 <= y,
    ;
}

/// Warps `source` onto a `width` by `height` image.
///
/// Output pixel `p` (pixels numbered row by row) samples the source at
/// `samples[p]`, the point where the projection of the output onto the
/// source quad sends it, rounded down. Every output pixel is opaque. A pixel
/// whose sample point has a right and a lower neighbour in the source gets,
/// for each colour channel, what `blend` gives for it and the four source
/// bytes around the sample point; any other pixel is white.
pub fn perspective<B: Fn(usize, Neighborhood) -> u8>(
    source: &RGBAImage,
    width: usize,
    height: usize,
    samples: &Vec<(usize, usize)>,
    blend: B,
) -> (out: RGBAImage)
    requires
        4 * (width * height) <= usize::MAX,
        samples@.len() == width * height,
        forall|p: int| 0 <= p < samples@.len() ==> no_step_overflow(source@, #[trigger] samples@[p]),
        forall|p: usize, n: Neighborhood| p < width * height ==> call_requires(blend, (p, n)),
    ensures
        out@.width == width,
        out@.height == height,
        out@.well_sized(),
        forall|p: int|
            0 <= p < width * height ==> warped_pixel(source@, #[trigger] samples@[p], blend, out@, p),
        out@.data.len() == 4 * (width * height),
        // Byte `k` of the output is channel `k % 4` of output pixel `k / 4`,
        // stated on the source's bytes: row-major, rows `source@.width` long.
        forall|k: int|
            0 <= k < out@.data.len() ==> {
                let p = k / 4;
                let c = k % 4;
                let x = samples@[p].0 as int;
                let y = samples@[p].1 as int;
                let w = source@.width as int;
                if c == 3 {
                    #[trigger] out@.data[k] == 255
                } else if x + 1 < source@.width && y + 1 < source@.height {
                    call_ensures(
                        blend,
                        (
                            p as usize,
                            Neighborhood {
                                top_left: source@.data[4 * (y * w + x) + c],
                                top_right: source@.data[4 * (y * w + x + 1) + c],
                                bottom_left: source@.data[4 * ((y + 1) * w + x) + c],
                                bottom_right: source@.data[4 * ((y + 1) * w + x + 1) + c],
                            },
                        ),
                        out@.data[k],
                    )
                } else {
                    out@.data[k] == 255
                }
            },
{
    let sw = source.width();
    let sh = source.height();
    let src = source.data();
    let src_len = src.len();
    let ghost sv = source@;
    let count = width * height;
    let mut data: Vec<u8> = Vec::new();
    let mut p: usize = 0;
    while p < count
        invariant
            count == width * height,
            4 * count <= usize::MAX,
            samples@.len() == count,
            forall|q: int| 0 <= q < samples@.len() ==> no_step_overflow(sv, #[trigger] samples@[q]),
            forall|q: usize, n: Neighborhood| q < count ==> call_requires(blend, (q, n)),
            sv == source@,
            sw == sv.width,
            sh == sv.height,
            src@ == sv.data,
            src_len == src@.len(),
            sv.well_sized(),
            p <= count,
            data@.len() == 4 * p,
            forall|q: int|
                0 <= q < p ==> warped_pixel(
                    sv,
                    #[trigger] samples@[q],
                    blend,
                    ImageView { data: data@, width: width as nat, height: height as nat },
                    q,
                ),
        decreases count - p,
    {
        let (x, y) = samples[p];
        let ghost before = data@;
        if x + 1 < sw && y + 1 < sh {
            proof {
                lemma_neighborhood_in_range(sw as int, sh as int, x as int, y as int, 0);
                lemma_neighborhood_in_range(sw as int, sh as int, x as int, y as int, 1);
                lemma_neighborhood_in_range(sw as int, sh as int, x as int, y as int, 2);
            }
            let raw_base = (y * sw + x) * 4;
            let row = sw * 4;
            let mut c: usize = 0;
            while c < 3
                invariant
                    c <= 3,
                    p < count,
                    x + 1 < sw,
                    y + 1 < sh,
                    raw_base == 4 * (y * sw + x),
                    row == 4 * sw,
                    sv.well_sized(),
                    src@ == sv.data,
                    src_len == src@.len(),
                    sw == sv.width,
                    sh == sv.height,
                    forall|q: usize, n: Neighborhood| q < count ==> call_requires(blend, (q, n)),
                    data@.len() == 4 * p + c,
                    data@.subrange(0, 4 * p) == before,
                    forall|k: int|
                        0 <= k < c ==> call_ensures(
                            blend,
                            (p, neighborhood(sv, x as int, y as int, k)),
                            #[trigger] data@[4 * p + k],
                        ),
                decreases 3 - c,
            {
                proof {
                    lemma_neighborhood_in_range(sw as int, sh as int, x as int, y as int, c as int);
                }
                let base = raw_base + c;
                let n = Neighborhood {
                    top_left: src[base],
                    top_right: src[base + 4],
                    bottom_left: src[base + row],
                    bottom_right: src[base + row + 4],
                };
                assert(n == neighborhood(sv, x as int, y as int, c as int));
                let v = blend(p, n);
                data.push(v);
                assert(data@.subrange(0, 4 * p) == before);
                c = c + 1;
            }
            data.push(255);
        } else {
            data.push(255);
            data.push(255);
            data.push(255);
            data.push(255);
        }
        proof {
            let outv = ImageView { data: data@, width: width as nat, height: height as nat };
            assert forall|q: int| 0 <= q <= p implies warped_pixel(
                sv,
                #[trigger] samples@[q],
                blend,
                outv,
                q,
            ) by {
                if q < p {
                    let prev = ImageView { data: before, width: width as nat, height: height as nat };
                    assert(warped_pixel(sv, samples@[q], blend, prev, q));
                    assert forall|k: int| 0 <= k < 4 implies outv.channel(q, k) == prev.channel(q, k) by {
                        assert(data@[4 * q + k] == data@.subrange(0, 4 * p)[4 * q + k]);
                    }
                } else {
                    assert(outv.channel(q, 3) == 255);
                }
            }
        }
        p = p + 1;
    }
    let out = RGBAImage::new(data, width, height);
    proof {
        let ov = out@;
        assert forall|k: int| 0 <= k < ov.data.len() implies {
            let p = k / 4;
            let c = k % 4;
            let x = samples@[p].0 as int;
            let y = samples@[p].1 as int;
            let w = sv.width as int;
            if c == 3 {
                #[trigger] ov.data[k] == 255
            } else if x + 1 < sv.width && y + 1 < sv.height {
                call_ensures(
                    blend,
                    (
                        p as usize,
                        Neighborhood {
                            top_left: sv.data[4 * (y * w + x) + c],
                            top_right: sv.data[4 * (y * w + x + 1) + c],
                            bottom_left: sv.data[4 * ((y + 1) * w + x) + c],
                            bottom_right: sv.data[4 * ((y + 1) * w + x + 1) + c],
                        },
                    ),
                    ov.data[k],
                )
            } else {
                ov.data[k] == 255
            }
        } by {
            let p = k / 4;
            let c = k % 4;
            assert(k == 4 * p + c);
            assert(0 <= p < count);
            let sp = samples@[p];
            assert(warped_pixel(sv, sp, blend, ov, p));
            assert(ov.channel(p, c) == ov.data[k]);
            lemma_window_bytes(sv, sp.0 as int, sp.1 as int, c);
            lemma_lands_inside_bounds(sv, sp.0 as int, sp.1 as int);
        }
    }
    out
}

} // verus!
