use docscan::image::RGBAImage;
use docscan::perspective::{perspective, target_rectangle, GridPoint, Neighborhood, PixelQuad};

fn gp(x: usize, y: usize) -> GridPoint {
    GridPoint { x, y }
}

/// A `width` by `height` image whose byte `i` is `i` (mod 256).
fn ramp(width: usize, height: usize) -> RGBAImage {
    let data: Vec<u8> = (0..4 * width * height).map(|i| (i % 256) as u8).collect();
    RGBAImage::new(data, width, height)
}

#[test]
fn image_keeps_its_parts() {
    let img = ramp(3, 2);
    assert_eq!(img.width(), 3);
    assert_eq!(img.height(), 2);
    assert_eq!(img.data().len(), 24);
    let data = img.into_data();
    assert_eq!(data, (0u8..24).collect::<Vec<u8>>());
}

#[test]
fn empty_image() {
    let img = RGBAImage::new(Vec::new(), 0, 5);
    assert_eq!(img.width(), 0);
    assert_eq!(img.height(), 5);
    assert!(img.data().is_empty());
}

#[test]
fn target_upright_when_both_portrait() {
    let r = target_rectangle(true, 4, 6);
    assert_eq!(r, PixelQuad { a: gp(0, 6), b: gp(0, 0), c: gp(4, 0), d: gp(4, 6) });
}

#[test]
fn target_upright_when_both_landscape() {
    let r = target_rectangle(false, 6, 4);
    assert_eq!(r, PixelQuad { a: gp(0, 4), b: gp(0, 0), c: gp(6, 0), d: gp(6, 4) });
}

#[test]
fn target_turned_when_portrait_quad_meets_landscape_output() {
    let r = target_rectangle(true, 6, 4);
    assert_eq!(r, PixelQuad { a: gp(0, 0), b: gp(6, 0), c: gp(6, 4), d: gp(0, 4) });
}

#[test]
fn target_turned_when_landscape_quad_meets_portrait_output() {
    let r = target_rectangle(false, 4, 6);
    assert_eq!(r, PixelQuad { a: gp(0, 0), b: gp(4, 0), c: gp(4, 6), d: gp(0, 6) });
}

#[test]
fn square_output_counts_as_landscape() {
    assert_eq!(target_rectangle(false, 5, 5).a, gp(0, 5));
    assert_eq!(target_rectangle(true, 5, 5).a, gp(0, 0));
}

#[test]
fn turned_target_is_upright_rotated_one_corner() {
    let up = target_rectangle(true, 3, 7);
    let turned = target_rectangle(false, 3, 7);
    assert_eq!(turned.a, up.b);
    assert_eq!(turned.b, up.c);
    assert_eq!(turned.c, up.d);
    assert_eq!(turned.d, up.a);
}

#[test]
fn identity_sampling_copies_colours_and_makes_opaque() {
    // 3 by 3 source; a 2 by 2 output sampling each pixel at itself keeps
    // every sample point inside (its right and lower neighbours exist).
    let src = ramp(3, 3);
    let samples = vec![(0, 0), (1, 0), (0, 1), (1, 1)];
    let out = perspective(&src, 2, 2, &samples, |_p: usize, n: Neighborhood| n.top_left);
    assert_eq!(out.width(), 2);
    assert_eq!(out.height(), 2);
    let d = out.data();
    assert_eq!(d.len(), 16);
    let s = src.data();
    for (p, &(x, y)) in samples.iter().enumerate() {
        let q = y * 3 + x;
        for c in 0..3 {
            assert_eq!(d[4 * p + c], s[4 * q + c]);
        }
        assert_eq!(d[4 * p + 3], 255);
    }
}

#[test]
fn blend_sees_the_four_neighbours() {
    let src = ramp(3, 3);
    // sample at (1, 1): neighbours are pixels 4, 5, 7, 8.
    let samples = vec![(1, 1)];
    let seen = |_p: usize, n: Neighborhood| n.bottom_right;
    let out = perspective(&src, 1, 1, &samples, seen);
    assert_eq!(out.data().clone(), vec![32, 33, 34, 255]);
    let left = perspective(&src, 1, 1, &samples, |_p: usize, n: Neighborhood| n.bottom_left);
    assert_eq!(left.data().clone(), vec![28, 29, 30, 255]);
    let right = perspective(&src, 1, 1, &samples, |_p: usize, n: Neighborhood| n.top_right);
    assert_eq!(right.data().clone(), vec![20, 21, 22, 255]);
}

#[test]
fn blend_gets_the_output_pixel_index() {
    let src = ramp(2, 2);
    let samples = vec![(0, 0); 6];
    let out = perspective(&src, 3, 2, &samples, |p: usize, _n: Neighborhood| (10 * p) as u8);
    let d = out.data();
    for p in 0..6 {
        assert_eq!(&d[4 * p..4 * p + 4], &[(10 * p) as u8, (10 * p) as u8, (10 * p) as u8, 255]);
    }
}

#[test]
fn samples_on_the_last_column_or_row_are_white() {
    let src = ramp(3, 3);
    // (2, 0): no right neighbour; (0, 2): no lower neighbour; (1, 1) inside.
    let samples = vec![(2, 0), (0, 2), (1, 1), (9, 9)];
    let out = perspective(&src, 4, 1, &samples, |_p: usize, _n: Neighborhood| 7);
    assert_eq!(
        out.data().clone(),
        vec![255, 255, 255, 255, 255, 255, 255, 255, 7, 7, 7, 255, 255, 255, 255, 255]
    );
}

#[test]
fn one_pixel_wide_source_is_all_white() {
    let src = ramp(1, 5);
    let samples = vec![(0, 0), (0, 3)];
    let out = perspective(&src, 2, 1, &samples, |_p: usize, _n: Neighborhood| 0);
    assert_eq!(out.data().clone(), vec![255; 8]);
}

#[test]
fn empty_output() {
    let src = ramp(2, 2);
    let out = perspective(&src, 0, 4, &Vec::new(), |_p: usize, _n: Neighborhood| 0);
    assert_eq!(out.width(), 0);
    assert_eq!(out.height(), 4);
    assert!(out.data().is_empty());
}

#[test]
fn bilinear_blend_through_the_closure() {
    // The blend the scanner hands in: bilinear weights of the sample point.
    let src = ramp(2, 2);
    let weights = [(0.5f32, 0.5f32)];
    let samples = vec![(0, 0)];
    let out = perspective(&src, 1, 1, &samples, |p: usize, n: Neighborhood| {
        let (xt, yt) = weights[p];
        let a = n.top_left as f32 * (1.0 - xt) + n.top_right as f32 * xt;
        let b = n.bottom_left as f32 * (1.0 - xt) + n.bottom_right as f32 * xt;
        (a * (1.0 - yt) + b * yt) as u8
    });
    // channel 0: (0 + 4 + 8 + 12) / 4 = 6
    assert_eq!(out.data().clone(), vec![6, 7, 8, 255]);
}
