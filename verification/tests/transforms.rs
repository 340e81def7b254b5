use ml_rust::errors::ErrorKind;
use ml_rust::raster::Raster;
use ml_rust::transforms::{
    arcface_template, correction, crop_face, letterbox, warp_into, Affine, Correction, CROP_SIZE,
};

fn sample() -> Raster<u8> {
    Raster::from_vec(3, 2, vec![1, 2, 3, 4, 5, 6]).unwrap()
}

fn identity() -> Affine {
    Affine { m11: 10_000, m12: 0, m13: 0, m21: 0, m22: 10_000, m23: 0 }
}

#[test]
fn raster_is_laid_out_row_by_row() {
    let image = sample();
    assert_eq!(image.get_pixel(0, 0), 1);
    assert_eq!(image.get_pixel(2, 0), 3);
    assert_eq!(image.get_pixel(0, 1), 4);
    assert_eq!(image.get_pixel(2, 1), 6);
    assert_eq!(image.get_pixel_checked(3, 0), None);
    assert_eq!(image.get_pixel_checked(0, 2), None);
    assert_eq!(image.get_pixel_checked(1, 1), Some(5));
}

#[test]
fn raster_new_and_put() {
    let mut image = Raster::new(2, 2, 9u8).unwrap();
    assert_eq!(image.pixels, vec![9, 9, 9, 9]);
    image.put_pixel(1, 0, 7);
    image.put_pixel(0, 1, 5);
    assert_eq!(image.pixels, vec![9, 7, 5, 9]);
    assert_eq!(Raster::new(0, 5, 0u8).unwrap().pixels.len(), 0);
    assert!(Raster::from_vec(2, 2, vec![1u8, 2, 3]).is_none());
}

#[test]
fn identity_warp_copies_the_image() {
    let input = sample();
    let mut output = Raster::new(3, 2, 0u8).unwrap();
    assert_eq!(warp_into(&input, &identity(), &mut output, 255), Ok(()));
    assert_eq!(output, input);
}

#[test]
fn warp_fills_with_background_outside_the_source() {
    let input = sample();
    let left = Affine { m13: -10_000, ..identity() };
    let mut output = Raster::new(3, 2, 0u8).unwrap();
    assert_eq!(warp_into(&input, &left, &mut output, 255), Ok(()));
    assert_eq!(output.pixels, vec![2, 3, 255, 5, 6, 255]);
    let mut larger = Raster::new(4, 3, 0u8).unwrap();
    assert_eq!(warp_into(&input, &identity(), &mut larger, 255), Ok(()));
    assert_eq!(larger.pixels, vec![1, 2, 3, 255, 4, 5, 6, 255, 255, 255, 255, 255]);
}

#[test]
fn warp_cuts_fractions_towards_zero() {
    let input = sample();
    let half_right = Affine { m13: 5_000, ..identity() };
    let mut output = Raster::new(3, 2, 0u8).unwrap();
    assert_eq!(warp_into(&input, &half_right, &mut output, 255), Ok(()));
    assert_eq!(output.pixels, vec![1, 1, 2, 4, 4, 5]);
    let one_right = Affine { m13: 10_000, ..identity() };
    assert_eq!(warp_into(&input, &one_right, &mut output, 255), Ok(()));
    assert_eq!(output.pixels, vec![255, 1, 2, 255, 4, 5]);
    let one_down = Affine { m23: 10_000, ..identity() };
    assert_eq!(warp_into(&input, &one_down, &mut output, 255), Ok(()));
    assert_eq!(output.pixels, vec![255, 255, 255, 1, 2, 3]);
}

#[test]
fn warp_scales_mirrors_and_swaps_axes() {
    let input = sample();
    let halve = Affine { m11: 5_000, ..identity() };
    let mut output = Raster::new(2, 2, 0u8).unwrap();
    assert_eq!(warp_into(&input, &halve, &mut output, 255), Ok(()));
    assert_eq!(output.pixels, vec![1, 3, 4, 6]);
    let double = Affine { m11: 20_000, m22: 20_000, ..identity() };
    let mut grown = Raster::new(6, 4, 0u8).unwrap();
    assert_eq!(warp_into(&input, &double, &mut grown, 255), Ok(()));
    assert_eq!(
        grown.pixels,
        vec![1, 1, 2, 2, 3, 3, 1, 1, 2, 2, 3, 3, 4, 4, 5, 5, 6, 6, 4, 4, 5, 5, 6, 6]
    );
    let swap = Affine { m11: 0, m12: 10_000, m13: 0, m21: 10_000, m22: 0, m23: 0 };
    let mut turned = Raster::new(2, 3, 0u8).unwrap();
    assert_eq!(warp_into(&input, &swap, &mut turned, 255), Ok(()));
    assert_eq!(turned.pixels, vec![1, 4, 2, 5, 3, 6]);
    let mirror = Affine { m11: -10_000, m13: 20_000, ..identity() };
    let mut mirrored = Raster::new(3, 2, 0u8).unwrap();
    assert_eq!(warp_into(&input, &mirror, &mut mirrored, 255), Ok(()));
    assert_eq!(mirrored.pixels, vec![3, 2, 1, 6, 5, 4]);
}

#[test]
fn warp_through_a_quarter_turn() {
    // the canvas shows the image turned by a quarter and moved back into view
    let input = sample();
    let turn = Affine { m11: 0, m12: -10_000, m13: 10_000, m21: 10_000, m22: 0, m23: 0 };
    let mut output = Raster::new(2, 3, 0u8).unwrap();
    assert_eq!(warp_into(&input, &turn, &mut output, 255), Ok(()));
    assert_eq!(output.pixels, vec![4, 1, 5, 2, 6, 3]);
}

#[test]
fn warp_refuses_a_transform_that_cannot_be_undone() {
    let input = sample();
    let mut output = Raster::new(2, 2, 7u8).unwrap();
    let flat = Affine { m11: 10_000, m12: 20_000, m13: 5, m21: 5_000, m22: 10_000, m23: 9 };
    assert_eq!(warp_into(&input, &flat, &mut output, 9), Err(ErrorKind::DegenerateAlignment));
    assert_eq!(output.pixels, vec![7, 7, 7, 7]);
    let nothing = Affine { m11: 0, m12: 0, m13: 0, m21: 0, m22: 0, m23: 0 };
    assert_eq!(warp_into(&input, &nothing, &mut output, 9), Err(ErrorKind::DegenerateAlignment));
    assert!(nothing.fits());
    assert!(!nothing.is_invertible());
    assert_eq!(output.pixels, vec![7, 7, 7, 7]);
    let wild = Affine { m13: 1_000_000_000_001, ..identity() };
    assert!(!wild.fits());
    let far = Affine { m13: 1_000_000_000_000, m23: -1_000_000_000_000, ..identity() };
    assert!(far.fits());
    assert!(far.is_invertible());
    assert_eq!(warp_into(&input, &far, &mut output, 9), Ok(()));
    assert_eq!(output.pixels, vec![9, 9, 9, 9]);
}

#[test]
fn source_of_a_place() {
    assert_eq!(identity().source(5, 9), (5, 9));
    let shrink = Affine {
        m11: 7_001,
        m12: 1_237,
        m13: -3_462_191,
        m21: -1_237,
        m22: 7_001,
        m23: -1_123_889,
    };
    // the point that this transform takes to the middle of a crop of 112
    assert_eq!(shrink.source(56, 56), (515, 331));
}

#[test]
fn letterbox_pads_right_and_below() {
    let input = Raster::from_vec(2, 1, vec![7u8, 8]).unwrap();
    let canvas = letterbox(&input, 3, 2, 0).unwrap();
    assert_eq!(canvas, Raster { width: 3, height: 2, pixels: vec![7, 8, 0, 0, 0, 0] });
    let cut = letterbox(&sample(), 2, 1, 0).unwrap();
    assert_eq!(cut.pixels, vec![1, 2]);
    let same = letterbox(&sample(), 3, 2, 0).unwrap();
    assert_eq!(same, sample());
}

#[test]
fn crop_is_a_square_canvas() {
    let flat = Affine { m11: 0, m12: 0, m13: 0, m21: 0, m22: 0, m23: 0 };
    assert_eq!(crop_face(&sample(), &flat, 4, 0), Err(ErrorKind::DegenerateAlignment));
    let crop = crop_face(&sample(), &identity(), 4, 0).unwrap();
    assert_eq!(crop.width, 4);
    assert_eq!(crop.height, 4);
    assert_eq!(crop.pixels, vec![1, 2, 3, 0, 4, 5, 6, 0, 0, 0, 0, 0, 0, 0, 0, 0]);
    let full = crop_face(&sample(), &identity(), CROP_SIZE, 0).unwrap();
    assert_eq!(full.pixels.len(), 112 * 112);
}

#[test]
fn template_lies_inside_the_crop() {
    let template = arcface_template();
    assert_eq!(template[0], (382_946, 516_963));
    assert_eq!(template[1], (735_318, 515_014));
    assert_eq!(template[2], (560_252, 717_366));
    assert_eq!(template[3], (415_493, 923_655));
    assert_eq!(template[4], (707_299, 922_041));
    for (x, y) in template {
        assert!(0 <= x && x < 1_120_000);
        assert!(0 <= y && y < 1_120_000);
    }
}

#[test]
fn correction_fails_on_rank_zero() {
    assert_eq!(correction(0, false, true), Err(ErrorKind::DegenerateAlignment));
    assert_eq!(correction(0, true, false), Err(ErrorKind::DegenerateAlignment));
}

#[test]
fn correction_of_full_rank_undoes_the_reflection() {
    assert_eq!(correction(2, false, false), Ok(Correction { rotation_sign: 1, scale_sign: 1 }));
    assert_eq!(correction(2, false, true), Ok(Correction { rotation_sign: 1, scale_sign: 1 }));
    assert_eq!(correction(2, true, true), Ok(Correction { rotation_sign: -1, scale_sign: -1 }));
    assert_eq!(correction(2, true, false), Ok(Correction { rotation_sign: -1, scale_sign: -1 }));
}

#[test]
fn correction_of_rank_one_goes_by_the_factors() {
    assert_eq!(correction(1, false, true), Ok(Correction { rotation_sign: 1, scale_sign: 1 }));
    assert_eq!(correction(1, false, false), Ok(Correction { rotation_sign: -1, scale_sign: 1 }));
    assert_eq!(correction(1, true, true), Ok(Correction { rotation_sign: 1, scale_sign: -1 }));
    assert_eq!(correction(1, true, false), Ok(Correction { rotation_sign: -1, scale_sign: -1 }));
}
