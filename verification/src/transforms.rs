//! Resampling an image through a similarity transform, padding an image to
//! a canvas, and the rule by which an alignment is corrected for
//! reflection.
use vstd::prelude::*;
use crate::errors::ErrorKind;
use crate::fixed::{cut, COORD_LIMIT, UNITS};
use crate::raster::Raster;

verus! {

/// Side of the crop that the recogniser takes, in pixels.
pub const CROP_SIZE: u32 = 112;

/// The two upper rows of a homogeneous 3 by 3 matrix whose last row is
/// `0 0 1`, each entry in ten-thousandths. It takes the point `(x, y)` to
/// `(m11 x + m12 y + m13, m21 x + m22 y + m23)`.
#[derive(Clone, Copy, Debug, PartialEq, Eq, Structural)]
pub struct Affine {
    pub m11: i64,
    pub m12: i64,
    pub m13: i64,
    pub m21: i64,
    pub m22: i64,
    pub m23: i64,
}

impl Affine {
    /// Every entry lies within `COORD_LIMIT` of zero.
    pub open spec fn in_range(self) -> bool {
        &&& -COORD_LIMIT <= self.m11 <= COORD_LIMIT
        &&& -COORD_LIMIT <= self.m12 <= COORD_LIMIT
        &&& -COORD_LIMIT <= self.m13 <= COORD_LIMIT
        &&& -COORD_LIMIT <= self.m21 <= COORD_LIMIT
        &&& -COORD_LIMIT <= self.m22 <= COORD_LIMIT
        &&& -COORD_LIMIT <= self.m23 <= COORD_LIMIT
    }

    /// Determinant of the matrix, in square units.
    pub open spec fn determinant(self) -> int {
        self.m11 * self.m22 - self.m12 * self.m21
    }

    /// The transform can be undone: its determinant is not zero.
    pub open spec fn invertible(self) -> bool {
        self.determinant() != 0
    }

    /// The point that the transform takes to the pixel `(x, y)` has the
    /// column `preimage_x / determinant`, in pixels.
    pub open spec fn preimage_x(self, x: int, y: int) -> int {
        self.m22 * (x * UNITS - self.m13) - self.m12 * (y * UNITS - self.m23)
    }

    /// The point that the transform takes to the pixel `(x, y)` has the row
    /// `preimage_y / determinant`, in pixels.
    pub open spec fn preimage_y(self, x: int, y: int) -> int {
        self.m11 * (y * UNITS - self.m23) - self.m21 * (x * UNITS - self.m13)
    }

    /// Column of the source pixel for the place `(x, y)` of the canvas: the
    /// column of the point that the transform takes there, cut down to a
    /// whole pixel.
    pub open spec fn source_x(self, x: int, y: int) -> int {
        cut(self.preimage_x(x, y), self.determinant())
    }

    /// Row of the source pixel for the place `(x, y)` of the canvas.
    pub open spec fn source_y(self, x: int, y: int) -> int {
        cut(self.preimage_y(x, y), self.determinant())
    }

    /// The transform that leaves every point where it is.
    pub open spec fn identity() -> Affine {
        Affine { m11: UNITS, m12: 0, m13: 0, m21: 0, m22: UNITS, m23: 0 }
    }

    /// Tells whether every entry is in the range on which the transform
    /// can be worked with.
    pub fn fits(&self) -> (ok: bool)
        ensures
            ok == self.in_range(),
    {
        within(self.m11) && within(self.m12) && within(self.m13) && within(self.m21) && within(
            self.m22,
        ) && within(self.m23)
    }

    /// Tells whether the transform can be undone.
    pub fn is_invertible(&self) -> (ok: bool)
        requires
            self.in_range(),
        ensures
            ok == self.invertible(),
    {
        self.measure() != 0
    }

    /// Determinant of the matrix.
    fn measure(&self) -> (determinant: i128)
        requires
            self.in_range(),
        ensures
            determinant == self.determinant(),
            -100 * COORD_LIMIT * COORD_LIMIT <= determinant <= 100 * COORD_LIMIT * COORD_LIMIT,
    {
        times(self.m11 as i128, self.m22 as i128) - times(self.m12 as i128, self.m21 as i128)
    }

    /// The source pixel for the place `(x, y)` of the canvas.
    pub fn source(&self, x: u32, y: u32) -> (place: (i128, i128))
        requires
            self.in_range(),
            self.invertible(),
        ensures
            place.0 == self.source_x(x as int, y as int),
            place.1 == self.source_y(x as int, y as int),
    {
        let determinant = self.measure();
        let across: i128 = (x as i128) * (UNITS as i128) - (self.m13 as i128);
        let down: i128 = (y as i128) * (UNITS as i128) - (self.m23 as i128);
        let column: i128 = times(self.m22 as i128, across) - times(self.m12 as i128, down);
        let row: i128 = times(self.m11 as i128, down) - times(self.m21 as i128, across);
        (divide(column, determinant), divide(row, determinant))
    }
}

/// A number, taken as an entry, is in range.
fn within(entry: i64) -> (ok: bool)
    ensures
        ok == (-COORD_LIMIT <= entry <= COORD_LIMIT),
{
    -COORD_LIMIT <= entry && entry <= COORD_LIMIT
}

/// Product of an entry and a length.
fn times(entry: i128, length: i128) -> (product: i128)
    requires
        -COORD_LIMIT <= entry <= COORD_LIMIT,
        -50 * COORD_LIMIT <= length <= 50 * COORD_LIMIT,
    ensures
        product == entry * length,
        -50 * COORD_LIMIT * COORD_LIMIT <= product <= 50 * COORD_LIMIT * COORD_LIMIT,
{
    assert(-50 * COORD_LIMIT * COORD_LIMIT <= entry * length <= 50 * COORD_LIMIT * COORD_LIMIT)
        by (nonlinear_arith)
        requires
            -COORD_LIMIT <= entry <= COORD_LIMIT,
            -50 * COORD_LIMIT <= length <= 50 * COORD_LIMIT,
    ;
    entry * length
}

/// A quotient with the fraction cut off, towards zero.
fn divide(numerator: i128, divisor: i128) -> (quotient: i128)
    requires
        divisor != 0,
        -100 * COORD_LIMIT * COORD_LIMIT <= numerator <= 100 * COORD_LIMIT * COORD_LIMIT,
        -100 * COORD_LIMIT * COORD_LIMIT <= divisor <= 100 * COORD_LIMIT * COORD_LIMIT,
    ensures
        quotient == cut(numerator as int, divisor as int),
{
    let (above, below): (i128, i128) = if divisor > 0 {
        (numerator, divisor)
    } else {
        (-numerator, -divisor)
    };
    if above >= 0 {
        above / below
    } else {
        let ghost n = -(above as int);
        let ghost d = below as int;
        assert(0 <= n / d <= n) by (nonlinear_arith)
            requires
                n > 0,
                d > 0,
        ;
        -((-above) / below)
    }
}

/// The source place is, before the fraction is cut off, exactly the point
/// that the transform takes to the place of the canvas: the transform
/// applied to `(preimage_x, preimage_y) / determinant` gives `(x, y)` back.
pub proof fn lemma_preimage(matrix: Affine, x: int, y: int)
    ensures
        matrix.m11 * matrix.preimage_x(x, y) + matrix.m12 * matrix.preimage_y(x, y)
            == matrix.determinant() * (x * UNITS - matrix.m13),
        matrix.m21 * matrix.preimage_x(x, y) + matrix.m22 * matrix.preimage_y(x, y)
            == matrix.determinant() * (y * UNITS - matrix.m23),
{
    let a = matrix.m11 as int;
    let b = matrix.m12 as int;
    let c = matrix.m21 as int;
    let d = matrix.m22 as int;
    let u = x * UNITS - matrix.m13;
    let v = y * UNITS - matrix.m23;
    assert(a * (d * u - b * v) + b * (a * v - c * u) == (a * d - b * c) * u) by (nonlinear_arith);
    assert(c * (d * u - b * v) + d * (a * v - c * u) == (a * d - b * c) * v) by (nonlinear_arith);
}

/// The identity takes every place of the canvas to itself.
pub proof fn lemma_identity_source(x: int, y: int)
    requires
        0 <= x,
        0 <= y,
    ensures
        Affine::identity().in_range(),
        Affine::identity().invertible(),
        Affine::identity().source_x(x, y) == x,
        Affine::identity().source_y(x, y) == y,
{
    let t = Affine::identity();
    assert(t.determinant() == 100_000_000) by (nonlinear_arith)
        requires
            t.determinant() == 10_000 * 10_000 - 0 * 0,
    ;
    assert(t.preimage_x(x, y) == 100_000_000 * x) by (nonlinear_arith)
        requires
            t.preimage_x(x, y) == 10_000 * (x * 10_000 - 0) - 0 * (y * 10_000 - 0),
    ;
    assert(t.preimage_y(x, y) == 100_000_000 * y) by (nonlinear_arith)
        requires
            t.preimage_y(x, y) == 10_000 * (y * 10_000 - 0) - 0 * (x * 10_000 - 0),
    ;
    assert((100_000_000 * x) / 100_000_000 == x);
    assert((100_000_000 * y) / 100_000_000 == y);
}

/// What the place `(x, y)` of the canvas shows: the pixel of the source
/// from which the transform brings it, or the background when that lies
/// outside the source.
pub open spec fn sampled<P: Copy>(
    input: Raster<P>,
    matrix: Affine,
    x: int,
    y: int,
    background: P,
) -> P {
    if input.holds(matrix.source_x(x, y), matrix.source_y(x, y)) {
        input.at(matrix.source_x(x, y), matrix.source_y(x, y))
    } else {
        background
    }
}

/// Through the identity every place of the canvas that the source covers
/// shows the pixel of the source at the same place.
pub proof fn lemma_identity_copies<P: Copy>(input: Raster<P>, x: int, y: int, background: P)
    requires
        0 <= x,
        0 <= y,
    ensures
        sampled(input, Affine::identity(), x, y, background) == padded(input, x, y, background),
{
    lemma_identity_source(x, y);
}

/// What the place `(x, y)` of a padded canvas shows: the pixel of the image
/// at the same place, or the background where the image has none.
pub open spec fn padded<P: Copy>(input: Raster<P>, x: int, y: int, background: P) -> P {
    if input.holds(x, y) {
        input.at(x, y)
    } else {
        background
    }
}

/// The first `y` rows hold `width` pixels each, and the row after them has
/// room for the pixel at `x`.
proof fn lemma_row_place(width: int, height: int, x: int, y: int, row: int, column: int)
    by (nonlinear_arith)
    requires
        0 <= x <= width,
        0 <= y < height,
        0 <= column < width,
        0 <= row <= y,
        row < y || column < x,
    ensures
        0 <= row * width + column < y * width + x,
        y * width + x <= height * width,
{
}

/// A further row takes `width` further pixels.
proof fn lemma_next_row(width: int, y: int)
    by (nonlinear_arith)
    ensures
        (y + 1) * width == y * width + width,
{
}

/// Fills the canvas `output` from `input` through the inverse of `matrix`:
/// each place of the canvas takes the pixel of `input` from which `matrix`
/// brings it, the nearest one towards the origin, or `background` where
/// that lies outside `input`. A singular transform, which cannot be
/// undone, aligns nothing: the canvas stays as it is.
pub fn warp_into<P: Copy>(
    input: &Raster<P>,
    matrix: &Affine,
    output: &mut Raster<P>,
    background: P,
) -> (result: Result<(), ErrorKind>)
    requires
        input.wf(),
        old(output).wf(),
        matrix.in_range(),
    ensures
        result is Ok <==> matrix.invertible(),
        result is Err ==> result->Err_0 == ErrorKind::DegenerateAlignment && *final(output) == *old(
            output,
        ),
        final(output).wf(),
        final(output).width == old(output).width,
        final(output).height == old(output).height,
        result is Ok ==> forall|x: int, y: int|
            final(output).holds(x, y) ==> #[trigger] final(output).at(x, y) == sampled(
                *input,
                *matrix,
                x,
                y,
                background,
            ),
{
    if !matrix.is_invertible() {
        return Err(ErrorKind::DegenerateAlignment);
    }
    let width = output.width;
    let height = output.height;
    let mut pixels: Vec<P> = Vec::new();
    let mut y: u32 = 0;
    assert(height * width == width * height) by (nonlinear_arith);
    while y < height
        invariant
            y <= height,
            input.wf(),
            matrix.in_range(),
            matrix.invertible(),
            pixels.len() == y * width,
            height * width == old(output).pixels.len(),
            forall|row: int, column: int|
                0 <= row < y && 0 <= column < width ==> #[trigger] pixels[row * width + column]
                    == sampled(*input, *matrix, column, row, background),
        decreases height - y,
    {
        let mut x: u32 = 0;
        while x < width
            invariant
                x <= width,
                y < height,
                input.wf(),
                matrix.in_range(),
                matrix.invertible(),
                pixels.len() == y * width + x,
                height * width == old(output).pixels.len(),
                forall|row: int, column: int|
                    0 <= row < y && 0 <= column < width ==> #[trigger] pixels[row * width + column]
                        == sampled(*input, *matrix, column, row, background),
                forall|column: int|
                    0 <= column < x ==> #[trigger] pixels[y * width + column] == sampled(
                        *input,
                        *matrix,
                        column,
                        y as int,
                        background,
                    ),
            decreases width - x,
        {
            let (in_x, in_y) = matrix.source(x, y);
            let pixel = if 0 <= in_x && in_x < input.width as i128 && 0 <= in_y && in_y
                < input.height as i128 {
                input.get_pixel(in_x as u32, in_y as u32)
            } else {
                background
            };
            let ghost before = pixels@;
            pixels.push(pixel);
            proof {
                assert forall|row: int, column: int|
                    0 <= row < y && 0 <= column < width implies #[trigger] pixels[row * width
                    + column] == sampled(*input, *matrix, column, row, background) by {
                    lemma_row_place(width as int, height as int, x as int, y as int, row, column);
                    assert(pixels[row * width + column] == before[row * width + column]);
                }
                assert forall|column: int| 0 <= column < x + 1 implies #[trigger] pixels[y * width
                    + column] == sampled(*input, *matrix, column, y as int, background) by {
                    if column < x {
                        assert(pixels[y * width + column] == before[y * width + column]);
                    }
                }
            }
            x += 1;
        }
        proof {
            lemma_next_row(width as int, y as int);
        }
        y += 1;
    }
    output.pixels = pixels;
    proof {
        assert(height * width == width * height) by (nonlinear_arith);
    }
    Ok(())
}

/// Lays an image on a canvas of the given size, top-left corners together:
/// where the image has a pixel the canvas shows it, and everywhere else it
/// shows `background`. None when the machine cannot count the pixels of the
/// canvas.
pub fn letterbox<P: Copy>(input: &Raster<P>, width: u32, height: u32, background: P) -> (made:
    Option<Raster<P>>)
    requires
        input.wf(),
    ensures
        made is Some <==> width * height <= usize::MAX,
        made is Some ==> {
            &&& made->0.wf()
            &&& made->0.width == width
            &&& made->0.height == height
            &&& forall|x: int, y: int|
                made->0.holds(x, y) ==> #[trigger] made->0.at(x, y) == padded(
                    *input,
                    x,
                    y,
                    background,
                )
        },
{
    assert(width * height <= 0xffff_ffff * 0xffff_ffff) by (nonlinear_arith)
        requires
            0 <= width <= 0xffff_ffff,
            0 <= height <= 0xffff_ffff,
    ;
    if (width as u64) * (height as u64) > usize::MAX as u64 {
        return None;
    }
    let mut pixels: Vec<P> = Vec::new();
    let mut y: u32 = 0;
    while y < height
        invariant
            y <= height,
            input.wf(),
            pixels.len() == y * width,
            forall|row: int, column: int|
                0 <= row < y && 0 <= column < width ==> #[trigger] pixels[row * width + column]
                    == padded(*input, column, row, background),
        decreases height - y,
    {
        let mut x: u32 = 0;
        while x < width
            invariant
                x <= width,
                y < height,
                input.wf(),
                pixels.len() == y * width + x,
                forall|row: int, column: int|
                    0 <= row < y && 0 <= column < width ==> #[trigger] pixels[row * width + column]
                        == padded(*input, column, row, background),
                forall|column: int|
                    0 <= column < x ==> #[trigger] pixels[y * width + column] == padded(
                        *input,
                        column,
                        y as int,
                        background,
                    ),
            decreases width - x,
        {
            let pixel = match input.get_pixel_checked(x, y) {
                Some(pixel) => pixel,
                None => background,
            };
            let ghost before = pixels@;
            pixels.push(pixel);
            proof {
                assert forall|row: int, column: int|
                    0 <= row < y && 0 <= column < width implies #[trigger] pixels[row * width
                    + column] == padded(*input, column, row, background) by {
                    lemma_row_place(width as int, height as int, x as int, y as int, row, column);
                    assert(pixels[row * width + column] == before[row * width + column]);
                }
                assert forall|column: int| 0 <= column < x + 1 implies #[trigger] pixels[y * width
                    + column] == padded(*input, column, y as int, background) by {
                    if column < x {
                        assert(pixels[y * width + column] == before[y * width + column]);
                    }
                }
            }
            x += 1;
        }
        proof {
            lemma_next_row(width as int, y as int);
        }
        y += 1;
    }
    proof {
        assert(height * width == width * height) by (nonlinear_arith);
    }
    Some(Raster { width, height, pixels })
}

/// Cuts the aligned face out of an image: a square canvas of `size` pixels
/// on which `matrix` lays the face, filled from the image through the
/// inverse of `matrix`. A singular transform, which cannot be undone, is a
/// degenerate alignment; a canvas whose pixels the machine cannot count has
/// the wrong shape.
pub fn crop_face<P: Copy>(image: &Raster<P>, matrix: &Affine, size: u32, background: P) -> (crop:
    Result<Raster<P>, ErrorKind>)
    requires
        image.wf(),
        matrix.in_range(),
    ensures
        crop is Ok <==> matrix.invertible() && size * size <= usize::MAX,
        crop is Err ==> crop->Err_0 == if matrix.invertible() {
            ErrorKind::TensorShapeMismatch
        } else {
            ErrorKind::DegenerateAlignment
        },
        crop is Ok ==> {
            &&& crop->Ok_0.wf()
            &&& crop->Ok_0.width == size
            &&& crop->Ok_0.height == size
            &&& forall|x: int, y: int|
                crop->Ok_0.holds(x, y) ==> #[trigger] crop->Ok_0.at(x, y) == sampled(
                    *image,
                    *matrix,
                    x,
                    y,
                    background,
                )
        },
{
    if !matrix.is_invertible() {
        return Err(ErrorKind::DegenerateAlignment);
    }
    match Raster::new(size, size, background) {
        Some(canvas) => {
            let mut canvas = canvas;
            match warp_into(image, matrix, &mut canvas, background) {
                Ok(()) => Ok(canvas),
                Err(kind) => Err(kind),
            }
        },
        None => Err(ErrorKind::TensorShapeMismatch),
    }
}

/// The five places to which the landmarks of a face are brought in a crop
/// of 112 by 112 pixels: eyes, nose, corners of the mouth.
pub fn arcface_template() -> (template: [(i64, i64); 5])
    ensures
        template@ == seq![
            (382_946i64, 516_963i64),
            (735_318i64, 515_014i64),
            (560_252i64, 717_366i64),
            (415_493i64, 923_655i64),
            (707_299i64, 922_041i64),
        ],
        forall|k: int|
            0 <= k < 5 ==> 0 <= (#[trigger] template@[k]).0 < CROP_SIZE * UNITS && 0
                <= template@[k].1 < CROP_SIZE * UNITS,
{
    let template = [
        (382_946i64, 516_963i64),
        (735_318i64, 515_014i64),
        (560_252i64, 717_366i64),
        (415_493i64, 923_655i64),
        (707_299i64, 922_041i64),
    ];
    assert(template@ =~= seq![
        (382_946i64, 516_963i64),
        (735_318i64, 515_014i64),
        (560_252i64, 717_366i64),
        (415_493i64, 923_655i64),
        (707_299i64, 922_041i64),
    ]);
    template
}

/// The signs by which the singular value decomposition of the
/// cross-covariance of two point sets is corrected when a similarity
/// transform is made from it.
#[derive(Clone, Copy, Debug, PartialEq, Eq, Structural)]
pub struct Correction {
    /// Second entry of the diagonal that goes between the two orthogonal
    /// factors of the rotation; the first is one.
    pub rotation_sign: i8,
    /// Second entry of the vector with which the singular values are
    /// weighed for the scale; the first is one.
    pub scale_sign: i8,
}

/// The sign that undoes a reflection: minus one when the determinant of the
/// cross-covariance is negative.
pub open spec fn reflection_sign(determinant_negative: bool) -> i8 {
    if determinant_negative {
        -1i8
    } else {
        1i8
    }
}

/// The correction for a cross-covariance of the given rank. With full rank
/// both signs undo the reflection. With rank one the rotation takes the two
/// factors as they are when the product of their determinants is positive,
/// and is flipped otherwise; the scale keeps the sign of the reflection.
pub open spec fn correction_for(
    rank: int,
    determinant_negative: bool,
    factors_positive: bool,
) -> Correction {
    Correction {
        rotation_sign: if rank == 1 {
            if factors_positive {
                1i8
            } else {
                -1i8
            }
        } else {
            reflection_sign(determinant_negative)
        },
        scale_sign: reflection_sign(determinant_negative),
    }
}

/// Chooses the correction from what is known of the cross-covariance of the
/// demeaned points: its rank, whether its determinant is negative, and
/// whether the product of the determinants of its two orthogonal factors is
/// positive. A cross-covariance of rank zero admits no alignment.
pub fn correction(rank: usize, determinant_negative: bool, factors_positive: bool) -> (result:
    Result<Correction, ErrorKind>)
    ensures
        result is Err <==> rank == 0,
        result is Err ==> result->Err_0 == ErrorKind::DegenerateAlignment,
        result is Ok ==> result->Ok_0 == correction_for(
            rank as int,
            determinant_negative,
            factors_positive,
        ),
{
    if rank == 0 {
        return Err(ErrorKind::DegenerateAlignment);
    }
    let reflection: i8 = if determinant_negative {
        -1
    } else {
        1
    };
    let rotation_sign: i8 = if rank == 1 {
        if factors_positive {
            1
        } else {
            -1
        }
    } else {
        reflection
    };
    Ok(Correction { rotation_sign, scale_sign: reflection })
}

} // verus!
