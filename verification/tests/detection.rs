use ml_rust::anchors::{anchor_center, count_anchors, distance2bbox, distance2kps};
use ml_rust::decoder::{decode, decode_level, DetectorOutput, LevelOutput};
use ml_rust::errors::ErrorKind;
use ml_rust::models::DetectedFaceOutput;
use ml_rust::post_processing::{post_processing, DetectionFaces, MAX_IOU, SCORE_THRESHOLD};
use ml_rust::rescale::{factor_for, normalize_coordinates, rescale};
use ml_rust::schemas::{Bbox, Face};

fn blank_level(stride: usize) -> LevelOutput {
    let count = count_anchors(stride);
    LevelOutput {
        scores: vec![0; count],
        boxes: vec![0; 4 * count],
        landmarks: vec![0; 10 * count],
    }
}

fn blank_output() -> DetectorOutput {
    DetectorOutput { stride8: blank_level(8), stride16: blank_level(16), stride32: blank_level(32) }
}

fn set_anchor(level: &mut LevelOutput, index: usize, score: i32, distance: i32) {
    level.scores[index] = score;
    for k in 0..4 {
        level.boxes[4 * index + k] = distance;
    }
}

fn sample_output() -> DetectorOutput {
    let mut output = blank_output();
    set_anchor(&mut output.stride8, 0, 9_000, 10_000);
    set_anchor(&mut output.stride8, 1, 8_000, 10_000);
    set_anchor(&mut output.stride8, 200, 6_000, 5_000);
    set_anchor(&mut output.stride8, 300, 5_000, 5_000);
    set_anchor(&mut output.stride16, 0, 9_500, 2_500);
    output
}

#[test]
fn anchor_counts_per_stride() {
    assert_eq!(count_anchors(8), 12800);
    assert_eq!(count_anchors(16), 3200);
    assert_eq!(count_anchors(32), 800);
}

#[test]
fn anchor_centers_at_stride_8() {
    assert_eq!(anchor_center(0, 8), (0, 0));
    assert_eq!(anchor_center(1, 8), (0, 0));
    assert_eq!(anchor_center(2, 8), (8, 0));
    assert_eq!(anchor_center(159, 8), (632, 0));
    assert_eq!(anchor_center(160, 8), (0, 8));
    assert_eq!(anchor_center(163, 8), (8, 8));
    assert_eq!(anchor_center(12799, 8), (632, 632));
}

#[test]
fn anchor_centers_at_coarser_strides() {
    assert_eq!(anchor_center(81, 16), (0, 16));
    assert_eq!(anchor_center(3199, 16), (624, 624));
    assert_eq!(anchor_center(799, 32), (608, 608));
    assert_eq!(anchor_center(2, 32), (32, 0));
}

#[test]
fn box_is_decoded_from_distances() {
    let mut level = blank_level(8);
    level.boxes[8] = 10_000;
    level.boxes[9] = 5_000;
    level.boxes[10] = 20_000;
    level.boxes[11] = 15_000;
    let bbox = distance2bbox(2, 8, &level.boxes);
    assert_eq!(bbox, Bbox { x1: 0, y1: -40_000, x2: 240_000, y2: 120_000 });
}

#[test]
fn box_decoding_is_linear_in_the_distance() {
    let mut level = blank_level(16);
    let base = distance2bbox(81, 16, &level.boxes);
    assert_eq!(base, Bbox { x1: 0, y1: 160_000, x2: 0, y2: 160_000 });
    level.boxes[4 * 81] = 1;
    level.boxes[4 * 81 + 3] = -3;
    let moved = distance2bbox(81, 16, &level.boxes);
    assert_eq!(moved, Bbox { x1: -16, y1: 160_000, x2: 0, y2: 160_000 - 48 });
}

#[test]
fn landmarks_are_decoded_from_distances() {
    let mut level = blank_level(8);
    for k in 0..5 {
        level.landmarks[20 + 2 * k] = 1_000 * k as i32;
        level.landmarks[20 + 2 * k + 1] = -1_000 * k as i32;
    }
    let landmarks = distance2kps(2, 8, &level.landmarks);
    assert_eq!(
        landmarks,
        [(80_000, 0), (88_000, -8_000), (96_000, -16_000), (104_000, -24_000), (112_000, -32_000)]
    );
}

#[test]
fn extreme_distances_stay_in_range() {
    let mut level = blank_level(32);
    level.boxes[4 * 799] = i32::MIN;
    level.boxes[4 * 799 + 2] = i32::MAX;
    let bbox = distance2bbox(799, 32, &level.boxes);
    assert_eq!(bbox.x1, 6_080_000 + 2_147_483_648i64 * 32);
    assert_eq!(bbox.x2, 6_080_000 + 2_147_483_647i64 * 32);
    assert!(bbox.in_range());
}

#[test]
fn decode_level_keeps_scores_strictly_above_threshold() {
    let mut level = blank_level(32);
    level.scores[3] = 5_000;
    level.scores[5] = 5_001;
    level.scores[7] = 9_999;
    let mut faces: Vec<Face> = Vec::new();
    decode_level(&level, 32, 5_000, &mut faces);
    assert_eq!(faces.len(), 2);
    assert_eq!(faces[0].score, 5_001);
    assert_eq!(faces[0].bbox, Bbox { x1: 640_000, y1: 0, x2: 640_000, y2: 0 });
    assert_eq!(faces[1].score, 9_999);
    assert_eq!(faces[1].bbox, Bbox { x1: 960_000, y1: 0, x2: 960_000, y2: 0 });
}

#[test]
fn decode_pools_levels_in_order() {
    let faces = decode(&sample_output(), SCORE_THRESHOLD).unwrap();
    let scores: Vec<i64> = faces.iter().map(|f| f.score).collect();
    assert_eq!(scores, vec![9_000, 8_000, 6_000, 9_500]);
}

#[test]
fn decode_rejects_wrong_shapes() {
    let mut output = blank_output();
    output.stride16.boxes.pop();
    assert_eq!(decode(&output, SCORE_THRESHOLD), Err(ErrorKind::TensorShapeMismatch));
    let mut output = blank_output();
    output.stride8.scores.push(0);
    assert_eq!(decode(&output, SCORE_THRESHOLD), Err(ErrorKind::TensorShapeMismatch));
    let mut output = blank_output();
    output.stride32.landmarks.clear();
    assert_eq!(
        post_processing(&output, SCORE_THRESHOLD, 640, 640),
        Err(ErrorKind::TensorShapeMismatch)
    );
    assert_eq!(
        DetectionFaces::new(&output, 640, 640, SCORE_THRESHOLD),
        Err(ErrorKind::TensorShapeMismatch)
    );
}

#[test]
fn rescale_factor_follows_the_longer_side() {
    assert_eq!(factor_for(1280, 720), 1280);
    assert_eq!(factor_for(720, 1280), 1280);
    assert_eq!(factor_for(1000, 1000), 640);
    assert_eq!(factor_for(640, 640), 640);
    assert_eq!(factor_for(0, 0), 640);
    assert_eq!(factor_for(320, 100), 320);
}

#[test]
fn rescale_rounds_down() {
    assert_eq!(rescale(10_000, 1280), 20_000);
    assert_eq!(rescale(10_000, 640), 10_000);
    assert_eq!(rescale(1, 320), 0);
    assert_eq!(rescale(-1, 320), -1);
    assert_eq!(rescale(-1_280, 320), -640);
    assert_eq!(rescale(7, 1000), 10);
    assert_eq!(rescale(-7, 1000), -11);
    assert_eq!(rescale(1_000_000_000_000, u32::MAX), 6_710_886_398_437_500_000);
    assert_eq!(rescale(-1_000_000_000_000, u32::MAX), -6_710_886_398_437_500_000);
}

#[test]
fn normalize_coordinates_scales_box_and_landmarks() {
    let face = DetectedFaceOutput {
        score: 7_000,
        bbox: Bbox { x1: 100, y1: -200, x2: 300, y2: 400 },
        landmarks: [(1, 2), (3, 4), (5, 6), (7, 8), (-9, -10)],
    };
    let mut faces = vec![face];
    normalize_coordinates(&mut faces, 1920, 1080);
    assert_eq!(
        faces,
        vec![DetectedFaceOutput {
            score: 7_000,
            bbox: Bbox { x1: 300, y1: -600, x2: 900, y2: 1200 },
            landmarks: [(3, 6), (9, 12), (15, 18), (21, 24), (-27, -30)],
        }]
    );
    let mut square = vec![face];
    normalize_coordinates(&mut square, 2000, 2000);
    assert_eq!(square, vec![face]);
}

#[test]
fn post_processing_end_to_end() {
    let faces = post_processing(&sample_output(), SCORE_THRESHOLD, 1280, 720).unwrap();
    assert_eq!(faces.len(), 3);
    assert_eq!(
        faces[0],
        DetectedFaceOutput {
            score: 9_500,
            bbox: Bbox { x1: -80_000, y1: -80_000, x2: 80_000, y2: 80_000 },
            landmarks: [(0, 0); 5],
        }
    );
    assert_eq!(
        faces[1],
        DetectedFaceOutput {
            score: 9_000,
            bbox: Bbox { x1: -160_000, y1: -160_000, x2: 160_000, y2: 160_000 },
            landmarks: [(0, 0); 5],
        }
    );
    assert_eq!(
        faces[2],
        DetectedFaceOutput {
            score: 6_000,
            bbox: Bbox { x1: 3_120_000, y1: 80_000, x2: 3_280_000, y2: 240_000 },
            landmarks: [(3_200_000, 160_000); 5],
        }
    );
}

#[test]
fn post_processing_of_a_square_image_keeps_model_coordinates() {
    let faces = post_processing(&sample_output(), SCORE_THRESHOLD, 900, 900).unwrap();
    let model = DetectionFaces::new(&sample_output(), 640, 640, SCORE_THRESHOLD).unwrap();
    assert_eq!(faces.len(), model.faces.len());
    for (face, candidate) in faces.iter().zip(model.faces.iter()) {
        assert_eq!(face.score, candidate.score);
        assert_eq!(face.bbox, candidate.bbox);
        assert_eq!(face.landmarks, candidate.landmarks);
    }
}

#[test]
fn post_processing_without_candidates_is_empty() {
    let faces = post_processing(&blank_output(), SCORE_THRESHOLD, 1280, 720).unwrap();
    assert!(faces.is_empty());
    let all = post_processing(&blank_output(), -1, 640, 640).unwrap();
    assert!(!all.is_empty());
    assert_eq!(all[0].score, 0);
}

#[test]
fn detection_faces_are_in_the_pixels_of_the_original_image() {
    let detection = DetectionFaces::new(&sample_output(), 1280, 720, SCORE_THRESHOLD).unwrap();
    let scores: Vec<i64> = detection.faces.iter().map(|f| f.score).collect();
    assert_eq!(scores, vec![9_500, 9_000, 6_000]);
    assert_eq!(
        detection.faces[1].bbox,
        Bbox { x1: -160_000, y1: -160_000, x2: 160_000, y2: 160_000 }
    );
    assert_eq!(detection.faces[2].landmarks, [(3_200_000, 160_000); 5]);
    let faces = post_processing(&sample_output(), SCORE_THRESHOLD, 1280, 720).unwrap();
    assert_eq!(faces.len(), detection.faces.len());
    for (face, candidate) in faces.iter().zip(detection.faces.iter()) {
        assert_eq!(face.score, candidate.score);
        assert_eq!(face.bbox, candidate.bbox);
        assert_eq!(face.landmarks, candidate.landmarks);
    }
}

#[test]
fn a_box_at_ten_comes_to_twenty_in_an_image_twice_as_wide() {
    let mut output = blank_output();
    // anchor 2 of stride 8 is centred at 8 pixels; two units of distance bring it to 10
    output.stride8.scores[2] = 9_000;
    output.stride8.boxes[8] = -2_500;
    output.stride8.boxes[10] = 2_500;
    let detection = DetectionFaces::new(&output, 1280, 720, SCORE_THRESHOLD).unwrap();
    assert_eq!(detection.faces.len(), 1);
    assert_eq!(detection.faces[0].bbox, Bbox { x1: 200_000, y1: 0, x2: 200_000, y2: 0 });
    let model = DetectionFaces::new(&output, 640, 640, SCORE_THRESHOLD).unwrap();
    assert_eq!(model.faces[0].bbox, Bbox { x1: 100_000, y1: 0, x2: 100_000, y2: 0 });
}

#[test]
fn norm_coords_scales_candidates() {
    let mut faces = vec![Face {
        score: 1,
        bbox: Bbox { x1: 100, y1: -200, x2: 300, y2: 400 },
        landmarks: [(1, 2), (3, 4), (5, 6), (7, 8), (-9, -10)],
    }];
    DetectionFaces::norm_coords(&mut faces, 320, 1280);
    assert_eq!(faces[0].bbox, Bbox { x1: 200, y1: -400, x2: 600, y2: 800 });
    assert_eq!(faces[0].landmarks, [(2, 4), (6, 8), (10, 12), (14, 16), (-18, -20)]);
}

#[test]
fn defaults_are_one_half() {
    assert_eq!(SCORE_THRESHOLD, 5_000);
    assert_eq!(MAX_IOU, 5_000);
}
