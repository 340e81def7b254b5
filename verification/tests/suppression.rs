use ml_rust::ranking::sort_by_score;
use ml_rust::schemas::{Bbox, Face};
use ml_rust::suppression::{bbox_area, iou, non_maximum_suppression, Ratio};

const PX: i64 = 10_000;

fn square(x: i64, y: i64, side: i64) -> Bbox {
    Bbox { x1: x * PX, y1: y * PX, x2: (x + side) * PX, y2: (y + side) * PX }
}

fn face(score: i64, bbox: Bbox) -> Face {
    Face { score, bbox, landmarks: [(score, -score); 5] }
}

#[test]
fn area_of_a_box() {
    assert_eq!(bbox_area(&Bbox { x1: 0, y1: 0, x2: 3 * PX, y2: 2 * PX }), 600_000_000);
    assert_eq!(bbox_area(&Bbox { x1: -5, y1: -7, x2: 5, y2: 7 }), 140);
}

#[test]
fn area_of_a_degenerate_box_is_zero() {
    assert_eq!(bbox_area(&Bbox { x1: 10, y1: 0, x2: 0, y2: 10 }), 0);
    assert_eq!(bbox_area(&Bbox { x1: 0, y1: 10, x2: 10, y2: 0 }), 0);
    assert_eq!(bbox_area(&Bbox { x1: 10, y1: 10, x2: 0, y2: 0 }), 0);
    assert_eq!(bbox_area(&Bbox { x1: 4, y1: 4, x2: 4, y2: 9 }), 0);
}

#[test]
fn area_keeps_the_axes_apart() {
    // a wide, flat box with its rows out of order encloses nothing
    assert_eq!(bbox_area(&Bbox { x1: 0, y1: 5, x2: 100, y2: 4 }), 0);
    assert_eq!(bbox_area(&Bbox { x1: 0, y1: 4, x2: 100, y2: 5 }), 100);
}

#[test]
fn area_at_the_limit() {
    let limit = 1_000_000_000_000i64;
    let all = Bbox { x1: -limit, y1: -limit, x2: limit, y2: limit };
    assert!(all.in_range());
    assert_eq!(bbox_area(&all), 4_000_000_000_000_000_000_000_000i128);
    assert!(!Bbox { x1: -limit - 1, y1: 0, x2: 0, y2: 0 }.in_range());
}

#[test]
fn iou_of_identical_boxes_is_one() {
    let b = square(0, 0, 10);
    let ratio = iou(&b, &b);
    assert_eq!(ratio, Ratio { shared: 10_000_000_000, covered: 10_000_000_010 });
    // within a millionth of one whole
    assert!((ratio.covered - ratio.shared) * 1_000_000 <= ratio.covered);
    assert_eq!(ratio.to_units(), 10_000);
    assert!(ratio.exceeds(9_999));
    assert!(!ratio.exceeds(10_000));
}

#[test]
fn iou_of_a_tiny_box_feels_the_epsilon() {
    let tiny = Bbox { x1: 0, y1: 0, x2: 1, y2: 1 };
    assert_eq!(iou(&tiny, &tiny), Ratio { shared: 1, covered: 11 });
    assert_eq!(iou(&tiny, &tiny).to_units(), 909);
}

#[test]
fn iou_of_disjoint_boxes_is_zero() {
    for other in [square(20, 0, 10), square(0, 30, 10), square(10, 0, 10)] {
        let ratio = iou(&square(0, 0, 10), &other);
        assert_eq!(ratio.shared, 0);
        assert_eq!(ratio.covered, 20_000_000_010);
        assert_eq!(ratio.to_units(), 0);
        assert!(!ratio.exceeds(0));
        assert!(ratio.exceeds(-1));
    }
}

#[test]
fn iou_is_zero_only_when_nothing_is_shared() {
    // two boxes of 100 by 100 pixels that share a hundredth of a square pixel
    let a = square(0, 0, 100);
    let b = Bbox { x1: 999_000, y1: 999_000, x2: 1_999_000, y2: 1_999_000 };
    let ratio = iou(&a, &b);
    assert_eq!(ratio, Ratio { shared: 1_000_000, covered: 1_999_999_000_010 });
    assert!(ratio.exceeds(0));
    assert!(!ratio.exceeds(1));
}

#[test]
fn iou_of_a_degenerate_box_is_zero() {
    let point = Bbox { x1: 5, y1: 5, x2: 5, y2: 5 };
    assert_eq!(iou(&point, &point), Ratio { shared: 0, covered: 10 });
    let inverted = Bbox { x1: 10 * PX, y1: 10 * PX, x2: 0, y2: 0 };
    assert_eq!(iou(&inverted, &square(0, 0, 10)).shared, 0);
}

#[test]
fn iou_of_boxes_that_share_a_third() {
    let a = Bbox { x1: 0, y1: 0, x2: 2 * PX, y2: 2 * PX };
    let b = Bbox { x1: PX, y1: 0, x2: 3 * PX, y2: 2 * PX };
    let ratio = iou(&a, &b);
    assert_eq!(ratio, Ratio { shared: 200_000_000, covered: 600_000_010 });
    assert_eq!(iou(&b, &a), ratio);
    // within a millionth of one third
    assert!((ratio.covered - 3 * ratio.shared).abs() * 1_000_000 <= 3 * ratio.covered);
    assert!(ratio.exceeds(3_333));
    assert!(!ratio.exceeds(3_334));
    assert_eq!(ratio.to_units(), 3_333);
}

#[test]
fn iou_of_overlapping_boxes() {
    let a = square(0, 0, 10);
    let inner = square(0, 0, 5);
    assert_eq!(iou(&a, &inner), Ratio { shared: 2_500_000_000, covered: 10_000_000_010 });
    assert_eq!(iou(&a, &inner).to_units(), 2_500);
    let half = Bbox { x1: 0, y1: 0, x2: 10 * PX, y2: 5 * PX };
    assert_eq!(iou(&a, &half), Ratio { shared: 5_000_000_000, covered: 10_000_000_010 });
    assert!(!iou(&a, &half).exceeds(5_000));
    let shifted = square(0, 1, 10);
    assert_eq!(iou(&a, &shifted).to_units(), 8_182);
}

#[test]
fn ratio_is_compared_exactly() {
    // a quarter, to the unit: 10 shared of 40 covered
    let a = Bbox { x1: 0, y1: 0, x2: 4, y2: 5 };
    let b = Bbox { x1: 2, y1: 0, x2: 6, y2: 5 };
    let quarter = iou(&a, &b);
    assert_eq!(quarter, Ratio { shared: 10, covered: 40 });
    assert!(!quarter.exceeds(2_500));
    assert!(quarter.exceeds(2_499));
    assert!(quarter.exceeds(i64::MIN));
    assert!(!quarter.exceeds(i64::MAX));
    assert_eq!(quarter.to_units(), 2_500);
}

#[test]
fn sort_is_ascending_and_stable() {
    let a = face(7, square(0, 0, 1));
    let b = face(3, square(1, 0, 1));
    let c = face(7, square(2, 0, 1));
    let d = face(-2, square(3, 0, 1));
    let e = face(3, square(4, 0, 1));
    assert_eq!(sort_by_score(vec![a, b, c, d, e]), vec![d, b, e, a, c]);
    assert_eq!(sort_by_score(vec![]), vec![]);
    assert_eq!(sort_by_score(vec![a]), vec![a]);
}

#[test]
fn suppression_keeps_the_most_confident_of_overlapping_boxes() {
    let low = face(6_000, square(1, 0, 10));
    let mid = face(7_000, square(0, 1, 10));
    let top = face(9_000, square(0, 0, 10));
    let kept = non_maximum_suppression(vec![low, mid, top], 5_000);
    assert_eq!(kept, vec![top]);
}

#[test]
fn suppression_keeps_boxes_that_do_not_overlap_too_much() {
    let a = face(6_000, square(0, 0, 10));
    let b = face(7_000, square(20, 0, 10));
    let c = face(8_000, Bbox { x1: 5 * PX, y1: 0, x2: 15 * PX, y2: 10 * PX });
    let d = face(9_000, square(40, 40, 4));
    let kept = non_maximum_suppression(vec![a, b, c, d], 5_000);
    assert_eq!(kept, vec![d, c, b, a]);
}

#[test]
fn suppression_compares_with_every_kept_box() {
    let top = face(9_000, square(0, 0, 10));
    let far = face(8_000, square(100, 0, 10));
    let near_far = face(7_000, square(101, 0, 10));
    let near_top = face(6_000, square(0, 1, 10));
    let kept = non_maximum_suppression(vec![near_top, near_far, far, top], 5_000);
    assert_eq!(kept, vec![top, far]);
}

#[test]
fn suppression_threshold_is_strict() {
    let a = face(9_000, Bbox { x1: 0, y1: 0, x2: 4, y2: 5 });
    let b = face(8_000, Bbox { x1: 2, y1: 0, x2: 6, y2: 5 });
    // the two overlap by a quarter, to the unit
    assert_eq!(non_maximum_suppression(vec![b, a], 2_500), vec![a, b]);
    assert_eq!(non_maximum_suppression(vec![b, a], 2_499), vec![a]);
}

#[test]
fn suppression_sees_an_overlap_just_above_the_threshold() {
    let a = face(9_000, square(0, 0, 10));
    let just_above = face(8_000, Bbox { x1: 0, y1: 0, x2: 10 * PX, y2: 50_001 });
    let just_below = face(8_000, Bbox { x1: 0, y1: 0, x2: 10 * PX, y2: 50_000 });
    assert_eq!(non_maximum_suppression(vec![just_above, a], 5_000), vec![a]);
    assert_eq!(non_maximum_suppression(vec![just_below, a], 5_000), vec![a, just_below]);
}

#[test]
fn suppression_leaves_no_pair_above_the_threshold() {
    let mut faces = Vec::new();
    for i in 0..40i64 {
        faces.push(face(1_000 + (i * 37) % 11, square((i * 3) % 17, (i * 5) % 13, 6)));
    }
    let sorted = sort_by_score(faces);
    let top = sorted[sorted.len() - 1];
    let kept = non_maximum_suppression(sorted, 2_000);
    assert_eq!(kept[0], top);
    for i in 0..kept.len() {
        for j in 0..kept.len() {
            if i != j {
                assert!(!iou(&kept[i].bbox, &kept[j].bbox).exceeds(2_000));
            }
        }
    }
    for i in 1..kept.len() {
        assert!(kept[i - 1].score >= kept[i].score);
    }
}

#[test]
fn suppression_of_nothing_is_nothing() {
    assert_eq!(non_maximum_suppression(vec![], 5_000), vec![]);
}
