use a11y_overlay::marker::{frame_markers, marker_at, BoundingBox, Marker, MARKER_SIZE};

fn bbox(x: i32, y: i32) -> BoundingBox {
    BoundingBox { x, y, width: 40, height: 20 }
}

#[test]
fn marker_is_ten_by_ten_at_top_left() {
    let m = marker_at(&bbox(100, 200));
    assert_eq!(m, Marker { left: 100, top: 200, right: 110, bottom: 210 });
    assert_eq!(MARKER_SIZE, 10);
}

#[test]
fn marker_at_negative_origin() {
    let m = marker_at(&bbox(-5, -30));
    assert_eq!(m, Marker { left: -5, top: -30, right: 5, bottom: -20 });
}

#[test]
fn marker_at_largest_coordinates_does_not_overflow() {
    let m = marker_at(&bbox(i32::MAX, i32::MAX));
    assert_eq!(m.right, i32::MAX as i64 + 10);
    assert_eq!(m.bottom, i32::MAX as i64 + 10);
}

#[test]
fn failed_probe_does_not_blank_frame() {
    let probes = vec![Some(bbox(1, 2)), None, Some(bbox(30, 40))];
    let ms = frame_markers(&probes);
    assert_eq!(
        ms,
        vec![
            Marker { left: 1, top: 2, right: 11, bottom: 12 },
            Marker { left: 30, top: 40, right: 40, bottom: 50 },
        ]
    );
}

#[test]
fn all_probes_failed_gives_no_markers() {
    assert!(frame_markers(&vec![None, None]).is_empty());
    assert!(frame_markers(&Vec::new()).is_empty());
}
