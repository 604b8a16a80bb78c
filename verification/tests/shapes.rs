use pixeldraw::shapes::{
    circle_fill_points, circle_stroke_points, ellipse_fill_points, line_points, rect_bounds,
    rect_fill_points, rect_stroke_points, triangle_fill_points, triangle_stroke_points,
};

fn sorted(mut points: Vec<(i32, i32)>) -> Vec<(i32, i32)> {
    points.sort_unstable();
    points.dedup();
    points
}

#[test]
fn line_is_bresenham() {
    assert_eq!(line_points(0, 0, 3, 0), vec![(0, 0), (1, 0), (2, 0), (3, 0)]);
    assert_eq!(line_points(0, 0, 0, 2), vec![(0, 0), (0, 1), (0, 2)]);
    assert_eq!(line_points(1, 1, 1, 1), vec![(1, 1)]);
    let diag = line_points(0, 0, 2, 2);
    assert_eq!(diag, vec![(0, 0), (1, 1), (2, 2)]);
}

#[test]
fn rect_normalizes_corners() {
    assert_eq!(rect_bounds(3, 4, 1, 2), (1, 2, 3, 4));
    assert_eq!(rect_fill_points(1, 1, 1, 1), vec![(1, 1)]);
    let stroke = sorted(rect_stroke_points(0, 0, 2, 2));
    assert_eq!(
        stroke,
        sorted(vec![
            (0, 0),
            (1, 0),
            (2, 0),
            (0, 1),
            (2, 1),
            (0, 2),
            (1, 2),
            (2, 2)
        ])
    );
}

#[test]
fn circle_fill_contains_center_and_outside_empty() {
    let fill = sorted(circle_fill_points(5, 5, 2));
    assert!(fill.contains(&(5, 5)));
    assert!(fill.contains(&(5, 7)));
    assert!(!fill.contains(&(5, 8)));
    assert_eq!(circle_fill_points(3, 3, 0), vec![(3, 3)]);
}

#[test]
fn triangle_fill_and_stroke() {
    let fill = sorted(triangle_fill_points(0, 0, 4, 0, 0, 4));
    assert!(fill.contains(&(0, 0)));
    assert!(fill.contains(&(1, 1)));
    assert!(fill.contains(&(0, 3)));
    assert!(!fill.contains(&(3, 3)));
    let stroke = sorted(triangle_stroke_points(0, 0, 2, 0, 0, 2));
    assert!(stroke.contains(&(0, 0)));
    assert!(stroke.contains(&(2, 0)));
    assert!(stroke.contains(&(0, 2)));
    assert!(stroke.contains(&(1, 1)) || stroke.contains(&(0, 1)));
}

#[test]
fn ellipse_fill_covers_axis_extents() {
    let fill = sorted(ellipse_fill_points(4, 4, 3, 1));
    assert!(fill.contains(&(4, 4)));
    assert!(fill.contains(&(1, 4)));
    assert!(fill.contains(&(7, 4)));
    assert!(fill.contains(&(4, 5)));
    assert!(!fill.contains(&(4, 6)));
}

#[test]
fn line_steps_are_eight_connected_and_reversible_in_extent() {
    let pts = line_points(0, 0, 5, 2);
    assert_eq!(pts.len(), 6);
    assert_eq!(pts[0], (0, 0));
    assert_eq!(*pts.last().unwrap(), (5, 2));
    for w in pts.windows(2) {
        assert!((w[0].0 - w[1].0).abs() <= 1 && (w[0].1 - w[1].1).abs() <= 1);
    }
    assert_eq!(line_points(3, 0, 0, 0), vec![(3, 0), (2, 0), (1, 0), (0, 0)]);
}

#[test]
fn rect_fill_covers_the_area_row_by_row() {
    assert_eq!(
        rect_fill_points(2, 1, 0, 0),
        vec![(0, 0), (1, 0), (2, 0), (0, 1), (1, 1), (2, 1)]
    );
}

#[test]
fn circle_stroke_is_on_the_rim() {
    let stroke = sorted(circle_stroke_points(0, 0, 3));
    assert!(stroke.contains(&(3, 0)));
    assert!(stroke.contains(&(0, -3)));
    assert!(stroke.contains(&(-3, 0)));
    assert!(!stroke.contains(&(0, 0)));
    assert_eq!(circle_stroke_points(2, 2, 0), vec![(2, 2)]);
}
