use manufactory::layout::{check_layout, Padding, Rect};

#[test]
fn layout_inside_and_apart_is_accepted() {
    let rects = vec![Rect::new(0, 0, 4, 4), Rect::new(6, 0, 8, 3)];
    assert!(check_layout(&rects, 10, 10, Padding::new(2, 2)));
}

#[test]
fn overlapping_rects_are_rejected() {
    let rects = vec![Rect::new(0, 0, 4, 4), Rect::new(3, 3, 6, 6)];
    assert!(!check_layout(&rects, 10, 10, Padding::new(0, 0)));
}

#[test]
fn gap_below_padding_is_rejected() {
    let rects = vec![Rect::new(0, 0, 4, 4), Rect::new(5, 0, 8, 4)];
    assert!(check_layout(&rects, 10, 10, Padding::new(1, 1)));
    assert!(!check_layout(&rects, 10, 10, Padding::new(2, 2)));
}

#[test]
fn rect_past_far_edge_is_rejected() {
    let rects = vec![Rect::new(0, 0, 9, 4)];
    assert!(check_layout(&rects, 10, 10, Padding::new(1, 0)));
    assert!(!check_layout(&rects, 10, 10, Padding::new(2, 0)));
    assert!(!check_layout(&rects, 8, 10, Padding::new(0, 0)));
}

#[test]
fn zero_sized_composite_is_rejected() {
    assert!(!check_layout(&vec![], 0, 10, Padding::new(0, 0)));
    assert!(check_layout(&vec![], 1, 1, Padding::new(0, 0)));
}

#[test]
fn padding_and_rect_constructors_keep_fields() {
    let p = Padding::new(3, 4);
    assert_eq!((p.x, p.y), (3, 4));
    assert_eq!(Padding::default(), Padding::new(0, 0));
    let r = Rect::new(1, 2, 3, 4);
    assert_eq!((r.min_x, r.min_y, r.max_x, r.max_y), (1, 2, 3, 4));
}
