use minecraft::greedy::{greedy_rects, Rect};

#[test]
fn full_mask_is_one_rectangle() {
    let mask = vec![Some(4u8); 6];
    assert_eq!(greedy_rects(mask, 3, 2), vec![Rect { u: 0, v: 0, w: 3, h: 2, tex: 4 }]);
}

#[test]
fn empty_mask_has_no_rectangle() {
    assert_eq!(greedy_rects(vec![None; 16], 4, 4), vec![]);
}

#[test]
fn greedy_takes_width_then_height() {
    // Row 0: A A B
    // Row 1: A A A
    // Row 2: . A A
    let a = Some(1u8);
    let b = Some(2u8);
    let mask = vec![a, a, b, a, a, a, None, a, a];
    let rects = greedy_rects(mask, 3, 3);
    assert_eq!(
        rects,
        vec![
            Rect { u: 0, v: 0, w: 2, h: 2, tex: 1 },
            Rect { u: 2, v: 0, w: 1, h: 1, tex: 2 },
            Rect { u: 2, v: 1, w: 1, h: 2, tex: 1 },
            Rect { u: 1, v: 2, w: 1, h: 1, tex: 1 },
        ]
    );
}
