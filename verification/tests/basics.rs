use text_engine::geom::{div_round, gen_quad, vec2t, Color, Vec2, Vertex};
use text_engine::script::{make_tag, Direction, Locale, Script};
use text_engine::segmentation::Segmentation;

#[test]
fn color_channels() {
    let c = Color::srgb8(1, 2, 3, 4);
    assert_eq!(c.r, 1);
    assert_eq!(c.g, 2);
    assert_eq!(c.b, 3);
    assert_eq!(c.a, 4);
}

#[test]
fn quad_corners() {
    let c = Color::srgb8(9, 9, 9, 9);
    let q = gen_quad(1, 2, 3, 4, 5, 6, c);
    assert_eq!(q[0], Vertex { x: 1, y: 2, u: 5, v: 6, color: c });
    assert_eq!(q[1], Vertex { x: 1, y: 6, u: 5, v: 10, color: c });
    assert_eq!(q[2], Vertex { x: 4, y: 2, u: 8, v: 6, color: c });
    assert_eq!(q[3], Vertex { x: 4, y: 6, u: 8, v: 10, color: c });
}

#[test]
fn div_round_rounds_to_nearest() {
    assert_eq!(div_round(0, 64), 0);
    assert_eq!(div_round(31, 64), 0);
    assert_eq!(div_round(32, 64), 1);
    assert_eq!(div_round(65, 64), 1);
    assert_eq!(div_round(96, 64), 2);
    assert_eq!(div_round(640, 64), 10);
}

#[test]
fn vec2_helpers() {
    let v: Vec2<i32> = vec2t(3, 4);
    assert_eq!(v.x, 3);
    assert_eq!(v.y, 4);
    let w = v.map(|a: i32| a * 2);
    assert_eq!(w.x, 6);
    assert_eq!(w.y, 8);
    let s = v.map2(w, |a: i32, b: i32| a + b);
    assert_eq!(s.x, 9);
    assert_eq!(s.y, 12);
}

#[test]
fn tag_packing() {
    // 'L' = 0x4C, 'a' = 0x61, 't' = 0x74, 'n' = 0x6E, first byte lowest.
    assert_eq!(make_tag(*b"Latn"), 0x6E74_614C);
    assert_eq!(Script::new(b"Latn").0, 0x6E74_614C);
    assert_eq!(make_tag(*b"Zyyy"), make_tag(*b"Zyyy"));
    assert_ne!(make_tag(*b"Arab"), make_tag(*b"Latn"));
}

#[test]
fn directions() {
    assert!(Direction::LeftToRight.is_horizontal());
    assert!(Direction::RightToLeft.is_horizontal());
    assert!(!Direction::TopToBottom.is_horizontal());
    assert!(Direction::TopToBottom.is_vertical());
    assert!(Direction::BottomToTop.is_vertical());
    assert!(!Direction::LeftToRight.is_vertical());
}

#[test]
fn locale_fields() {
    let l = Locale::new(b"en", Script::new(b"Latn"), Direction::LeftToRight);
    assert_eq!(l.lang, b"en".to_vec());
    assert_eq!(l.script, Script::new(b"Latn"));
    assert!(matches!(l.direction, Direction::LeftToRight));
}

#[test]
fn segmentation_iteration() {
    let seg = Segmentation { data: vec![10i32, 20, 30], index: vec![0u32, 4, 7, 9] };
    assert_eq!(seg.span_count(), 3);
    assert_eq!(seg.iter_index(), vec![(0, 4), (4, 7), (7, 9)]);
    assert_eq!(seg.iter(), vec![((0, 4), 10), ((4, 7), 20), ((7, 9), 30)]);
    let pairs = seg.chunk2();
    assert_eq!(pairs.len(), 1);
    assert_eq!(pairs[0], ([0, 4, 7], [10, 20]));
}
