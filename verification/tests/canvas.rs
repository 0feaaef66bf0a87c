use ledbetter::canvas::Canvas;

#[test]
fn new_canvas_is_black() {
    let c = Canvas::new(3, 2);
    assert_eq!((c.w, c.h), (3, 2));
    assert_eq!(c.px.len(), 6);
    assert!(c.px.iter().all(|p| *p == [0, 0, 0]));
}

#[test]
fn set_then_at_reads_back() {
    let mut c = Canvas::new(4, 3);
    c.set(2, 1, [10, 20, 30]);
    assert_eq!(c.at(2, 1), [10, 20, 30]);
    assert_eq!(c.px[6], [10, 20, 30]); // row-major: 1 * 4 + 2
    assert_eq!(c.at(1, 2), [0, 0, 0]);
}
