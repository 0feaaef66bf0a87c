use ledbetter::canvas::Canvas;
use ledbetter::shader::{copy_into, shaders, EXAMPLE, FEEDBACK_EXAMPLE, STARFIELD};

#[test]
fn shader_library_in_menu_order() {
    let s = shaders();
    assert_eq!(s.len(), 8);
    assert_eq!(s[0].name, "Plasma");
    assert_eq!(s[0].src, EXAMPLE);
    assert_eq!(s[1].name, "Tunnel (feedback)");
    assert_eq!(s[1].src, FEEDBACK_EXAMPLE);
    assert_eq!(s[7].src, STARFIELD);
    assert!(s.iter().all(|sh| sh.src.contains("void main()")));
}

#[test]
fn copy_into_flips_rows_and_drops_alpha() {
    // bottom row first, as GL reads back
    let buf = vec![1, 2, 3, 255, 4, 5, 6, 255, 7, 8, 9, 255, 10, 11, 12, 255];
    let mut c = Canvas::new(3, 1);
    copy_into(&buf, 2, 2, &mut c);
    assert_eq!(c.px, vec![[7, 8, 9], [10, 11, 12], [0, 0, 0]]);
    let mut tall = Canvas::new(2, 2);
    copy_into(&buf, 2, 2, &mut tall);
    assert_eq!(tall.px, vec![[7, 8, 9], [10, 11, 12], [1, 2, 3], [4, 5, 6]]);
}
