use ledbetter::camera::{centroid_moments, Frame};

fn frame(w: usize, h: usize, fill: u8) -> Frame {
    Frame { w, h, lum: vec![fill; w * h] }
}

#[test]
fn centroid_finds_bright_pixel_over_ambient() {
    let base = frame(5, 5, 20); // ambient
    let mut f = frame(5, 5, 20);
    let (x, y) = (3usize, 1usize); // one bright pixel in a 5-wide frame
    f.lum[y * 5 + x] = 240;
    let m = centroid_moments(&f, &base, 50).unwrap();
    assert_eq!((m.sum_x, m.sum_y, m.weight), (3 * 220, 220, 220));
    let centroid = (m.sum_x as f32 / m.weight as f32, m.sum_y as f32 / m.weight as f32);
    assert_eq!(centroid, (3.0, 1.0));
}

#[test]
fn centroid_none_when_below_threshold() {
    let base = frame(4, 4, 20);
    let mut f = frame(4, 4, 20);
    f.lum[0] = 40; // only +20 over ambient, threshold 50
    assert!(centroid_moments(&f, &base, 50).is_none());
}

#[test]
fn moments_weigh_by_brightness() {
    let base = frame(4, 1, 0);
    let mut f = frame(4, 1, 0);
    f.lum[0] = 100;
    f.lum[2] = 200;
    // darker than the baseline counts for nothing
    let m = centroid_moments(&f, &base, 10).unwrap();
    assert_eq!((m.sum_x, m.sum_y, m.weight), (400, 0, 300));
    let brighter_base = Frame { w: 4, h: 1, lum: vec![150, 150, 150, 150] };
    let m = centroid_moments(&f, &brighter_base, 10).unwrap();
    assert_eq!((m.sum_x, m.sum_y, m.weight), (100, 0, 50));
}
