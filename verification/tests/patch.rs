use ledbetter::patch::{
    derive_checked, matrix_cells, universe_frames, Output, Pixel, PixelFormat, Wiring,
};

/// A straight strip of `n` pixels from `start` to `end` in canvas space.
fn line(format: PixelFormat, n: usize, start: (f32, f32), end: (f32, f32)) -> Output<f32> {
    let positions = (0..n)
        .map(|i| {
            let t = if n <= 1 { 0.0 } else { i as f32 / (n - 1) as f32 };
            (start.0 + (end.0 - start.0) * t, start.1 + (end.1 - start.1) * t)
        })
        .collect();
    Output { format, positions }
}

#[test]
fn mono_encodes_luminance() {
    let mut out = [0u8; 1];
    PixelFormat::Mono.encode([255, 255, 255], &mut out);
    assert_eq!(out[0], 255);
    PixelFormat::Mono.encode([0, 0, 0], &mut out);
    assert_eq!(out[0], 0);
}

#[test]
fn grb_swaps_red_and_green() {
    let mut out = [0u8; 3];
    PixelFormat::Grb.encode([10, 20, 30], &mut out);
    assert_eq!(out, [20, 10, 30]);
}

#[test]
fn rgbw_extracts_white() {
    let mut out = [0u8; 4];
    PixelFormat::Rgbw.encode([40, 60, 50], &mut out);
    assert_eq!(out, [0, 20, 10, 40]); // w=min=40 subtracted
}

#[test]
fn derive_rolls_universe_when_full() {
    // 200 RGB pixels = 600 channels > 512, so pixel ~171 starts universe+1.
    let out = line(PixelFormat::Rgb, 200, (0.0, 0.0), (1.0, 0.0));
    let px = ledbetter::patch::derive(4, &[out]);
    assert_eq!(px[0].universe, 4);
    assert_eq!(px[0].channel, 0);
    // 170 RGB pixels fill 510 channels of universe 4 (indices 0..=169);
    // pixel 170 needs 3 more than the 2 left, so it rolls to universe 5.
    assert_eq!(px[169].universe, 4);
    assert_eq!(px[169].channel, 507);
    assert_eq!(px[170].universe, 5);
    assert_eq!(px[170].channel, 0);
}

#[test]
fn channels_per_format() {
    assert_eq!(PixelFormat::Mono.channels(), 1);
    assert_eq!(PixelFormat::Rgb.channels(), 3);
    assert_eq!(PixelFormat::Grb.channels(), 3);
    assert_eq!(PixelFormat::Rgbw.channels(), 4);
}

#[test]
fn mono_weights_green_most() {
    let mut out = [7u8; 2];
    PixelFormat::Mono.encode([0, 100, 0], &mut out);
    // round(0.7152 * 100) = 72; the second slot is untouched
    assert_eq!(out, [72, 7]);
    PixelFormat::Mono.encode([100, 0, 0], &mut out);
    assert_eq!(out[0], 21); // round(21.26)
    PixelFormat::Mono.encode([0, 0, 100], &mut out);
    assert_eq!(out[0], 7); // round(7.22)
}

#[test]
fn rgb_copies_and_leaves_the_rest() {
    let mut out = [9u8; 5];
    PixelFormat::Rgb.encode([1, 2, 3], &mut out);
    assert_eq!(out, [1, 2, 3, 9, 9]);
}

#[test]
fn derive_mixes_formats_and_keeps_positions() {
    // one Mono pixel, then RGBW pixels: the 128th RGBW pixel would end at
    // 1 + 128 * 4 = 513 > 512, so it starts the next universe
    let mono = Output { format: PixelFormat::Mono, positions: vec![(0.5f32, 0.25f32)] };
    let rgbw = line(PixelFormat::Rgbw, 130, (0.0, 1.0), (1.0, 1.0));
    let px: Vec<Pixel<f32>> = ledbetter::patch::derive(10, &[mono, rgbw]);
    assert_eq!(px.len(), 131);
    assert_eq!((px[0].universe, px[0].channel), (10, 0));
    assert_eq!((px[0].u, px[0].v), (0.5, 0.25));
    assert_eq!(px[0].format, PixelFormat::Mono);
    assert_eq!((px[1].universe, px[1].channel), (10, 1));
    assert_eq!(px[1].format, PixelFormat::Rgbw);
    assert_eq!((px[127].universe, px[127].channel), (10, 505));
    assert_eq!((px[128].universe, px[128].channel), (11, 0));
    assert_eq!((px[130].universe, px[130].channel), (11, 8));
    assert_eq!((px[130].u, px[130].v), (1.0, 1.0));
}

#[test]
fn derive_checked_refuses_universe_overflow() {
    let out = line(PixelFormat::Rgb, 200, (0.0, 0.0), (1.0, 0.0));
    assert!(derive_checked(65535, &[out]).is_none());
    let small = line(PixelFormat::Rgb, 170, (0.0, 0.0), (1.0, 0.0));
    let px = derive_checked(65535, &[small]).unwrap();
    assert_eq!(px[169].universe, 65535);
    assert_eq!(px[169].channel, 507);
}

#[test]
fn derive_of_nothing_is_empty() {
    let none: Vec<Output<f32>> = Vec::new();
    assert!(ledbetter::patch::derive(3, &none).is_empty());
    let empty = Output::<f32> { format: PixelFormat::Rgb, positions: Vec::new() };
    assert!(ledbetter::patch::derive(3, &[empty]).is_empty());
}

#[test]
fn serpentine_reverses_odd_rows() {
    let (w, h) = (4usize, 2usize);
    let positions: Vec<(f32, f32)> = matrix_cells(w, h, Wiring::Serpentine)
        .into_iter()
        .map(|(px, y)| (px as f32 / (w - 1) as f32, y as f32 / (h - 1) as f32))
        .collect();
    // row 0 left->right: index 0 at u=0, index 3 at u=1
    assert_eq!(positions[0].0, 0.0);
    assert_eq!(positions[3].0, 1.0);
    // row 1 reversed: index 4 at u=1 (right), index 7 at u=0 (left)
    assert_eq!(positions[4].0, 1.0);
    assert_eq!(positions[7].0, 0.0);
}

#[test]
fn serpentine_cells_reverse_odd_rows() {
    let cells = matrix_cells(4, 2, Wiring::Serpentine);
    assert_eq!(cells, vec![(0, 0), (1, 0), (2, 0), (3, 0), (3, 1), (2, 1), (1, 1), (0, 1)]);
    let cells = matrix_cells(3, 2, Wiring::Contiguous);
    assert_eq!(cells, vec![(0, 0), (1, 0), (2, 0), (0, 1), (1, 1), (2, 1)]);
    assert!(matrix_cells(0, 5, Wiring::Serpentine).is_empty());
}

fn pixel(universe: u16, channel: usize, format: PixelFormat) -> Pixel<f32> {
    Pixel { u: 0.0, v: 0.0, universe, channel, format }
}

#[test]
fn universe_frames_pack_each_universe() {
    let pixels = vec![
        pixel(7, 0, PixelFormat::Rgb),
        pixel(3, 510, PixelFormat::Grb), // runs past 512: dropped
        pixel(7, 3, PixelFormat::Rgbw),
        pixel(2, 511, PixelFormat::Mono),
        pixel(7, 1, PixelFormat::Rgb), // overwrites part of the first pixel
    ];
    let colors = vec![[10, 20, 30], [1, 2, 3], [50, 60, 40], [255, 255, 255], [4, 5, 6]];
    let frames = universe_frames(&pixels, &colors);
    assert_eq!(frames.len(), 2);
    assert_eq!(frames[0].0, 2);
    assert_eq!(frames[0].1.len(), 512);
    assert_eq!(frames[0].1[511], 255);
    assert!(frames[0].1[..511].iter().all(|b| *b == 0));
    assert_eq!(frames[1].0, 7);
    assert_eq!(&frames[1].1[..8], &[10, 4, 5, 6, 20, 0, 40, 0]);
    assert!(frames[1].1[8..].iter().all(|b| *b == 0));
}
