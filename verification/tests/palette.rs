use ledbetter::palette::{apply, palettes};

fn default_colors() -> [[u8; 3]; 8] {
    [
        [255, 0, 0],
        [0, 255, 0],
        [0, 0, 255],
        [255, 255, 0],
        [0, 255, 255],
        [255, 0, 255],
        [255, 255, 255],
        [255, 128, 0],
    ]
}

#[test]
fn every_palette_fits_and_has_two_plus_colors() {
    for p in palettes().iter() {
        assert!((2..=8).contains(&p.colors.len()), "{} has {}", p.name, p.colors.len());
    }
}

#[test]
fn apply_sets_count_and_colors() {
    let mut n_colors = 3u8;
    let mut colors = default_colors();
    apply(&mut n_colors, &mut colors, &palettes()[20]); // Police
    assert_eq!(n_colors, 2);
    assert_eq!(colors[0], [255, 0, 0]);
    assert_eq!(colors[1], [0, 0, 255]);
}

#[test]
fn apply_keeps_swatches_past_the_palette() {
    let mut n_colors = 8u8;
    let mut colors = default_colors();
    let pals = palettes();
    assert_eq!(pals[3].name, "Pastels");
    apply(&mut n_colors, &mut colors, &pals[3]);
    assert_eq!(n_colors, 5);
    assert_eq!(colors[4], [186, 225, 255]);
    assert_eq!(colors[5], [255, 0, 255]);
    assert_eq!(colors[7], [255, 128, 0]);
}

#[test]
fn palettes_are_the_curated_list() {
    let pals = palettes();
    assert_eq!(pals.len(), 21);
    assert_eq!(pals[0].name, "Primaries");
    assert_eq!(pals[2].colors.len(), 7);
    assert_eq!(pals[20].name, "Police");
}
