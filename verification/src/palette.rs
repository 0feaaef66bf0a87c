//! Curated named palettes for the palette-driven effects. Applying one sets a
//! layer's colour count and swatches; the swatches stay editable afterwards.
use vstd::prelude::*;

verus! {

/// A named list of colours.
pub struct Palette {
    pub name: &'static str,
    pub colors: &'static [[u8; 3]],
}

/// The colour count a layer gets from a palette of `len` colours: `len`
/// clamped to 2..=8.
pub open spec fn clamped_count(len: int) -> int {
    if len < 2 {
        2
    } else if len > 8 {
        8
    } else {
        len
    }
}

/// Copy palette `pal` into a layer's colour count and swatches: the count
/// becomes the palette's size clamped to 2..=8, and the first swatches (as
/// many as the palette has, at most 8) take the palette's colours; the other
/// swatches keep theirs.
pub fn apply(n_colors: &mut u8, colors: &mut [[u8; 3]; 8], pal: &Palette)
    ensures
        *final(n_colors) as int == clamped_count(pal.colors@.len() as int),
        final(colors)@ == Seq::new(
            8,
            |i: int|
                if i < pal.colors@.len() {
                    pal.colors@[i]
                } else {
                    old(colors)@[i]
                },
        ),
{
    let len = pal.colors.len();
    let n: usize = if len < 2 {
        2
    } else if len > 8 {
        8
    } else {
        len
    };
    *n_colors = n as u8;
    let m: usize = if len < n {
        len
    } else {
        n
    };
    let mut i: usize = 0;
    while i < m
        invariant
            m <= 8,
            m <= pal.colors@.len(),
            m == pal.colors@.len() || m == 8,
            i <= m,
            colors@ == Seq::new(
                8,
                |k: int|
                    if k < i {
                        pal.colors@[k]
                    } else {
                        old(colors)@[k]
                    },
            ),
        decreases m - i,
    {
        colors[i] = pal.colors[i];
        assert(colors@ =~= Seq::new(
            8,
            |k: int|
                if k < i + 1 {
                    pal.colors@[k]
                } else {
                    old(colors)@[k]
                },
        ));
        i = i + 1;
    }
    assert(colors@ =~= Seq::new(
        8,
        |k: int|
            if k < pal.colors@.len() {
                pal.colors@[k]
            } else {
                old(colors)@[k]
            },
    ));
}

/// Whether every palette holds between 2 and 8 colours.
pub open spec fn all_fit(pals: Seq<Palette>) -> bool {
    forall|i: int| 0 <= i < pals.len() ==> 2 <= (#[trigger] pals[i]).colors@.len() <= 8
}

/// Palette `p` has name `name` and colours `colors`.
pub open spec fn palette_is(p: Palette, name: Seq<char>, colors: Seq<[u8; 3]>) -> bool {
    p.name@ == name && p.colors@ == colors
}

/// The curated palettes, in menu order.
pub fn palettes() -> (pals: Vec<Palette>)
    ensures
        pals@.len() == 21,
        all_fit(pals@),
        palette_is(pals@[0], "Primaries"@, seq![[255u8, 0u8, 0u8], [0u8, 255u8, 0u8], [0u8, 0u8, 255u8]]),
        palette_is(pals@[1], "Secondaries"@, seq![[0u8, 255u8, 255u8], [255u8, 0u8, 255u8], [255u8, 255u8, 0u8]]),
        palette_is(pals@[2], "Rainbow"@, seq![[255u8, 0u8, 0u8], [255u8, 127u8, 0u8], [255u8, 255u8, 0u8], [0u8, 200u8, 0u8], [0u8, 0u8, 255u8], [75u8, 0u8, 130u8], [148u8, 0u8, 211u8]]),
        palette_is(pals@[3], "Pastels"@, seq![[255u8, 179u8, 186u8], [255u8, 223u8, 186u8], [255u8, 255u8, 186u8], [186u8, 255u8, 201u8], [186u8, 225u8, 255u8]]),
        palette_is(pals@[4], "Spring"@, seq![[255u8, 183u8, 197u8], [168u8, 230u8, 207u8], [220u8, 237u8, 193u8], [255u8, 211u8, 182u8]]),
        palette_is(pals@[5], "Summer"@, seq![[255u8, 209u8, 102u8], [6u8, 214u8, 160u8], [17u8, 138u8, 178u8], [239u8, 71u8, 111u8]]),
        palette_is(pals@[6], "Autumn"@, seq![[123u8, 36u8, 28u8], [186u8, 77u8, 32u8], [214u8, 140u8, 42u8], [122u8, 99u8, 42u8], [80u8, 50u8, 20u8]]),
        palette_is(pals@[7], "Winter"@, seq![[8u8, 24u8, 58u8], [37u8, 78u8, 112u8], [102u8, 155u8, 188u8], [191u8, 215u8, 234u8], [255u8, 255u8, 255u8]]),
        palette_is(pals@[8], "Dawn"@, seq![[32u8, 30u8, 60u8], [92u8, 60u8, 90u8], [199u8, 108u8, 108u8], [244u8, 162u8, 97u8], [255u8, 214u8, 153u8]]),
        palette_is(pals@[9], "Sunset"@, seq![[255u8, 94u8, 77u8], [255u8, 149u8, 0u8], [255u8, 0u8, 110u8], [131u8, 56u8, 236u8]]),
        palette_is(pals@[10], "Ocean"@, seq![[3u8, 4u8, 94u8], [0u8, 119u8, 182u8], [0u8, 180u8, 216u8], [72u8, 202u8, 228u8], [202u8, 240u8, 248u8]]),
        palette_is(pals@[11], "Forest"@, seq![[20u8, 83u8, 45u8], [45u8, 106u8, 79u8], [82u8, 121u8, 111u8], [116u8, 143u8, 84u8], [180u8, 167u8, 100u8]]),
        palette_is(pals@[12], "Fire"@, seq![[40u8, 0u8, 0u8], [180u8, 0u8, 0u8], [255u8, 80u8, 0u8], [255u8, 190u8, 0u8], [255u8, 255u8, 200u8]]),
        palette_is(pals@[13], "Ice"@, seq![[3u8, 4u8, 94u8], [2u8, 62u8, 138u8], [0u8, 150u8, 199u8], [144u8, 224u8, 239u8], [240u8, 252u8, 255u8]]),
        palette_is(pals@[14], "Neon"@, seq![[255u8, 0u8, 170u8], [0u8, 255u8, 255u8], [170u8, 0u8, 255u8], [0u8, 255u8, 102u8]]),
        palette_is(pals@[15], "Vaporwave"@, seq![[255u8, 113u8, 206u8], [1u8, 205u8, 254u8], [5u8, 255u8, 161u8], [185u8, 103u8, 255u8]]),
        palette_is(pals@[16], "Candy"@, seq![[255u8, 105u8, 180u8], [255u8, 182u8, 193u8], [135u8, 206u8, 250u8], [152u8, 251u8, 152u8]]),
        palette_is(pals@[17], "Earth"@, seq![[110u8, 68u8, 45u8], [160u8, 120u8, 85u8], [200u8, 170u8, 120u8], [120u8, 140u8, 90u8]]),
        palette_is(pals@[18], "Grayscale"@, seq![[0u8, 0u8, 0u8], [64u8, 64u8, 64u8], [128u8, 128u8, 128u8], [192u8, 192u8, 192u8], [255u8, 255u8, 255u8]]),
        palette_is(pals@[19], "Black/White"@, seq![[0u8, 0u8, 0u8], [255u8, 255u8, 255u8]]),
        palette_is(pals@[20], "Police"@, seq![[255u8, 0u8, 0u8], [0u8, 0u8, 255u8]]),
{
    let mut v: Vec<Palette> = Vec::new();
    v.push(Palette { name: "Primaries", colors: &[[255, 0, 0], [0, 255, 0], [0, 0, 255]] });
    v.push(Palette { name: "Secondaries", colors: &[[0, 255, 255], [255, 0, 255], [255, 255, 0]] });
    v.push(Palette { name: "Rainbow", colors: &[[255, 0, 0], [255, 127, 0], [255, 255, 0], [0, 200, 0], [0, 0, 255], [75, 0, 130], [148, 0, 211]] });
    v.push(Palette { name: "Pastels", colors: &[[255, 179, 186], [255, 223, 186], [255, 255, 186], [186, 255, 201], [186, 225, 255]] });
    v.push(Palette { name: "Spring", colors: &[[255, 183, 197], [168, 230, 207], [220, 237, 193], [255, 211, 182]] });
    v.push(Palette { name: "Summer", colors: &[[255, 209, 102], [6, 214, 160], [17, 138, 178], [239, 71, 111]] });
    v.push(Palette { name: "Autumn", colors: &[[123, 36, 28], [186, 77, 32], [214, 140, 42], [122, 99, 42], [80, 50, 20]] });
    v.push(Palette { name: "Winter", colors: &[[8, 24, 58], [37, 78, 112], [102, 155, 188], [191, 215, 234], [255, 255, 255]] });
    v.push(Palette { name: "Dawn", colors: &[[32, 30, 60], [92, 60, 90], [199, 108, 108], [244, 162, 97], [255, 214, 153]] });
    v.push(Palette { name: "Sunset", colors: &[[255, 94, 77], [255, 149, 0], [255, 0, 110], [131, 56, 236]] });
    v.push(Palette { name: "Ocean", colors: &[[3, 4, 94], [0, 119, 182], [0, 180, 216], [72, 202, 228], [202, 240, 248]] });
    v.push(Palette { name: "Forest", colors: &[[20, 83, 45], [45, 106, 79], [82, 121, 111], [116, 143, 84], [180, 167, 100]] });
    v.push(Palette { name: "Fire", colors: &[[40, 0, 0], [180, 0, 0], [255, 80, 0], [255, 190, 0], [255, 255, 200]] });
    v.push(Palette { name: "Ice", colors: &[[3, 4, 94], [2, 62, 138], [0, 150, 199], [144, 224, 239], [240, 252, 255]] });
    v.push(Palette { name: "Neon", colors: &[[255, 0, 170], [0, 255, 255], [170, 0, 255], [0, 255, 102]] });
    v.push(Palette { name: "Vaporwave", colors: &[[255, 113, 206], [1, 205, 254], [5, 255, 161], [185, 103, 255]] });
    v.push(Palette { name: "Candy", colors: &[[255, 105, 180], [255, 182, 193], [135, 206, 250], [152, 251, 152]] });
    v.push(Palette { name: "Earth", colors: &[[110, 68, 45], [160, 120, 85], [200, 170, 120], [120, 140, 90]] });
    v.push(Palette { name: "Grayscale", colors: &[[0, 0, 0], [64, 64, 64], [128, 128, 128], [192, 192, 192], [255, 255, 255]] });
    v.push(Palette { name: "Black/White", colors: &[[0, 0, 0], [255, 255, 255]] });
    v.push(Palette { name: "Police", colors: &[[255, 0, 0], [0, 0, 255]] });
    assert(all_fit(v@));
    v
}

} // verus!
