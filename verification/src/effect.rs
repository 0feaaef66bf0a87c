//! The effect generators a layer can run. Effects self-animate from the beat
//! phase; what each one draws is computed outside the verified core.
use vstd::prelude::*;

verus! {

/// Arrow glyphs for the eight directions, in 45-degree steps (screen space,
/// y down).
pub const DIR_ARROWS: [&'static str; 8] = ["→", "↘", "↓", "↙", "←", "↖", "↑", "↗"];

/// A content generator that fills the canvas each frame.
#[derive(Clone, Copy, Debug, PartialEq, Eq, Structural)]
pub enum Effect {
    Color,
    Gradient,
    Wave,
    Plasma,
    Radial,
    Sparkle,
}

/// Whether effect `e` draws along a direction (and so exposes the direction,
/// pitch and width controls).
pub open spec fn is_directional(e: Effect) -> bool {
    e == Effect::Gradient || e == Effect::Wave
}

impl Effect {
    /// Every effect, in menu order.
    pub const ALL: [Effect; 6] = [
        Effect::Color,
        Effect::Gradient,
        Effect::Wave,
        Effect::Plasma,
        Effect::Radial,
        Effect::Sparkle,
    ];

    /// The effect's display name.
    pub fn name(self) -> (s: &'static str)
        ensures
            s@ == match self {
                Effect::Color => "Color"@,
                Effect::Gradient => "Gradient"@,
                Effect::Wave => "Wave"@,
                Effect::Plasma => "Plasma"@,
                Effect::Radial => "Radial"@,
                Effect::Sparkle => "Sparkle"@,
            },
    {
        match self {
            Effect::Color => "Color",
            Effect::Gradient => "Gradient",
            Effect::Wave => "Wave",
            Effect::Plasma => "Plasma",
            Effect::Radial => "Radial",
            Effect::Sparkle => "Sparkle",
        }
    }

    /// Whether this effect exposes the direction + pitch + width controls.
    pub fn directional(self) -> (b: bool)
        ensures
            b == is_directional(self),
    {
        match self {
            Effect::Gradient | Effect::Wave => true,
            _ => false,
        }
    }
}

} // verus!
