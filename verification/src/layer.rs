//! Layer mix modes: how a layer composites onto the layers below it.
use vstd::prelude::*;

verus! {

/// How a layer composites onto the layers below it.
#[derive(Clone, Copy, Debug, PartialEq, Eq, Structural)]
pub enum MixMode {
    Normal,
    Multiply,
    Screen,
    /// Highest takes precedence.
    Lighten,
    /// Linear dodge.
    Add,
    /// Gate the layers below by this layer's luminance.
    Mask,
}

impl MixMode {
    /// Every mix mode, in menu order.
    pub const ALL: [MixMode; 6] = [
        MixMode::Normal,
        MixMode::Multiply,
        MixMode::Screen,
        MixMode::Lighten,
        MixMode::Add,
        MixMode::Mask,
    ];

    /// The mix mode's display name.
    pub fn name(self) -> (s: &'static str)
        ensures
            s@ == match self {
                MixMode::Normal => "Normal"@,
                MixMode::Multiply => "Multiply"@,
                MixMode::Screen => "Screen"@,
                MixMode::Lighten => "Lighten"@,
                MixMode::Add => "Add"@,
                MixMode::Mask => "Mask"@,
            },
    {
        match self {
            MixMode::Normal => "Normal",
            MixMode::Multiply => "Multiply",
            MixMode::Screen => "Screen",
            MixMode::Lighten => "Lighten",
            MixMode::Add => "Add",
            MixMode::Mask => "Mask",
        }
    }
}

} // verus!
