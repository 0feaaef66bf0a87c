//! The crossfader's fade curves: how two decks' rendered canvases are blended
//! into the output canvas.
use vstd::prelude::*;

verus! {

/// How the crossfader blends deck A into deck B.
#[derive(Clone, Copy, Debug, PartialEq, Eq, Structural)]
pub enum FadeType {
    /// Geometric: darkens through the middle (a^(1-p) * b^p).
    Multiply,
    /// Linear from A to B.
    Cross,
    /// Additive: bright through the middle.
    White,
    /// Through black at the middle.
    Black,
}

impl FadeType {
    /// Every fade type, in menu order.
    pub const ALL: [FadeType; 4] = [FadeType::Multiply, FadeType::Cross, FadeType::White, FadeType::Black];

    /// The fade type's display name.
    pub fn name(self) -> (s: &'static str)
        ensures
            s@ == match self {
                FadeType::Multiply => "Multiply"@,
                FadeType::Cross => "Cross"@,
                FadeType::White => "White"@,
                FadeType::Black => "Black"@,
            },
    {
        match self {
            FadeType::Multiply => "Multiply",
            FadeType::Cross => "Cross",
            FadeType::White => "White",
            FadeType::Black => "Black",
        }
    }
}

} // verus!
