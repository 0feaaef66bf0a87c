use ledbetter::crossfader::FadeType;
use ledbetter::effect::{Effect, DIR_ARROWS};
use ledbetter::layer::MixMode;

#[test]
fn fade_type_names() {
    let names: Vec<&str> = FadeType::ALL.iter().map(|f| f.name()).collect();
    assert_eq!(names, vec!["Multiply", "Cross", "White", "Black"]);
}

#[test]
fn effect_names_and_direction() {
    let names: Vec<&str> = Effect::ALL.iter().map(|e| e.name()).collect();
    assert_eq!(names, vec!["Color", "Gradient", "Wave", "Plasma", "Radial", "Sparkle"]);
    let dir: Vec<bool> = Effect::ALL.iter().map(|e| e.directional()).collect();
    assert_eq!(dir, vec![false, true, true, false, false, false]);
}

#[test]
fn mix_mode_names() {
    let names: Vec<&str> = MixMode::ALL.iter().map(|m| m.name()).collect();
    assert_eq!(names, vec!["Normal", "Multiply", "Screen", "Lighten", "Add", "Mask"]);
}

#[test]
fn direction_arrows_turn_clockwise_from_east() {
    assert_eq!(DIR_ARROWS[0], "→");
    assert_eq!(DIR_ARROWS[2], "↓");
    assert_eq!(DIR_ARROWS.len(), 8);
}
