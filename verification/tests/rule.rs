use cellular_automata::rule::{
    Color, ColorMode, ColorModeKind, NeighborMode, Rule, SpawnMode, SpawnModeKind, Value,
};

fn color(red: f32, green: f32, blue: f32, alpha: f32) -> Color {
    Color([red.to_bits(), green.to_bits(), blue.to_bits(), alpha.to_bits()])
}

fn sample_rule() -> Rule {
    Rule {
        size: 8,
        spawn_mode: SpawnMode::Random(0.25f32.to_bits()),
        survival: Value::try_parse("4").unwrap(),
        birth: Value::try_parse("4-7").unwrap(),
        states: 5,
        neighbor_mode: NeighborMode::Moore,
        color_mode: ColorMode::StateLerp(color(1.0, 0.0, 0.5, 1.0), color(0.0, 0.0, 1.0, 1.0)),
    }
}

#[test]
fn names_of_neighbor_modes() {
    assert_eq!(NeighborMode::Moore.as_str(), "Moore");
    assert_eq!(NeighborMode::VonNeumann.as_str(), "VonNeumann");
}

#[test]
fn names_of_color_mode_kinds() {
    assert_eq!(ColorModeKind::Single.as_str(), "Single");
    assert_eq!(ColorModeKind::StateLerp.as_str(), "State Lerp");
    assert_eq!(ColorModeKind::DistToCenter.as_str(), "Distance To Center");
    assert_eq!(ColorModeKind::Neighbour.as_str(), "Neighbour Count Lerp");
}

#[test]
fn names_of_spawn_mode_kinds() {
    assert_eq!(SpawnModeKind::Random.as_str(), "Random");
    assert_eq!(SpawnModeKind::MengerSponge.as_str(), "Menger Sponge");
}

#[test]
fn kind_of_each_color_mode() {
    let a = color(0.1, 0.2, 0.3, 1.0);
    let b = color(0.4, 0.5, 0.6, 1.0);
    assert_eq!(ColorMode::Single(a).kind(), ColorModeKind::Single);
    assert_eq!(ColorMode::StateLerp(a, b).kind(), ColorModeKind::StateLerp);
    assert_eq!(ColorMode::DistToCenter(a, b).kind(), ColorModeKind::DistToCenter);
    assert_eq!(ColorMode::Neighbour(a, b).kind(), ColorModeKind::Neighbour);
}

#[test]
fn colors_of_each_color_mode() {
    let a = color(0.1, 0.2, 0.3, 1.0);
    let b = color(0.4, 0.5, 0.6, 1.0);
    assert_eq!(ColorMode::Single(a).colors(), (a, a));
    assert_eq!(ColorMode::StateLerp(a, b).colors(), (a, b));
    assert_eq!(ColorMode::DistToCenter(a, b).colors(), (a, b));
    assert_eq!(ColorMode::Neighbour(a, b).colors(), (a, b));
}

#[test]
fn one_color_seeds_both_colors() {
    let a = color(0.1, 0.2, 0.3, 1.0);
    let mut mode = ColorMode::Single(a);
    ColorModeKind::StateLerp.update(&mut mode);
    assert_eq!(mode, ColorMode::StateLerp(a, a));
    let mut mode = ColorMode::Single(a);
    ColorModeKind::DistToCenter.update(&mut mode);
    assert_eq!(mode, ColorMode::DistToCenter(a, a));
    let mut mode = ColorMode::Single(a);
    ColorModeKind::Neighbour.update(&mut mode);
    assert_eq!(mode, ColorMode::Neighbour(a, a));
}

#[test]
fn second_color_is_dropped_for_one_color() {
    let a = color(0.1, 0.2, 0.3, 1.0);
    let b = color(0.4, 0.5, 0.6, 1.0);
    let mut mode = ColorMode::Neighbour(a, b);
    ColorModeKind::Single.update(&mut mode);
    assert_eq!(mode, ColorMode::Single(a));
}

#[test]
fn two_colors_stay_between_modes_with_two() {
    let a = color(0.1, 0.2, 0.3, 1.0);
    let b = color(0.4, 0.5, 0.6, 1.0);
    let mut mode = ColorMode::StateLerp(a, b);
    ColorModeKind::DistToCenter.update(&mut mode);
    assert_eq!(mode, ColorMode::DistToCenter(a, b));
    ColorModeKind::Neighbour.update(&mut mode);
    assert_eq!(mode, ColorMode::Neighbour(a, b));
    ColorModeKind::StateLerp.update(&mut mode);
    assert_eq!(mode, ColorMode::StateLerp(a, b));
}

#[test]
fn update_to_the_same_color_kind_changes_nothing() {
    let a = color(0.1, 0.2, 0.3, 1.0);
    let b = color(0.4, 0.5, 0.6, 1.0);
    for mode in [
        ColorMode::Single(a),
        ColorMode::StateLerp(a, b),
        ColorMode::DistToCenter(a, b),
        ColorMode::Neighbour(a, b),
    ] {
        let mut updated = mode;
        mode.kind().update(&mut updated);
        assert_eq!(updated, mode);
    }
}

#[test]
fn kind_and_float_of_each_spawn_mode() {
    let chance = 0.75f32.to_bits();
    assert_eq!(SpawnMode::Random(chance).kind(), SpawnModeKind::Random);
    assert_eq!(SpawnMode::MengerSponge.kind(), SpawnModeKind::MengerSponge);
    assert_eq!(SpawnMode::Random(chance).float(), chance);
    assert_eq!(SpawnMode::MengerSponge.float(), 0);
    assert_eq!(f32::from_bits(SpawnMode::MengerSponge.float()), 0.0);
}

#[test]
fn chance_stays_in_random_mode() {
    let chance = 0.75f32.to_bits();
    let mut mode = SpawnMode::Random(chance);
    SpawnModeKind::Random.update(&mut mode);
    assert_eq!(mode, SpawnMode::Random(chance));
}

#[test]
fn chance_is_lost_in_the_sponge_and_zero_after_it() {
    let mut mode = SpawnMode::Random(0.75f32.to_bits());
    SpawnModeKind::MengerSponge.update(&mut mode);
    assert_eq!(mode, SpawnMode::MengerSponge);
    SpawnModeKind::Random.update(&mut mode);
    assert_eq!(mode, SpawnMode::Random(0.0f32.to_bits()));
    let mut mode = SpawnMode::MengerSponge;
    SpawnModeKind::MengerSponge.update(&mut mode);
    assert_eq!(mode, SpawnMode::MengerSponge);
}

#[test]
fn set_spawn_kind_leaves_the_rest_of_the_rule() {
    let mut rule = sample_rule();
    rule.set_spawn_kind(SpawnModeKind::MengerSponge);
    assert_eq!(rule, Rule { spawn_mode: SpawnMode::MengerSponge, ..sample_rule() });
    rule.set_spawn_kind(SpawnModeKind::Random);
    assert_eq!(rule, Rule { spawn_mode: SpawnMode::Random(0), ..sample_rule() });
}

#[test]
fn set_color_kind_leaves_the_rest_of_the_rule() {
    let first = color(1.0, 0.0, 0.5, 1.0);
    let second = color(0.0, 0.0, 1.0, 1.0);
    let mut rule = sample_rule();
    rule.set_color_kind(ColorModeKind::Neighbour);
    assert_eq!(rule, Rule { color_mode: ColorMode::Neighbour(first, second), ..sample_rule() });
    rule.set_color_kind(ColorModeKind::Single);
    assert_eq!(rule, Rule { color_mode: ColorMode::Single(first), ..sample_rule() });
    rule.set_color_kind(ColorModeKind::DistToCenter);
    assert_eq!(rule, Rule { color_mode: ColorMode::DistToCenter(first, first), ..sample_rule() });
}

#[test]
fn rule_at_the_start() {
    let rule = Rule::default();
    assert_eq!(rule.size, 255);
    assert_eq!(rule.spawn_mode, SpawnMode::MengerSponge);
    assert_eq!(rule.survival, Value::from(vec![4]));
    assert_eq!(rule.survival.to_string(), "4");
    assert_eq!(rule.birth, Value::from(vec![4, 5, 6, 7]));
    assert_eq!(rule.birth.to_string(), "4-7");
    assert_eq!(rule.states, 5);
    assert_eq!(rule.neighbor_mode, NeighborMode::Moore);
    let of_255 = |value: u8| value as f32 / u8::MAX as f32;
    assert_eq!(
        rule.color_mode,
        ColorMode::StateLerp(
            color(of_255(176), of_255(0), of_255(188), of_255(255)),
            color(of_255(99), of_255(0), of_255(104), of_255(255)),
        )
    );
}
