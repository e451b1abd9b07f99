use cellular_automata::gpu_rule::GPURule;
use cellular_automata::rule::{Color, ColorMode, NeighborMode, Rule, SpawnMode, Value};

fn color(red: f32, green: f32, blue: f32, alpha: f32) -> Color {
    Color([red.to_bits(), green.to_bits(), blue.to_bits(), alpha.to_bits()])
}

fn sample() -> Rule {
    Rule {
        size: 8,
        spawn_mode: SpawnMode::Random(0.25f32.to_bits()),
        survival: Value::try_parse("4").unwrap(),
        birth: Value::try_parse("4-7").unwrap(),
        states: 5,
        neighbor_mode: NeighborMode::Moore,
        color_mode: ColorMode::StateLerp(color(1.0, 0.0, 0.5, 1.0), color(0.0, 0.0, 1.0, 1.0)),
    }
}

#[test]
fn record_of_a_rule() {
    let record = GPURule::from(&sample());
    assert_eq!(record.size, 8);
    assert_eq!(record.spawn_mode, 0);
    assert_eq!(f32::from_bits(record.spawn_chance), 0.25);
    assert_eq!(record.survival, 0x10);
    assert_eq!(record.birth, 0xf0);
    assert_eq!(record.states, 5);
    assert_eq!(record.neighbor_mode, 0);
    assert_eq!(record.color_mode, 1);
    assert_eq!(record.color0.map(f32::from_bits), [1.0, 0.0, 0.5, 1.0]);
    assert_eq!(record.color1.map(f32::from_bits), [0.0, 0.0, 1.0, 1.0]);
}

#[test]
fn record_of_the_sponge_has_no_chance() {
    let record = GPURule::from(&Rule { spawn_mode: SpawnMode::MengerSponge, ..sample() });
    assert_eq!(record.spawn_mode, 1);
    assert_eq!(record.spawn_chance, 0);
}

#[test]
fn record_of_the_other_neighbor_mode() {
    let record = GPURule::from(&Rule { neighbor_mode: NeighborMode::VonNeumann, ..sample() });
    assert_eq!(record.neighbor_mode, 1);
}

#[test]
fn record_of_each_color_mode() {
    let a = color(0.5, 0.25, 0.125, 1.0);
    let b = color(0.0, 1.0, 0.0, 0.5);
    let record = GPURule::from(&Rule { color_mode: ColorMode::Single(a), ..sample() });
    assert_eq!((record.color_mode, record.color0, record.color1), (0, a.0, [0, 0, 0, 0]));
    let record = GPURule::from(&Rule { color_mode: ColorMode::StateLerp(a, b), ..sample() });
    assert_eq!((record.color_mode, record.color0, record.color1), (1, a.0, b.0));
    let record = GPURule::from(&Rule { color_mode: ColorMode::DistToCenter(a, b), ..sample() });
    assert_eq!((record.color_mode, record.color0, record.color1), (2, a.0, b.0));
    let record = GPURule::from(&Rule { color_mode: ColorMode::Neighbour(a, b), ..sample() });
    assert_eq!((record.color_mode, record.color0, record.color1), (3, a.0, b.0));
}

#[test]
fn words_are_in_the_order_of_the_fields() {
    let record = GPURule::from(&sample());
    assert_eq!(
        record.words(),
        [
            8,
            0,
            0.25f32.to_bits(),
            0x10,
            0xf0,
            5,
            0,
            1,
            1.0f32.to_bits(),
            0,
            0.5f32.to_bits(),
            1.0f32.to_bits(),
            0,
            0,
            1.0f32.to_bits(),
            1.0f32.to_bits(),
        ]
    );
}

#[test]
fn bytes_are_the_words_in_the_order_of_the_machine() {
    let record = GPURule::from(&sample());
    let bytes = record.to_bytes();
    assert_eq!(bytes.len(), 64);
    let expected: Vec<u8> = record.words().iter().flat_map(|word| word.to_ne_bytes()).collect();
    assert_eq!(bytes, expected);
    let little: Vec<u8> = record.words().iter().flat_map(|word| word.to_le_bytes()).collect();
    let big: Vec<u8> = record.words().iter().flat_map(|word| word.to_be_bytes()).collect();
    assert!(bytes == little || bytes == big);
    assert_ne!(little, big);
}

#[test]
fn records_are_equal_when_all_words_are() {
    let record = GPURule::from(&sample());
    assert!(record == GPURule::from(&sample()));
    assert!(record != GPURule { states: 6, ..record });
    assert!(record != GPURule { color1: [0, 0, 1, 1.0f32.to_bits()], ..record });
    assert!(record != GPURule { color0: [1.0f32.to_bits(), 0, 0.5f32.to_bits(), 0], ..record });
}

#[test]
fn first_sync_reports_a_change() {
    let mut last = None;
    let (record, changed) = GPURule::sync(&sample(), &mut last);
    assert!(changed);
    assert!(record == GPURule::from(&sample()));
    assert!(last == Some(record));
}

#[test]
fn second_sync_of_the_same_rule_reports_none() {
    let mut last = None;
    let rule = sample();
    let (first, changed) = GPURule::sync(&rule, &mut last);
    assert!(changed);
    let (second, changed) = GPURule::sync(&rule, &mut last);
    assert!(!changed);
    assert!(first == second);
    assert!(last == Some(first));
    let (_, changed) = GPURule::sync(&rule.clone(), &mut last);
    assert!(!changed);
}

#[test]
fn sync_after_a_change_of_any_field_reports_it() {
    let a = color(1.0, 0.0, 0.5, 1.0);
    let b = color(0.0, 0.0, 1.0, 1.0);
    let changes = [
        Rule { size: 9, ..sample() },
        Rule { spawn_mode: SpawnMode::Random(0.5f32.to_bits()), ..sample() },
        Rule { spawn_mode: SpawnMode::MengerSponge, ..sample() },
        Rule { survival: Value::try_parse("4,5").unwrap(), ..sample() },
        Rule { birth: Value::try_parse("5-7").unwrap(), ..sample() },
        Rule { states: 6, ..sample() },
        Rule { neighbor_mode: NeighborMode::VonNeumann, ..sample() },
        Rule { color_mode: ColorMode::DistToCenter(a, b), ..sample() },
        Rule { color_mode: ColorMode::StateLerp(color(1.0, 0.0, 0.5, 0.5), b), ..sample() },
        Rule { color_mode: ColorMode::StateLerp(a, color(0.0, 0.25, 1.0, 1.0)), ..sample() },
        Rule { color_mode: ColorMode::Single(a), ..sample() },
    ];
    for rule in changes {
        let mut last = None;
        GPURule::sync(&sample(), &mut last);
        let (record, changed) = GPURule::sync(&rule, &mut last);
        assert!(changed);
        assert!(last == Some(record));
        let (_, changed) = GPURule::sync(&rule, &mut last);
        assert!(!changed);
        let (_, changed) = GPURule::sync(&sample(), &mut last);
        assert!(changed);
    }
}

#[test]
fn sync_of_one_color_channel() {
    let mut rule = sample();
    let mut last = None;
    GPURule::sync(&rule, &mut last);
    if let ColorMode::StateLerp(first, _) = &mut rule.color_mode {
        first.0[1] = 0.01f32.to_bits();
    }
    let (record, changed) = GPURule::sync(&rule, &mut last);
    assert!(changed);
    assert_eq!(f32::from_bits(record.color0[1]), 0.01);
}
