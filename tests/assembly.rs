use lamp_blueprint::blueprint::update_full_blueprint;
use lamp_blueprint::encode::{encode_blueprint, with_version_prefix};
use lamp_blueprint::models::{
    Blueprint, BlueprintError, ControlBehavior, EntityKind, Operation, Quality, Signal,
};
use lamp_blueprint::pixels::Frame;

use base64::Engine;
use std::io::Read;

fn catalog(n: usize) -> Vec<Signal> {
    let mut v = Vec::new();
    for i in 0..n {
        v.push(Signal { type_: "item".to_string(), name: format!("s{}", i), quality: None });
    }
    v
}

fn color(width: u32, height: u32, fill: u8) -> Frame {
    Frame {
        width,
        height,
        channels: 3,
        pixels: vec![fill; (width * height * 3) as usize],
    }
}

fn count_kind(bp: &Blueprint, kind: EntityKind) -> usize {
    bp.blueprint.entities.iter().filter(|e| e.name == kind).count()
}

#[test]
fn single_pixel_full_color() {
    let bp = update_full_blueprint(30, vec![color(1, 1, 9)], catalog(2), 0, None).unwrap();
    assert_eq!(count_kind(&bp, EntityKind::SmallLamp), 1);
    assert_eq!(count_kind(&bp, EntityKind::Substation), 0);
    let timer: Vec<u32> = bp.blueprint.entities.iter().take(3).map(|e| e.entity_number).collect();
    assert_eq!(timer, vec![1, 2, 3]);
    assert_eq!(count_kind(&bp, EntityKind::ConstantCombinator), 1);
    assert_eq!(count_kind(&bp, EntityKind::ArithmeticCombinator), 1);
    assert_eq!(bp.blueprint.icons.len(), 1);
    assert_eq!(bp.blueprint.icons[0].signal.name, "decider-combinator");
    let s = encode_blueprint(&format!("{:?}", bp.blueprint.wires).into_bytes()).unwrap();
    assert!(s.len() > 1);
    assert!(s.starts_with('0'));
}

#[test]
fn single_frame_one_bit_gray() {
    let frame = Frame { width: 1, height: 1, channels: 1, pixels: vec![200] };
    let bp = update_full_blueprint(30, vec![frame], catalog(2), 1, None).unwrap();
    let e = &bp.blueprint.entities;
    let timer_len = e.iter().take_while(|x| x.entity_number <= 6).count();
    assert_eq!(timer_len, 6);
    let ops: Vec<Operation> = e
        .iter()
        .skip(6)
        .filter_map(|x| match &x.control_behavior {
            Some(ControlBehavior::Arithmetic { arithmetic_conditions }) => {
                Some(arithmetic_conditions.operation)
            }
            _ => None,
        })
        .collect();
    assert_eq!(ops, vec![Operation::ShiftRight, Operation::And, Operation::Mul]);
    assert_eq!(count_kind(&bp, EntityKind::SmallLamp), 1);
}

#[test]
fn two_by_one_two_frames_at_two_fps() {
    let frames = vec![color(2, 1, 10), color(2, 1, 200)];
    let bp = update_full_blueprint(2, frames, catalog(4), 0, None).unwrap();
    let e = &bp.blueprint.entities;
    match &e[1].control_behavior {
        Some(ControlBehavior::Decider { decider_conditions }) => {
            assert_eq!(decider_conditions.conditions[0].constant, 60);
        }
        _ => panic!("the counter's decider"),
    }
    let lamps: Vec<u32> = e
        .iter()
        .filter(|x| x.name == EntityKind::SmallLamp)
        .map(|x| x.entity_number)
        .collect();
    assert_eq!(lamps, vec![8, 9]);
    // one group of two columns: both lights in one block, side by side.
    let xs: Vec<i64> = e
        .iter()
        .filter(|x| x.name == EntityKind::SmallLamp)
        .map(|x| x.position.half_x)
        .collect();
    assert_eq!(xs, vec![0, 2]);
    let w = &bp.blueprint.wires;
    assert!(w.contains(&(9, 1, 8, 1)));
    assert!(w.contains(&(9, 2, 8, 2)));
    assert_eq!(
        *w,
        vec![
            (1, 2, 2, 2),
            (2, 2, 2, 4),
            (2, 2, 3, 2),
            (5, 2, 7, 2),
            (5, 3, 7, 3),
            (3, 4, 5, 2),
            (8, 1, 5, 3),
            (8, 2, 5, 2),
            (9, 1, 8, 1),
            (9, 2, 8, 2),
        ]
    );
}

#[test]
fn rerun_gives_identical_graph() {
    let make = || {
        update_full_blueprint(
            6,
            vec![color(3, 2, 1), color(3, 2, 2), color(3, 2, 3)],
            catalog(4),
            0,
            Some(Quality::Rare),
        )
        .unwrap()
    };
    let a = make();
    let b = make();
    assert_eq!(format!("{:?}", a.blueprint.entities), format!("{:?}", b.blueprint.entities));
    assert_eq!(a.blueprint.wires, b.blueprint.wires);
}

#[test]
fn every_wire_joins_existing_entities() {
    let frames = vec![color(5, 4, 1), color(5, 4, 2), color(5, 4, 3)];
    let bp = update_full_blueprint(10, frames, catalog(8), 0, Some(Quality::Normal)).unwrap();
    let ids: Vec<u32> = bp.blueprint.entities.iter().map(|e| e.entity_number).collect();
    for w in &bp.blueprint.wires {
        assert!(ids.contains(&w.0));
        assert!(ids.contains(&w.2));
    }
    // 8 signals over 4 rows allow 2 columns: 3 groups of width 5 / 3 = 1 column each.
    assert_eq!(bp.blueprint.entities.iter().filter(|e| e.name == EntityKind::SmallLamp).count(), 12);
}

#[test]
fn lights_skip_cells_under_poles() {
    // a 20 x 20 grid with normal poles: poles at x, y in {-1, 17}; the one at
    // (17, 17) covers cells 16 and 17 of both axes inside the grid.
    let bp = update_full_blueprint(30, vec![color(20, 20, 5)], catalog(400), 0, Some(Quality::Normal))
        .unwrap();
    let lamps: Vec<(i64, i64)> = bp
        .blueprint
        .entities
        .iter()
        .filter(|e| e.name == EntityKind::SmallLamp)
        .map(|e| (e.position.half_x / 2, e.position.half_y / 2))
        .collect();
    assert_eq!(lamps.len(), 396);
    for (i, a) in lamps.iter().enumerate() {
        assert!(!lamps[i + 1..].contains(a));
    }
    for cell in [(16, 16), (16, 17), (17, 16), (17, 17)] {
        assert!(!lamps.contains(&cell));
    }
    assert_eq!(count_kind(&bp, EntityKind::Substation), 4);
    let ids: Vec<u32> = bp.blueprint.entities.iter().map(|e| e.entity_number).collect();
    for w in &bp.blueprint.wires {
        assert!(ids.contains(&w.0));
        assert!(ids.contains(&w.2));
    }
    assert_eq!(bp.blueprint.item, "blueprint");
}

#[test]
fn no_frames_is_empty_input() {
    let r = update_full_blueprint(30, Vec::new(), catalog(4), 0, None);
    assert_eq!(r.unwrap_err(), BlueprintError::EmptyInput);
}

#[test]
fn zero_height_is_empty_input() {
    let r = update_full_blueprint(30, vec![color(3, 0, 0)], catalog(4), 0, None);
    assert_eq!(r.unwrap_err(), BlueprintError::EmptyInput);
}

#[test]
fn too_few_signals_for_a_column() {
    let r = update_full_blueprint(30, vec![color(2, 3, 0)], catalog(2), 0, None);
    assert_eq!(r.unwrap_err(), BlueprintError::InsufficientSignalBudget);
}

#[test]
fn encoding_round_trips_through_zlib_and_base64() {
    let json = b"{\"blueprint\":{\"item\":\"blueprint\"}}".to_vec();
    let s = encode_blueprint(&json).unwrap();
    assert!(s.starts_with('0'));
    assert_ne!(&s[1..], String::from_utf8(json.clone()).unwrap());
    let compressed = base64::engine::general_purpose::STANDARD.decode(&s[1..]).unwrap();
    let mut plain = Vec::new();
    flate2::read::ZlibDecoder::new(&compressed[..]).read_to_end(&mut plain).unwrap();
    assert_eq!(plain, json);
    assert_eq!(s.len(), 1 + 4 * ((compressed.len() + 2) / 3));
}

#[test]
fn version_prefix_is_zero() {
    assert_eq!(with_version_prefix(&"QUJD".to_string()), "0QUJD");
    assert_eq!(with_version_prefix(&String::new()), "0");
}
