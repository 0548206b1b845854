use lamp_blueprint::layout::generate_frame_combinators;
use lamp_blueprint::lamps::generate_lamps;
use lamp_blueprint::models::{
    CombinatorOutput, ControlBehavior, EntityKind, Operation, Quality, Signal, SignalRef,
};
use lamp_blueprint::power::{generate_substations, substation_coverage};
use lamp_blueprint::progress::group_progress;
use lamp_blueprint::signals::get_signals_with_quality;
use lamp_blueprint::timer::generate_timer;

fn catalog(n: usize) -> Vec<Signal> {
    let mut v = Vec::new();
    for i in 0..n {
        v.push(Signal { type_: "item".to_string(), name: format!("s{}", i), quality: None });
    }
    v
}

fn output(v: i32, i: usize) -> CombinatorOutput {
    CombinatorOutput { copy_count_from_input: false, constant: Some(v), signal: SignalRef::Catalog(i) }
}

#[test]
fn coverage_by_tier() {
    assert_eq!(substation_coverage(Quality::Normal), 18);
    assert_eq!(substation_coverage(Quality::Uncommon), 20);
    assert_eq!(substation_coverage(Quality::Rare), 22);
    assert_eq!(substation_coverage(Quality::Epic), 24);
    assert_eq!(substation_coverage(Quality::Legendary), 28);
}

#[test]
fn no_tier_places_no_poles() {
    let (e, w, cells, next) = generate_substations(None, 30, 30, 10, 4);
    assert!(e.is_empty());
    assert!(w.is_empty());
    assert!(cells.is_empty());
    assert_eq!(next, 4);
}

#[test]
fn normal_poles_cover_small_grid() {
    // coverage 18, half 8: a 5 x 5 grid and 3 rows of logic need one pole.
    let (e, w, cells, next) = generate_substations(Some(Quality::Normal), 5, 5, 3, 4);
    assert_eq!(e.len(), 1);
    assert_eq!(next, 5);
    assert_eq!(cells.len(), 4 * e.len());
    assert_eq!(e[0].position.half_x, -2);
    assert_eq!(e[0].position.half_y, -2);
    assert_eq!(e[0].quality, None);
    assert!(w.is_empty());
    assert!(cells.contains(&(-2, -2)));
    assert!(cells.contains(&(-1, -1)));
}

#[test]
fn legendary_poles_link_left_and_up() {
    // coverage 28, half 13: width 30 needs ceil(17/28)+1 = 2 columns;
    // frame_count 20 needs ceil(7/26) = 1 row above; height 1 needs 1 row.
    let (e, w, _cells, next) = generate_substations(Some(Quality::Legendary), 30, 1, 20, 10);
    assert_eq!(e.len(), 4);
    assert_eq!(next, 14);
    assert_eq!(e[0].quality, Some(Quality::Legendary));
    assert_eq!(e[0].position.half_y, 2 * (-1 - 28));
    assert_eq!(e[3].position.half_x, 2 * 27);
    assert_eq!(w, vec![(11, 5, 10, 5), (12, 5, 10, 5), (13, 5, 11, 5), (13, 5, 12, 5)]);
}

#[test]
fn frame_coverage_grows_past_ceiling() {
    // coverage 18, half 8, frame_count 25: ceil(17/18) = 1 but 17 + 2 > 18, so 2 rows above.
    let (e, _w, _cells, _next) = generate_substations(Some(Quality::Normal), 1, 1, 25, 1);
    assert_eq!(e[0].position.half_y, 2 * (-1 - 2 * 18));
}

#[test]
fn color_timer_has_three_entities() {
    let (e, w) = generate_timer(60, 0, 30, 1);
    assert_eq!(e.len(), 3);
    assert_eq!(w, vec![(1, 2, 2, 2), (2, 2, 2, 4), (2, 2, 3, 2)]);
    match &e[1].control_behavior {
        Some(ControlBehavior::Decider { decider_conditions }) => {
            assert_eq!(decider_conditions.conditions[0].constant, 60);
        }
        _ => panic!("the second entity is the decider"),
    }
}

#[test]
fn packed_timer_has_six_entities() {
    let (e, w) = generate_timer(30, 4, 30, 8);
    assert_eq!(e.len(), 6);
    assert_eq!(w.len(), 7);
    match &e[3].control_behavior {
        Some(ControlBehavior::Arithmetic { arithmetic_conditions }) => {
            assert_eq!(arithmetic_conditions.operation, Operation::Mod);
            assert_eq!(arithmetic_conditions.second_constant, Some(240));
        }
        _ => panic!("the fourth entity is the modulo stage"),
    }
    match &e[5].control_behavior {
        Some(ControlBehavior::Arithmetic { arithmetic_conditions }) => {
            assert_eq!(arithmetic_conditions.second_constant, Some(4));
        }
        _ => panic!("the sixth entity is the shift stage"),
    }
}

#[test]
fn deciders_fill_columns_and_skip_pole_rows() {
    let outs = vec![vec![output(1, 0)], vec![output(2, 0)], vec![output(3, 0)]];
    let occupied = vec![-4i64];
    let (e, w, next) = generate_frame_combinators(&outs, &occupied, 10, 4, 1, -3, 2, 0);
    assert_eq!(e.len(), 3);
    assert_eq!(next, 10);
    assert_eq!(e[0].entity_number, 5);
    assert_eq!(e[0].position.half_y, -6);
    // second row would be -4, which holds poles: pushed to -6.
    assert_eq!(e[1].position.half_y, -12);
    // third decider starts a new column two tiles to the right.
    assert_eq!(e[2].position.half_x, 5);
    assert_eq!(e[2].position.half_y, -6);
    assert_eq!(w, vec![(5, 2, 7, 2), (5, 3, 7, 3), (5, 2, 9, 2), (5, 3, 9, 3)]);
    match &e[2].control_behavior {
        Some(ControlBehavior::Decider { decider_conditions }) => {
            assert_eq!(decider_conditions.conditions[0].constant, 20);
            assert_eq!(decider_conditions.conditions[1].constant, 30);
            assert_eq!(decider_conditions.outputs[0].constant, Some(3));
        }
        _ => panic!("a decider"),
    }
}

#[test]
fn one_bit_unpacking_adds_three_stages() {
    let outs = vec![vec![output(1, 0)]];
    let (e, w, next) = generate_frame_combinators(&outs, &Vec::new(), 60, 7, 1, -5, 1, 1);
    assert_eq!(e.len(), 4);
    assert_eq!(next, 12);
    assert_eq!(e[3].entity_number, 11);
    assert_eq!(w[0], (7, 2, 11, 2));
    assert_eq!(w[1], (7, 1, 11, 3));
    match &e[2].control_behavior {
        Some(ControlBehavior::Arithmetic { arithmetic_conditions }) => {
            assert_eq!(arithmetic_conditions.operation, Operation::Mul);
            assert_eq!(arithmetic_conditions.second_constant, Some(255));
        }
        _ => panic!("the broadcast stage"),
    }
}

#[test]
fn lamps_skip_occupied_cells_and_chain() {
    let occupied = vec![(1i64, 1i64)];
    let (e, w, next, top_right) = generate_lamps(&catalog(4), 2, 2, &occupied, 10, 0, 0, false);
    assert_eq!(e.len(), 3);
    assert_eq!(next, 13);
    assert_eq!(top_right, 11);
    assert!(e.iter().all(|l| l.name == EntityKind::SmallLamp));
    assert_eq!(w, vec![(11, 1, 10, 1), (11, 2, 10, 2), (12, 1, 10, 1)]);
    match &e[2].control_behavior {
        Some(ControlBehavior::ColorLamp { rgb_signal, .. }) => {
            assert_eq!(*rgb_signal, SignalRef::Catalog(2));
        }
        _ => panic!("a color lamp"),
    }
}

#[test]
fn gray_lamps_use_three_channels() {
    let (e, _w, _next, top_right) = generate_lamps(&catalog(1), 1, 1, &Vec::new(), 5, 3, 0, true);
    assert_eq!(top_right, 5);
    match &e[0].control_behavior {
        Some(ControlBehavior::GrayLamp { red_signal, green_signal, blue_signal, color_mode, .. }) => {
            assert_eq!(*red_signal, SignalRef::Catalog(0));
            assert_eq!(*green_signal, SignalRef::Catalog(0));
            assert_eq!(*blue_signal, SignalRef::Catalog(0));
            assert_eq!(*color_mode, 1);
        }
        _ => panic!("a gray lamp"),
    }
    assert_eq!(e[0].position.half_x, 6);
}

#[test]
fn catalog_expands_into_tiers() {
    let base = vec![("item".to_string(), "iron-plate".to_string()), ("virtual".to_string(), "signal-A".to_string())];
    let plain = get_signals_with_quality(false, &base);
    assert_eq!(plain.len(), 4);
    assert_eq!(plain[1].quality, Some(Quality::Unknown));
    assert_eq!(plain[2].name, "signal-A");
    let extended = get_signals_with_quality(true, &base);
    assert_eq!(extended.len(), 12);
    assert_eq!(extended[4].quality, Some(Quality::Legendary));
    assert_eq!(extended[6].type_, "virtual");
}

#[test]
fn progress_spreads_over_groups() {
    assert_eq!(group_progress(0, 1), 70);
    assert_eq!(group_progress(0, 2), 45);
    assert_eq!(group_progress(2, 3), 70);
}
