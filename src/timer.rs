use vstd::prelude::*;
use crate::constants::{DIRECTION_LEFT, DIRECTION_RIGHT};
use crate::models::{
    bare_entity, entities_view, ArithmeticConditions, BehaviorView, CombinatorOutput, Comparator,
    Condition, ControlBehavior, DeciderConditions, Entity, EntityKind, EntityView, Filter, Note,
    Operation, Position, Quality, Section, SectionView, Sections, SignalRef, VirtualSignal, Wire,
};

verus! {

/// The fixed virtual signal `v`.
pub open spec fn virt(v: VirtualSignal) -> SignalRef {
    SignalRef::Virtual(v)
}

/// An arithmetic behavior with a constant second operand.
pub open spec fn arith_with_constant(
    first: SignalRef,
    constant: i32,
    operation: Operation,
    output: SignalRef,
) -> ArithmeticConditions {
    ArithmeticConditions {
        first_signal: first,
        second_signal: None,
        second_constant: Some(constant),
        operation,
        output_signal: output,
    }
}

/// An arithmetic entity as a value.
pub open spec fn arith_entity(
    number: u32,
    position: Position,
    direction: Option<u32>,
    conditions: ArithmeticConditions,
) -> EntityView {
    EntityView {
        direction,
        behavior: Some(BehaviorView::Arithmetic { arithmetic_conditions: conditions }),
        ..bare_entity(number, EntityKind::ArithmeticCombinator, position)
    }
}

/// The slot of the counter's emitter: `signal-T` set to 1.
pub open spec fn seed_filter() -> Filter {
    Filter {
        index: 1,
        signal: virt(VirtualSignal::SignalT),
        quality: Some(Quality::Normal),
        comparator: Some(Comparator::Equal),
        count: Some(1),
    }
}

/// The condition of the counter's decider: `signal-T < stop`.
pub open spec fn below_stop(stop: u32) -> Condition {
    Condition {
        first_signal: virt(VirtualSignal::SignalT),
        constant: stop as i32,
        comparator: Comparator::Less,
        compare_type: None,
    }
}

/// The output of the counter's decider: `signal-T`, count copied.
pub open spec fn forward_tick() -> CombinatorOutput {
    CombinatorOutput {
        copy_count_from_input: true,
        constant: None,
        signal: virt(VirtualSignal::SignalT),
    }
}

/// The counter's entities: emitter, decider and decrement, then, when frames
/// are packed, the frame-slot, frame-index and shift stages.
pub open spec fn timer_entities(
    stop: u32,
    grayscale_bits: u32,
    ticks_per_frame: u32,
    frames_per_combinator: u32,
) -> Seq<EntityView> {
    let t = virt(VirtualSignal::SignalT);
    let base = seq![
        EntityView {
            direction: Some(DIRECTION_RIGHT),
            behavior: Some(
                BehaviorView::Constant {
                    sections: seq![SectionView { index: 1, filters: seq![seed_filter()] }],
                },
            ),
            ..bare_entity(1, EntityKind::ConstantCombinator, Position { half_x: -5i64, half_y: -6i64 })
        },
        EntityView {
            direction: Some(DIRECTION_RIGHT),
            behavior: Some(
                BehaviorView::Decider {
                    conditions: seq![below_stop(stop)],
                    outputs: seq![forward_tick()],
                },
            ),
            note: Some(Note::TickCounter),
            ..bare_entity(2, EntityKind::DeciderCombinator, Position { half_x: -3i64, half_y: -6i64 })
        },
        arith_entity(
            3,
            Position { half_x: -3i64, half_y: -8i64 },
            Some(DIRECTION_RIGHT),
            arith_with_constant(t, 1, Operation::Sub, t),
        ),
    ];
    if grayscale_bits > 0 {
        let s = virt(VirtualSignal::SignalS);
        let each = virt(VirtualSignal::SignalEach);
        base + seq![
            arith_entity(
                4,
                Position { half_x: -3i64, half_y: -10i64 },
                Some(DIRECTION_LEFT),
                arith_with_constant(
                    t,
                    (ticks_per_frame * frames_per_combinator) as u32 as i32,
                    Operation::Mod,
                    s,
                ),
            ),
            arith_entity(
                5,
                Position { half_x: -5i64, half_y: -11i64 },
                None,
                arith_with_constant(
                    s,
                    ticks_per_frame as i32,
                    Operation::Div,
                    virt(VirtualSignal::SignalF),
                ),
            ),
            EntityView {
                note: Some(Note::ShiftAmount),
                ..arith_entity(
                    6,
                    Position { half_x: -3i64, half_y: -12i64 },
                    Some(DIRECTION_RIGHT),
                    arith_with_constant(each, grayscale_bits as i32, Operation::Mul, each),
                )
            },
        ]
    } else {
        base
    }
}

/// The counter's wires: the closed loop, then the chain of the packing stages
/// with the shift fed back.
pub open spec fn timer_wires(grayscale_bits: u32) -> Seq<Wire> {
    let base = seq![(1u32, 2u32, 2u32, 2u32), (2, 2, 2, 4), (2, 2, 3, 2)];
    if grayscale_bits > 0 {
        base + seq![(3u32, 2u32, 4u32, 2u32), (4, 4, 5, 2), (5, 4, 6, 2), (6, 4, 3, 4)]
    } else {
        base
    }
}

fn arithmetic_entity(
    number: u32,
    position: Position,
    first: SignalRef,
    constant: i32,
    operation: Operation,
    output: SignalRef,
) -> (e: Entity)
    ensures
        e@ == arith_entity(
            number,
            position,
            None,
            arith_with_constant(first, constant, operation, output),
        ),
{
    Entity::new(number, EntityKind::ArithmeticCombinator, position).with_control_behavior(
        ControlBehavior::Arithmetic {
            arithmetic_conditions: ArithmeticConditions {
                first_signal: first,
                second_signal: None,
                second_constant: Some(constant),
                operation,
                output_signal: output,
            },
        },
    )
}

/// Builds the tick counter: it counts `signal-T` down from `stop - 1` to 0 and
/// starts over. With packed frames (`grayscale_bits > 0`) three more stages
/// compute `S = T mod (ticks_per_frame * frames_per_combinator)`,
/// `F = S / ticks_per_frame` and the shift `F * grayscale_bits`.
pub fn generate_timer(
    stop: u32,
    grayscale_bits: u32,
    ticks_per_frame: u32,
    frames_per_combinator: u32,
) -> (r: (Vec<Entity>, Vec<Wire>))
    requires
        grayscale_bits > 0 ==> ticks_per_frame * frames_per_combinator <= u32::MAX,
    ensures
        entities_view(r.0@) == timer_entities(
            stop,
            grayscale_bits,
            ticks_per_frame,
            frames_per_combinator,
        ),
        r.1@ == timer_wires(grayscale_bits),
{
    let t = SignalRef::Virtual(VirtualSignal::SignalT);
    let mut entities: Vec<Entity> = Vec::new();
    let mut wires: Vec<Wire> = Vec::new();
    let filters = vec![
        Filter {
            index: 1,
            signal: t,
            quality: Some(Quality::Normal),
            comparator: Some(Comparator::Equal),
            count: Some(1),
        },
    ];
    let sections = vec![Section { index: 1, filters }];
    let ghost sections_view = sections@;
    proof {
        assert(sections_view[0].filters@ =~= seq![seed_filter()]);
        assert(sections_view[0]@ == SectionView { index: 1, filters: seq![seed_filter()] });
        assert(sections_view.map_values(|s: Section| s@) =~= seq![
            SectionView { index: 1, filters: seq![seed_filter()] },
        ]);
    }
    entities.push(
        Entity::new(
            1,
            EntityKind::ConstantCombinator,
            Position { half_x: -5i64, half_y: -6i64 },
        ).with_direction(DIRECTION_RIGHT).with_control_behavior(
            ControlBehavior::Constant { sections: Sections { sections } },
        ),
    );
    let stop_constant = #[verifier::truncate] (stop as i32);
    let conditions = vec![
        Condition {
            first_signal: t,
            constant: stop_constant,
            comparator: Comparator::Less,
            compare_type: None,
        },
    ];
    let outputs = vec![CombinatorOutput { copy_count_from_input: true, constant: None, signal: t }];
    assert(conditions@ =~= seq![below_stop(stop)]);
    assert(outputs@ =~= seq![forward_tick()]);
    entities.push(
        Entity::new(
            2,
            EntityKind::DeciderCombinator,
            Position { half_x: -3i64, half_y: -6i64 },
        ).with_direction(DIRECTION_RIGHT).with_control_behavior(
            ControlBehavior::Decider { decider_conditions: DeciderConditions { conditions, outputs } },
        ).with_description(Note::TickCounter),
    );
    entities.push(
        arithmetic_entity(
            3,
            Position { half_x: -3i64, half_y: -8i64 },
            t,
            1,
            Operation::Sub,
            t,
        ).with_direction(DIRECTION_RIGHT),
    );
    wires.push((1, 2, 2, 2));
    wires.push((2, 2, 2, 4));
    wires.push((2, 2, 3, 2));

    if grayscale_bits > 0 {
        let s = SignalRef::Virtual(VirtualSignal::SignalS);
        let each = SignalRef::Virtual(VirtualSignal::SignalEach);
        let group_ticks = #[verifier::truncate] ((ticks_per_frame * frames_per_combinator) as i32);
        let frame_ticks = #[verifier::truncate] (ticks_per_frame as i32);
        let bits = #[verifier::truncate] (grayscale_bits as i32);
        entities.push(
            arithmetic_entity(
                4,
                Position { half_x: -3i64, half_y: -10i64 },
                t,
                group_ticks,
                Operation::Mod,
                s,
            ).with_direction(DIRECTION_LEFT),
        );
        entities.push(
            arithmetic_entity(
                5,
                Position { half_x: -5i64, half_y: -11i64 },
                s,
                frame_ticks,
                Operation::Div,
                SignalRef::Virtual(VirtualSignal::SignalF),
            ),
        );
        entities.push(
            arithmetic_entity(
                6,
                Position { half_x: -3i64, half_y: -12i64 },
                each,
                bits,
                Operation::Mul,
                each,
            ).with_direction(DIRECTION_RIGHT).with_description(Note::ShiftAmount),
        );
        wires.push((3, 2, 4, 2));
        wires.push((4, 4, 5, 2));
        wires.push((5, 4, 6, 2));
        wires.push((6, 4, 3, 4));
    }
    assert(entities_view(entities@) =~= timer_entities(
        stop,
        grayscale_bits,
        ticks_per_frame,
        frames_per_combinator,
    ));
    assert(wires@ =~= timer_wires(grayscale_bits));
    (entities, wires)
}

} // verus!
