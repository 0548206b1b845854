use vstd::prelude::*;
use vstd::arithmetic::div_mod::{lemma_fundamental_div_mod, lemma_fundamental_div_mod_converse};
use crate::constants::{DIRECTION_LEFT, DIRECTION_RIGHT};
use crate::models::{
    bare_entity, entities_view, ArithmeticConditions, BehaviorView, CombinatorOutput, Comparator,
    CompareType, Condition, ControlBehavior, DeciderConditions, Entity, EntityKind, EntityView,
    Operation, Position, SignalRef, VirtualSignal, Wire,
};
use crate::timer::{arith_entity, arith_with_constant, virt};

verus! {

/// Whether `y` is one of `rows`.
pub open spec fn row_occupied(rows: Seq<i64>, y: int) -> bool {
    exists|k: int| 0 <= k < rows.len() && rows[k] as int == y
}

/// Tests whether `y` is one of `rows`.
pub fn contains_row(rows: &Vec<i64>, y: i64) -> (b: bool)
    ensures
        b == row_occupied(rows@, y as int),
{
    let mut k: usize = 0;
    while k < rows.len()
        invariant
            k <= rows@.len(),
            forall|j: int| 0 <= j < k ==> rows@[j] != y,
        decreases rows@.len() - k,
    {
        if rows[k] == y {
            return true;
        }
        k = k + 1;
    }
    false
}

/// Number of unpacking entities placed before the deciders.
pub open spec fn unpack_len(grayscale_bits: u32) -> int {
    if grayscale_bits == 0 {
        0
    } else if grayscale_bits == 1 || grayscale_bits == 4 {
        3
    } else {
        2
    }
}

/// The mask that keeps one sample: `2^bits - 1`.
pub open spec fn sample_mask(grayscale_bits: u32) -> i32 {
    if grayscale_bits == 1 {
        1
    } else if grayscale_bits == 4 {
        15
    } else {
        255
    }
}

/// The factor that spreads a one-bit or four-bit sample over 0 to 255.
pub open spec fn broadcast_factor(grayscale_bits: u32) -> i32 {
    if grayscale_bits == 1 {
        255
    } else {
        17
    }
}

/// The unpacking entities: shift right by `signal-F`, mask, and for one or
/// four bits a multiply that spreads the sample.
pub open spec fn unpack_entities(
    base_number: u32,
    base_half_x: int,
    base_y: int,
    grayscale_bits: u32,
) -> Seq<EntityView> {
    let each = virt(VirtualSignal::SignalEach);
    let y1 = (2 * (base_y + 1)) as i64;
    if grayscale_bits == 0 {
        seq![]
    } else {
        let shift = EntityView {
            direction: Some(DIRECTION_RIGHT),
            behavior: Some(
                BehaviorView::Arithmetic {
                    arithmetic_conditions: ArithmeticConditions {
                        first_signal: each,
                        second_signal: Some(virt(VirtualSignal::SignalF)),
                        second_constant: None,
                        operation: Operation::ShiftRight,
                        output_signal: each,
                    },
                },
            ),
            ..bare_entity(
                base_number,
                EntityKind::ArithmeticCombinator,
                Position { half_x: base_half_x as i64, half_y: y1 },
            )
        };
        let mask = arith_entity(
            (base_number + 1) as u32,
            Position { half_x: (base_half_x + 4) as i64, half_y: y1 },
            Some(DIRECTION_RIGHT),
            arith_with_constant(each, sample_mask(grayscale_bits), Operation::And, each),
        );
        if grayscale_bits == 1 || grayscale_bits == 4 {
            seq![
                shift,
                mask,
                arith_entity(
                    (base_number + 2) as u32,
                    Position {
                        half_x: (base_half_x + 6) as i64,
                        half_y: (2 * (base_y + 2)) as i64,
                    },
                    Some(DIRECTION_LEFT),
                    arith_with_constant(
                        each,
                        broadcast_factor(grayscale_bits),
                        Operation::Mul,
                        each,
                    ),
                ),
            ]
        } else {
            seq![shift, mask]
        }
    }
}

/// The wires of the unpacking entities: the shifter's input and output reach
/// the first decider, and each stage feeds the next.
pub open spec fn unpack_wires(base_number: u32, grayscale_bits: u32) -> Seq<Wire> {
    let b = base_number;
    let first_decider = (b + unpack_len(grayscale_bits) + 1) as u32;
    if grayscale_bits == 0 {
        seq![]
    } else if grayscale_bits == 1 || grayscale_bits == 4 {
        seq![
            (b, 2u32, first_decider, 2u32),
            (b, 1, first_decider, 3),
            (b, 4, (b + 1) as u32, 2),
            ((b + 1) as u32, 4, (b + 2) as u32, 2),
        ]
    } else {
        seq![(b, 2u32, first_decider, 2u32), (b, 1, first_decider, 3), (b, 4, (b + 1) as u32, 2)]
    }
}

/// Where the deciders of one column-group go.
pub struct DeciderGrid {
    /// Rows that hold power poles.
    pub occupied_y: Seq<i64>,
    /// Number of the first decider minus one.
    pub first_number: int,
    /// Half-tile x of the first column.
    pub base_half_x: int,
    /// Tile y of the first row.
    pub base_y: int,
    /// Deciders per column (at least 1).
    pub column_len: int,
    /// Ticks that one decider covers.
    pub ticks_per_group: int,
}

/// Deciders per column: `max_rows_per_group`, and 1 when it is 0.
pub open spec fn column_len(max_rows_per_group: u32) -> int {
    if max_rows_per_group == 0 {
        1
    } else {
        max_rows_per_group as int
    }
}

/// How far decider `i` is pushed down by pole rows met in its column so far,
/// itself included: two rows for each.
pub open spec fn row_shift(g: DeciderGrid, i: nat) -> int
    decreases i,
{
    let before = if i == 0 || i % (g.column_len as nat) == 0 {
        0
    } else {
        row_shift(g, (i - 1) as nat)
    };
    if row_occupied(g.occupied_y, g.base_y - i % (g.column_len as nat) - before) {
        before + 2
    } else {
        before
    }
}

/// The shift before decider `i` is placed.
pub open spec fn row_shift_before(g: DeciderGrid, i: nat) -> int {
    if i == 0 || i % (g.column_len as nat) == 0 {
        0
    } else {
        row_shift(g, (i - 1) as nat)
    }
}

/// Number of decider `i`.
pub open spec fn decider_number(g: DeciderGrid, i: int) -> u32 {
    (g.first_number + 2 * i + 1) as u32
}

/// Position of decider `i`: column `i / column_len`, row `i % column_len`
/// below the base, pushed down past pole rows.
pub open spec fn decider_position(g: DeciderGrid, i: nat) -> Position {
    Position {
        half_x: (g.base_half_x + 4 * (i / (g.column_len as nat))) as i64,
        half_y: (2 * (g.base_y - i % (g.column_len as nat) - row_shift(g, i))) as i64,
    }
}

/// Decider `i`: active while `i * ticks <= signal-T < (i + 1) * ticks`.
pub open spec fn decider_entity(g: DeciderGrid, outputs: Seq<CombinatorOutput>, i: nat) -> EntityView {
    let t = virt(VirtualSignal::SignalT);
    EntityView {
        direction: Some(DIRECTION_RIGHT),
        behavior: Some(
            BehaviorView::Decider {
                conditions: seq![
                    Condition {
                        first_signal: t,
                        constant: (i * g.ticks_per_group) as i32,
                        comparator: Comparator::GreaterEqual,
                        compare_type: None,
                    },
                    Condition {
                        first_signal: t,
                        constant: ((i + 1) * g.ticks_per_group) as i32,
                        comparator: Comparator::Less,
                        compare_type: Some(CompareType::And),
                    },
                ],
                outputs,
            },
        ),
        ..bare_entity(decider_number(g, i as int), EntityKind::DeciderCombinator, decider_position(g, i))
    }
}

/// The selection-chain wires of decider `i`: to the decider above it, or,
/// at the top of a column after the first, to the top of the previous column.
pub open spec fn chain_wires(g: DeciderGrid, i: nat) -> Seq<Wire> {
    let n = decider_number(g, i as int);
    if i % (g.column_len as nat) != 0 {
        let p = decider_number(g, i - 1);
        seq![(p, 2u32, n, 2u32), (p, 3, n, 3)]
    } else if i >= g.column_len {
        let p = decider_number(g, i - g.column_len);
        seq![(p, 2u32, n, 2u32), (p, 3, n, 3)]
    } else {
        seq![]
    }
}

/// The chain wires of the first `k` deciders.
pub open spec fn chain_wires_upto(g: DeciderGrid, k: nat) -> Seq<Wire>
    decreases k,
{
    if k == 0 {
        seq![]
    } else {
        chain_wires_upto(g, (k - 1) as nat) + chain_wires(g, (k - 1) as nat)
    }
}

/// The outputs of each frame group, as values.
pub open spec fn outputs_view(s: Seq<Vec<CombinatorOutput>>) -> Seq<Seq<CombinatorOutput>> {
    s.map_values(|v: Vec<CombinatorOutput>| v@)
}

/// The deciders for all frame groups.
pub open spec fn decider_entities(g: DeciderGrid, outputs: Seq<Seq<CombinatorOutput>>) -> Seq<
    EntityView,
> {
    Seq::new(outputs.len(), |i: int| decider_entity(g, outputs[i], i as nat))
}

/// The grid that `generate_frame_combinators` lays its deciders on.
pub open spec fn grid_of(
    occupied_y: Seq<i64>,
    ticks_per_group: u32,
    base_entity_number: u32,
    base_half_x: i64,
    base_y: i64,
    max_rows_per_group: u32,
    grayscale_bits: u32,
) -> DeciderGrid {
    DeciderGrid {
        occupied_y,
        first_number: base_entity_number + unpack_len(grayscale_bits),
        base_half_x: base_half_x as int,
        base_y: base_y as int,
        column_len: column_len(max_rows_per_group),
        ticks_per_group: ticks_per_group as int,
    }
}

/// Every chain wire joins two of the first `k` deciders.
pub proof fn lemma_chain_wires_join(g: DeciderGrid, k: nat)
    requires
        g.column_len >= 1,
    ensures
        forall|i: int|
            0 <= i < chain_wires_upto(g, k).len() ==> {
                &&& exists|j: int|
                    0 <= j < k && (#[trigger] chain_wires_upto(g, k)[i]).0 == decider_number(g, j)
                &&& exists|j: int| 0 <= j < k && chain_wires_upto(g, k)[i].2 == decider_number(g, j)
            },
    decreases k,
{
    if k > 0 {
        let j = k - 1;
        lemma_chain_wires_join(g, j as nat);
        let prev = chain_wires_upto(g, j as nat);
        let all = chain_wires_upto(g, k);
        assert(all == prev + chain_wires(g, j as nat));
        assert forall|i: int| 0 <= i < all.len() implies {
            &&& exists|m: int| 0 <= m < k && (#[trigger] all[i]).0 == decider_number(g, m)
            &&& exists|m: int| 0 <= m < k && all[i].2 == decider_number(g, m)
        } by {
            if i < prev.len() {
                assert(all[i] == prev[i]);
                let m0 = choose|m: int| 0 <= m < j && prev[i].0 == decider_number(g, m);
                let m2 = choose|m: int| 0 <= m < j && prev[i].2 == decider_number(g, m);
                assert(0 <= m0 < k && all[i].0 == decider_number(g, m0));
                assert(0 <= m2 < k && all[i].2 == decider_number(g, m2));
            } else {
                assert(0 <= j < k && all[i].2 == decider_number(g, j));
                if (j as nat) % (g.column_len as nat) != 0 {
                    if j == 0 {
                        assert((0 as nat) % (g.column_len as nat) == 0);
                    }
                    assert(0 <= j - 1 < k && all[i].0 == decider_number(g, j - 1));
                } else {
                    assert(0 <= j - g.column_len < k && all[i].0 == decider_number(
                        g,
                        j - g.column_len,
                    ));
                }
            }
        }
    }
}

proof fn lemma_row_shift_bound(g: DeciderGrid, i: nat)
    requires
        g.column_len >= 1,
    ensures
        0 <= row_shift(g, i) <= 2 * i + 2,
    decreases i,
{
    if i > 0 {
        lemma_row_shift_bound(g, (i - 1) as nat);
    }
}

/// How `i + 1` splits into column and row, from how `i` does.
proof fn lemma_next_slot(i: int, m: int)
    requires
        i >= 0,
        m >= 1,
    ensures
        i % m + 1 < m ==> (i + 1) % m == i % m + 1 && (i + 1) / m == i / m,
        i % m + 1 >= m ==> (i + 1) % m == 0 && (i + 1) / m == i / m + 1,
        0 <= i % m < m,
        i / m >= 0,
        (i / m) * m + i % m == i,
{
    lemma_fundamental_div_mod(i, m);
    vstd::arithmetic::mul::lemma_mul_is_commutative(m, i / m);
    assert(0 <= i % m < m);
    assert(i / m >= 0) by {
        vstd::arithmetic::div_mod::lemma_div_pos_is_pos(i, m);
    }
    if i % m + 1 < m {
        lemma_fundamental_div_mod_converse(i + 1, m, i / m, i % m + 1);
    } else {
        assert((i / m + 1) * m == (i / m) * m + m) by (nonlinear_arith);
        lemma_fundamental_div_mod_converse(i + 1, m, i / m + 1, 0);
    }
}

fn copy_outputs(v: &Vec<CombinatorOutput>) -> (r: Vec<CombinatorOutput>)
    ensures
        r@ == v@,
{
    let mut r: Vec<CombinatorOutput> = Vec::new();
    let mut k: usize = 0;
    while k < v.len()
        invariant
            k <= v@.len(),
            r@ =~= v@.take(k as int),
        decreases v@.len() - k,
    {
        r.push(v[k]);
        assert(r@ =~= v@.take(k + 1));
        k = k + 1;
    }
    assert(v@.take(v@.len() as int) =~= v@);
    r
}

fn arithmetic_entity(
    number: u32,
    position: Position,
    direction: u32,
    first: SignalRef,
    constant: i32,
    operation: Operation,
) -> (e: Entity)
    ensures
        e@ == arith_entity(
            number,
            position,
            Some(direction),
            arith_with_constant(first, constant, operation, first),
        ),
{
    Entity::new(number, EntityKind::ArithmeticCombinator, position).with_direction(
        direction,
    ).with_control_behavior(
        ControlBehavior::Arithmetic {
            arithmetic_conditions: ArithmeticConditions {
                first_signal: first,
                second_signal: None,
                second_constant: Some(constant),
                operation,
                output_signal: first,
            },
        },
    )
}

/// Lays out one column-group's selection logic: with packed frames first the
/// unpacking entities, then one decider per frame group `i`, active for ticks
/// `[i * ticks_per_group, (i + 1) * ticks_per_group)` and carrying that
/// group's outputs. Deciders fill a column downwards from `base_y`, skip two
/// rows past a pole row, and after `max_rows_per_group` start a new column two
/// tiles to the right. Positions are in half tiles (`base_half_x`) and tiles
/// (`base_y`); each decider takes two entity numbers. Returns the entities,
/// the wires and the next free number.
pub fn generate_frame_combinators(
    frame_outputs: &Vec<Vec<CombinatorOutput>>,
    occupied_y: &Vec<i64>,
    ticks_per_group: u32,
    base_entity_number: u32,
    base_half_x: i64,
    base_y: i64,
    max_rows_per_group: u32,
    grayscale_bits: u32,
) -> (r: (Vec<Entity>, Vec<Wire>, u32))
    requires
        base_entity_number + 4 + 2 * frame_outputs@.len() <= u32::MAX,
        frame_outputs@.len() * ticks_per_group <= u32::MAX,
        -0x1_0000_0000_0000 <= base_half_x <= 0x1_0000_0000_0000,
        -0x1_0000_0000_0000 <= base_y <= 0x1_0000_0000_0000,
    ensures
        ({
            let g = grid_of(
                occupied_y@,
                ticks_per_group,
                base_entity_number,
                base_half_x,
                base_y,
                max_rows_per_group,
                grayscale_bits,
            );
            &&& entities_view(r.0@) == unpack_entities(
                base_entity_number,
                base_half_x as int,
                base_y as int,
                grayscale_bits,
            ) + decider_entities(g, outputs_view(frame_outputs@))
            &&& r.1@ == unpack_wires(base_entity_number, grayscale_bits) + chain_wires_upto(
                g,
                frame_outputs@.len(),
            )
            &&& r.2 == g.first_number + 2 * frame_outputs@.len()
        }),
{
    let ghost g = grid_of(
        occupied_y@,
        ticks_per_group,
        base_entity_number,
        base_half_x,
        base_y,
        max_rows_per_group,
        grayscale_bits,
    );
    let mut current: u32 = base_entity_number;
    let num_frames = frame_outputs.len();
    let mut entities: Vec<Entity> = Vec::new();
    let mut wires: Vec<Wire> = Vec::new();
    let each = SignalRef::Virtual(VirtualSignal::SignalEach);

    if grayscale_bits > 0 {
        let shift_x = base_half_x;
        let mask_x = base_half_x + 4;
        entities.push(
            Entity::new(
                current,
                EntityKind::ArithmeticCombinator,
                Position { half_x: shift_x, half_y: 2 * (base_y + 1) },
            ).with_direction(DIRECTION_RIGHT).with_control_behavior(
                ControlBehavior::Arithmetic {
                    arithmetic_conditions: ArithmeticConditions {
                        first_signal: each,
                        second_signal: Some(SignalRef::Virtual(VirtualSignal::SignalF)),
                        second_constant: None,
                        operation: Operation::ShiftRight,
                        output_signal: each,
                    },
                },
            ),
        );
        let first_decider = current + if grayscale_bits == 1 || grayscale_bits == 4 {
            4
        } else {
            3
        };
        wires.push((current, 2, first_decider, 2));
        wires.push((current, 1, first_decider, 3));
        current = current + 1;
        let mask: i32 = if grayscale_bits == 1 {
            1
        } else if grayscale_bits == 4 {
            15
        } else {
            255
        };
        entities.push(
            arithmetic_entity(
                current,
                Position { half_x: mask_x, half_y: 2 * (base_y + 1) },
                DIRECTION_RIGHT,
                each,
                mask,
                Operation::And,
            ),
        );
        wires.push((current - 1, 4, current, 2));
        current = current + 1;
        if grayscale_bits == 1 || grayscale_bits == 4 {
            let factor: i32 = if grayscale_bits == 1 {
                255
            } else {
                17
            };
            entities.push(
                arithmetic_entity(
                    current,
                    Position { half_x: mask_x + 2, half_y: 2 * (base_y + 2) },
                    DIRECTION_LEFT,
                    each,
                    factor,
                    Operation::Mul,
                ),
            );
            wires.push((current - 1, 4, current, 2));
            current = current + 1;
        }
    }
    let ghost prefix_entities = unpack_entities(
        base_entity_number,
        base_half_x as int,
        base_y as int,
        grayscale_bits,
    );
    let ghost prefix_wires = unpack_wires(base_entity_number, grayscale_bits);
    assert(entities_view(entities@) =~= prefix_entities);
    assert(wires@ =~= prefix_wires);

    let ghost m = g.column_len;
    let mut row: u32 = 0;
    let mut column: i64 = 0;
    let mut y_shift: i64 = 0;
    let mut previous_first: Option<u32> = None;
    let mut i: usize = 0;
    while i < num_frames
        invariant
            g == grid_of(
                occupied_y@,
                ticks_per_group,
                base_entity_number,
                base_half_x,
                base_y,
                max_rows_per_group,
                grayscale_bits,
            ),
            m == g.column_len,
            m >= 1,
            num_frames == frame_outputs@.len(),
            base_entity_number + 4 + 2 * num_frames <= u32::MAX,
            num_frames * ticks_per_group <= u32::MAX,
            -0x1_0000_0000_0000 <= base_half_x <= 0x1_0000_0000_0000,
            -0x1_0000_0000_0000 <= base_y <= 0x1_0000_0000_0000,
            i <= num_frames,
            current == g.first_number + 2 * i,
            row == (i as int) % m,
            column == (i as int) / m,
            y_shift == row_shift_before(g, i as nat),
            previous_first == (if i == 0 {
                None
            } else {
                Some(decider_number(g, ((i as int - 1) / m) * m))
            }),
            entities_view(entities@) =~= prefix_entities + Seq::new(
                i as nat,
                |k: int| decider_entity(g, frame_outputs@[k]@, k as nat),
            ),
            wires@ =~= prefix_wires + chain_wires_upto(g, i as nat),
        decreases num_frames - i,
    {
        proof {
            lemma_next_slot(i as int, m);
            if i > 0 {
                lemma_next_slot(i - 1, m);
                lemma_row_shift_bound(g, (i - 1) as nat);
            }
            assert(column <= i) by {
                vstd::arithmetic::div_mod::lemma_div_is_ordered_by_denominator(i as int, 1, m);
            }
        }
        let mut y = base_y - (row as i64) - y_shift;
        let ghost shift_before = y_shift;
        if contains_row(occupied_y, y) {
            y_shift = y_shift + 2;
            y = y - 2;
        }
        assert(y_shift == row_shift(g, i as nat));
        let number = current + 1;
        proof {
            assert((i as u32) * ticks_per_group <= num_frames * ticks_per_group) by (nonlinear_arith)
                requires
                    i <= num_frames,
            ;
            assert(((i as u32) + 1) * ticks_per_group <= num_frames * ticks_per_group)
                by (nonlinear_arith)
                requires
                    i < num_frames,
            ;
        }
        let lower = #[verifier::truncate] (((i as u32) * ticks_per_group) as i32);
        let upper = #[verifier::truncate] ((((i as u32) + 1) * ticks_per_group) as i32);
        let t = SignalRef::Virtual(VirtualSignal::SignalT);
        let conditions = vec![
            Condition {
                first_signal: t,
                constant: lower,
                comparator: Comparator::GreaterEqual,
                compare_type: None,
            },
            Condition {
                first_signal: t,
                constant: upper,
                comparator: Comparator::Less,
                compare_type: Some(CompareType::And),
            },
        ];
        let outputs = copy_outputs(&frame_outputs[i]);
        let ghost conditions_view = conditions@;
        let decider = Entity::new(
            number,
            EntityKind::DeciderCombinator,
            Position { half_x: base_half_x + 4 * column, half_y: 2 * y },
        ).with_direction(DIRECTION_RIGHT).with_control_behavior(
            ControlBehavior::Decider { decider_conditions: DeciderConditions { conditions, outputs } },
        );
        assert(decider@ == decider_entity(g, frame_outputs@[i as int]@, i as nat)) by {
            assert(conditions_view =~= seq![
                Condition {
                    first_signal: t,
                    constant: (i * g.ticks_per_group) as i32,
                    comparator: Comparator::GreaterEqual,
                    compare_type: None,
                },
                Condition {
                    first_signal: t,
                    constant: ((i + 1) * g.ticks_per_group) as i32,
                    comparator: Comparator::Less,
                    compare_type: Some(CompareType::And),
                },
            ]);
        }
        let ghost entities_before = entities@;
        let ghost decider_view = decider@;
        entities.push(decider);
        assert(entities_view(entities@) =~= entities_view(entities_before).push(decider_view));
        let ghost wires_before = wires@;
        if row != 0 {
            let previous = number - 2;
            wires.push((previous, 2, number, 2));
            wires.push((previous, 3, number, 3));
        } else {
            if let Some(p) = previous_first {
                wires.push((p, 2, number, 2));
                wires.push((p, 3, number, 3));
            }
            previous_first = Some(number);
        }
        assert(wires@ =~= wires_before + chain_wires(g, i as nat));
        assert(prefix_wires + chain_wires_upto(g, (i + 1) as nat) =~= prefix_wires
            + chain_wires_upto(g, i as nat) + chain_wires(g, i as nat));
        current = current + 2;
        row = row + 1;
        if row >= max_rows_per_group {
            row = 0;
            y_shift = 0;
            column = column + 1;
        }
        proof {
            assert(entities_view(entities@) =~= prefix_entities + Seq::new(
                (i + 1) as nat,
                |k: int| decider_entity(g, frame_outputs@[k]@, k as nat),
            ));
        }
        i = i + 1;
    }
    assert(decider_entities(g, outputs_view(frame_outputs@)) =~= Seq::new(
        num_frames as nat,
        |k: int| decider_entity(g, frame_outputs@[k]@, k as nat),
    ));
    (entities, wires, current)
}

} // verus!
