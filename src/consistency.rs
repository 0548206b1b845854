use vstd::prelude::*;
use crate::blueprint::{
    base_row, build_group, build_state, buildable, deciders_per_group, group_facts, group_lamps,
    group_outputs, lamp_start, lemma_ceil_excess, lemma_group_facts, numbers_per_group,
    occupied_rows, plan_of, power_of, timer_next, Inputs,
};
use crate::lamps::{
    cell_occupied, lamp_key, lemma_lamp_state_bounds, lemma_lamp_state_shape,
    LampGrid,
};
use crate::layout::{
    chain_wires_upto, decider_entities, decider_number, grid_of, lemma_chain_wires_join,
    unpack_entities, unpack_len, unpack_wires,
};
use crate::models::{entities_view, Blueprint, EntityKind, EntityView, Wire};
use crate::power::{lemma_pole_entities_shape, lemma_pole_links_join, pole_plan};

verus! {

/// Some entity of `es` is numbered `n`.
pub open spec fn has_number(es: Seq<EntityView>, n: u32) -> bool {
    exists|i: int| 0 <= i < es.len() && (#[trigger] es[i]).number == n
}

/// Every wire joins two entities of `es`.
pub open spec fn wires_join_entities(es: Seq<EntityView>, ws: Seq<Wire>) -> bool {
    forall|i: int|
        0 <= i < ws.len() ==> has_number(es, (#[trigger] ws[i]).0) && has_number(es, ws[i].2)
}

/// No light of `es` stands on one of `cells`.
pub open spec fn lights_clear_of(es: Seq<EntityView>, cells: Seq<(i64, i64)>) -> bool {
    forall|i: int|
        0 <= i < es.len() && (#[trigger] es[i]).kind == EntityKind::SmallLamp ==> !cell_occupied(
            cells,
            es[i].position.half_x as int / 2,
            es[i].position.half_y as int / 2,
        )
}

/// No two lights of `es` stand on the same position.
pub open spec fn lights_apart(es: Seq<EntityView>) -> bool {
    forall|i1: int, i2: int|
        #![trigger es[i1], es[i2]]
        0 <= i1 < es.len() && 0 <= i2 < es.len() && i1 != i2 && es[i1].kind
            == EntityKind::SmallLamp && es[i2].kind == EntityKind::SmallLamp ==> es[i1].position
            != es[i2].position
}

/// Every light of `es` stands left of column `bound`.
pub open spec fn lights_left_of(es: Seq<EntityView>, bound: int) -> bool {
    forall|i: int|
        0 <= i < es.len() && (#[trigger] es[i]).kind == EntityKind::SmallLamp ==> es[i].position.half_x
            as int / 2 < bound
}

proof fn lemma_has_number_grows(a: Seq<EntityView>, b: Seq<EntityView>)
    ensures
        forall|n: u32| has_number(a, n) ==> #[trigger] has_number(a + b, n),
        forall|n: u32| has_number(b, n) ==> #[trigger] has_number(a + b, n),
{
    assert forall|n: u32| has_number(a, n) implies #[trigger] has_number(a + b, n) by {
        let i = choose|i: int| 0 <= i < a.len() && (#[trigger] a[i]).number == n;
        assert((a + b)[i] == a[i]);
    }
    assert forall|n: u32| has_number(b, n) implies #[trigger] has_number(a + b, n) by {
        let i = choose|i: int| 0 <= i < b.len() && (#[trigger] b[i]).number == n;
        assert((a + b)[a.len() + i] == b[i]);
    }
}

proof fn lemma_join_concat(es: Seq<EntityView>, a: Seq<Wire>, b: Seq<Wire>)
    requires
        wires_join_entities(es, a),
        wires_join_entities(es, b),
    ensures
        wires_join_entities(es, a + b),
{
    assert forall|i: int| 0 <= i < (a + b).len() implies has_number(es, (#[trigger] (a + b)[i]).0)
        && has_number(es, (a + b)[i].2) by {
        if i < a.len() {
            assert((a + b)[i] == a[i]);
        } else {
            assert((a + b)[i] == b[i - a.len()]);
        }
    }
}

proof fn lemma_join_grows(a: Seq<EntityView>, b: Seq<EntityView>, ws: Seq<Wire>)
    requires
        wires_join_entities(a, ws),
    ensures
        wires_join_entities(a + b, ws),
{
    lemma_has_number_grows(a, b);
}

/// The counter and the power grid: every wire joins two of their entities,
/// none of them is a light, and the counter's third stage is numbered 3.
proof fn lemma_first_state(inp: Inputs, d: int, k: int)
    requires
        group_facts(inp, d, k),
    ensures
        ({
            let s = build_state(inp, 0);
            &&& wires_join_entities(s.entities, s.wires)
            &&& lights_clear_of(s.entities, power_of(inp).2)
            &&& has_number(s.entities, 3)
            &&& s.top_right is None
            &&& s.next == power_of(inp).3
            &&& forall|i: int|
                0 <= i < s.entities.len() ==> (#[trigger] s.entities[i]).kind
                    != EntityKind::SmallLamp
        }),
{
    let p = plan_of(inp);
    let power = power_of(inp);
    let s = build_state(inp, 0);
    let t = crate::timer::timer_entities(
        (p.count * p.ticks_per_frame) as u32,
        inp.bits,
        p.ticks_per_frame as u32,
        crate::blueprint::frames_per_group(inp.bits) as u32,
    );
    let tw = crate::timer::timer_wires(inp.bits);
    assert(s.entities == t + power.0);
    assert(t.len() == timer_next(inp.bits) - 1);
    assert forall|v: u32| 1 <= v < timer_next(inp.bits) implies #[trigger] has_number(s.entities, v) by {
        assert(s.entities[v - 1] == t[v - 1]);
    }
    assert(wires_join_entities(s.entities, tw)) by {
        assert forall|i: int| 0 <= i < tw.len() implies has_number(s.entities, (#[trigger] tw[i]).0)
            && has_number(s.entities, tw[i].2) by {
            assert(1 <= tw[i].0 < timer_next(inp.bits));
            assert(1 <= tw[i].2 < timer_next(inp.bits));
        }
    }
    assert(has_number(s.entities, 3));
    match inp.quality {
        None => {
            assert(power.1 =~= Seq::<Wire>::empty());
            assert(s.wires =~= tw);
            assert(s.entities =~= t);
        },
        Some(q) => {
            let fc = (p.max_rows + crate::blueprint::extra_rows(inp.bits)) as u32;
            let pp = pole_plan(q, p.width as u32, p.height as u32, fc, timer_next(inp.bits) as u32);
            let c = crate::power::coverage_of(q);
            lemma_ceil_excess(p.width, (c - 2) / 2, c);
            lemma_ceil_excess(p.height, (c - 2) / 2, c);
            lemma_ceil_excess(fc as int, (c - 2) / 2, c - 2);
            assert(pp.rows * pp.columns >= 0) by (nonlinear_arith)
                requires
                    pp.rows >= 0,
                    pp.columns >= 0,
            ;
            lemma_pole_entities_shape(pp);
            lemma_pole_links_join(pp, (pp.rows * pp.columns) as nat);
            let pe = power.0;
            assert(wires_join_entities(s.entities, power.1)) by {
                assert forall|i: int| 0 <= i < power.1.len() implies has_number(
                    s.entities,
                    (#[trigger] power.1[i]).0,
                ) && has_number(s.entities, power.1[i].2) by {
                    let a = power.1[i].0 - pp.start;
                    let b = power.1[i].2 - pp.start;
                    assert(s.entities[t.len() + a] == pe[a]);
                    assert(s.entities[t.len() + b] == pe[b]);
                }
            }
            lemma_join_concat(s.entities, tw, power.1);
            assert forall|i: int|
                0 <= i < s.entities.len() && (#[trigger] s.entities[i]).kind
                    == EntityKind::SmallLamp implies !cell_occupied(
                power.2,
                s.entities[i].position.half_x as int / 2,
                s.entities[i].position.half_y as int / 2,
            ) by {
                if i >= t.len() {
                    assert(s.entities[i] == pe[i - t.len()]);
                }
            }
            assert forall|i: int| 0 <= i < s.entities.len() implies (#[trigger] s.entities[
                i
            ]).kind != EntityKind::SmallLamp by {
                if i >= t.len() {
                    assert(s.entities[i] == pe[i - t.len()]);
                }
            }
        },
    }
}

/// Adding a column-group keeps every light on a position of its own: the
/// group's lights stand in its own columns, right of all earlier lights.
proof fn lemma_lights_step(inp: Inputs, d: int, k: int, gi: int)
    requires
        group_facts(inp, d, k),
        0 <= gi < plan_of(inp).group_count,
        power_of(inp).3 <= build_state(inp, gi as nat).next <= power_of(inp).3 + gi * k,
        lights_apart(build_state(inp, gi as nat).entities),
        lights_left_of(build_state(inp, gi as nat).entities, gi * plan_of(inp).group_width),
    ensures
        lights_apart(build_state(inp, (gi + 1) as nat).entities),
        lights_left_of(
            build_state(inp, (gi + 1) as nat).entities,
            (gi + 1) * plan_of(inp).group_width,
        ),
{
    let p = plan_of(inp);
    let power = power_of(inp);
    let bits = inp.bits;
    let s = build_state(inp, gi as nat);
    let ns = build_state(inp, (gi + 1) as nat);
    assert(ns == build_group(inp, s, gi));
    let left = gi * p.group_width;
    let outs = group_outputs(inp.frames, bits, left, p.group_width);
    let b = s.next as u32;
    let grid = grid_of(
        occupied_rows(power.2),
        (p.ticks_per_frame * crate::blueprint::frames_per_group(bits)) as u32,
        b,
        (2 * left + 1) as i64,
        base_row(bits) as i64,
        p.max_rows as u32,
        bits,
    );
    let ue = unpack_entities(b, 2 * left + 1, base_row(bits), bits);
    let de = decider_entities(grid, outs);
    let comb = ue + de;
    let ls = group_lamps(inp, gi, s.next);
    let es = s.entities + comb + ls.entities;
    assert(ns.entities == es);
    let h = p.height;
    let lg = LampGrid {
        width: p.group_width,
        height: h,
        occupied: power.2,
        start_x: left,
        start_y: 0,
        gray: bits > 0,
    };
    let start = lamp_start(inp, gi, s.next);
    assert(ls == crate::lamps::lamp_state(lg, start, (p.group_width * h) as nat));
    assert(gi * k + k == (gi + 1) * k) by (nonlinear_arith);
    assert((gi + 1) * k <= p.group_count * k) by (nonlinear_arith)
        requires
            gi + 1 <= p.group_count,
            k >= 0,
    ;
    assert(left + p.group_width <= p.width) by (nonlinear_arith)
        requires
            left == gi * p.group_width,
            gi + 1 <= p.group_count,
            p.group_count * p.group_width <= p.width,
            p.group_width >= 1,
    ;
    assert(0 <= left) by (nonlinear_arith)
        requires
            left == gi * p.group_width,
            gi >= 0,
            p.group_width >= 1,
    ;
    assert(left + p.group_width == (gi + 1) * p.group_width) by (nonlinear_arith)
        requires
            left == gi * p.group_width,
    ;
    assert(p.group_width * h >= 0) by (nonlinear_arith)
        requires
            p.group_width >= 1,
            h >= 1,
    ;
    assert(start == s.next + unpack_len(bits) + 2 * d);
    lemma_lamp_state_shape(lg, start, (p.group_width * h) as nat);
    let base = s.entities.len();
    let lb = base + comb.len();
    assert forall|i: int| base <= i < lb implies (#[trigger] es[i]).kind != EntityKind::SmallLamp by {
        if i < base + ue.len() {
            assert(es[i] == ue[i - base]);
        } else {
            assert(es[i] == de[i - base - ue.len()]);
        }
    }
    assert forall|i: int| lb <= i < es.len() implies (#[trigger] es[i]) == ls.entities[i - lb]
        && left <= es[i].position.half_x as int / 2 < (gi + 1) * p.group_width by {
        assert(es[i] == ls.entities[i - lb]);
    }
    assert forall|i: int| 0 <= i < base implies (#[trigger] es[i]) == s.entities[i] by {}
    assert forall|i1: int, i2: int|
        #![trigger es[i1], es[i2]]
        0 <= i1 < es.len() && 0 <= i2 < es.len() && i1 != i2 && es[i1].kind
            == EntityKind::SmallLamp && es[i2].kind == EntityKind::SmallLamp implies es[i1].position
        != es[i2].position by {
        if i1 < base && i2 < base {
            assert(es[i1] == s.entities[i1] && es[i2] == s.entities[i2]);
        } else if i1 >= lb && i2 >= lb {
            let j1 = i1 - lb;
            let j2 = i2 - lb;
            if j1 < j2 {
                assert(lamp_key(lg, ls.entities[j1]) < lamp_key(lg, ls.entities[j2]));
            } else {
                assert(lamp_key(lg, ls.entities[j2]) < lamp_key(lg, ls.entities[j1]));
            }
        } else if i1 < base {
            assert(es[i1] == s.entities[i1]);
        } else if i2 < base {
            assert(es[i2] == s.entities[i2]);
        }
    }
    assert forall|i: int|
        0 <= i < es.len() && (#[trigger] es[i]).kind == EntityKind::SmallLamp implies es[i].position.half_x
        as int / 2 < (gi + 1) * p.group_width by {
        if i < base {
            assert(es[i] == s.entities[i]);
            assert(gi * p.group_width <= (gi + 1) * p.group_width);
        }
    }
}

/// Adding a column-group keeps every wire joined and every light clear.
#[verifier::rlimit(100)]
#[verifier::spinoff_prover]
proof fn lemma_group_step(inp: Inputs, d: int, k: int, gi: int)
    requires
        group_facts(inp, d, k),
        0 <= gi < plan_of(inp).group_count,
        ({
            let s = build_state(inp, gi as nat);
            &&& wires_join_entities(s.entities, s.wires)
            &&& lights_clear_of(s.entities, power_of(inp).2)
            &&& has_number(s.entities, 3)
            &&& (s.top_right matches Some(t) ==> has_number(s.entities, t))
            &&& power_of(inp).3 <= s.next <= power_of(inp).3 + gi * k
        }),
    ensures
        ({
            let s = build_state(inp, (gi + 1) as nat);
            &&& wires_join_entities(s.entities, s.wires)
            &&& lights_clear_of(s.entities, power_of(inp).2)
            &&& has_number(s.entities, 3)
            &&& (s.top_right matches Some(t) ==> has_number(s.entities, t))
            &&& power_of(inp).3 <= s.next <= power_of(inp).3 + (gi + 1) * k
        }),
{
    let p = plan_of(inp);
    let power = power_of(inp);
    let bits = inp.bits;
    let s = build_state(inp, gi as nat);
    let ns = build_state(inp, (gi + 1) as nat);
    assert(ns == build_group(inp, s, gi));
    let left = gi * p.group_width;
    let outs = group_outputs(inp.frames, bits, left, p.group_width);
    assert(outs.len() == d);
    let b = s.next as u32;
    let grid = grid_of(
        occupied_rows(power.2),
        (p.ticks_per_frame * crate::blueprint::frames_per_group(bits)) as u32,
        b,
        (2 * left + 1) as i64,
        base_row(bits) as i64,
        p.max_rows as u32,
        bits,
    );
    let ue = unpack_entities(b, 2 * left + 1, base_row(bits), bits);
    let de = decider_entities(grid, outs);
    let comb = ue + de;
    let ls = group_lamps(inp, gi, s.next);
    let es = s.entities + comb + ls.entities;
    assert(ns.entities == es);
    let h = p.height;
    let lg = LampGrid {
        width: p.group_width,
        height: h,
        occupied: power.2,
        start_x: left,
        start_y: 0,
        gray: bits > 0,
    };
    let start = lamp_start(inp, gi, s.next);
    assert(ls == crate::lamps::lamp_state(lg, start, (p.group_width * h) as nat));
    assert(gi * k + k == (gi + 1) * k) by (nonlinear_arith);
    assert((gi + 1) * k <= p.group_count * k) by (nonlinear_arith)
        requires
            gi + 1 <= p.group_count,
            k >= 0,
    ;
    assert(left + p.group_width <= p.width) by (nonlinear_arith)
        requires
            left == gi * p.group_width,
            gi + 1 <= p.group_count,
            p.group_count * p.group_width <= p.width,
            p.group_width >= 1,
    ;
    assert(0 <= left) by (nonlinear_arith)
        requires
            left == gi * p.group_width,
            gi >= 0,
            p.group_width >= 1,
    ;
    assert(p.group_width * h >= 0) by (nonlinear_arith)
        requires
            p.group_width >= 1,
            h >= 1,
    ;
    assert(start == s.next + unpack_len(bits) + 2 * d);
    assert(b == s.next);
    lemma_lamp_state_bounds(lg, start, (p.group_width * h) as nat);
    lemma_lamp_state_shape(lg, start, (p.group_width * h) as nat);
    lemma_chain_wires_join(grid, d as nat);
    lemma_has_number_grows(s.entities, comb);
    lemma_has_number_grows(s.entities + comb, ls.entities);
    lemma_has_number_grows(ue, de);
    let base = s.entities.len();
    // the unpacking entities and the deciders
    assert forall|j: int| 0 <= j < d implies #[trigger] has_number(es, decider_number(grid, j)) by {
        assert(es[base + ue.len() + j] == de[j]);
    }
    assert forall|j: int| 0 <= j < ue.len() implies #[trigger] has_number(es, (b + j) as u32) by {
        assert(es[base + j] == ue[j]);
    }
    // the lights
    assert forall|j: int| 0 <= j < ls.entities.len() implies #[trigger] has_number(
        es,
        (start + j) as u32,
    ) by {
        assert(es[base + comb.len() + j] == ls.entities[j]);
    }
    assert forall|v: int| start <= v < ls.next implies #[trigger] has_number(es, v as u32) by {
        assert(has_number(es, (start + (v - start)) as u32));
    }
    let comb_wires = unpack_wires(b, bits) + chain_wires_upto(grid, d as nat);
    let first_conn = (if bits > 0 {
        s.next
    } else {
        s.next + 1
    }) as u32;
    assert(has_number(es, first_conn)) by {
        if bits == 0 {
            assert(decider_number(grid, 0) == first_conn);
        } else {
            assert(has_number(es, (b + 0) as u32));
        }
    }
    assert(wires_join_entities(es, unpack_wires(b, bits))) by {
        if bits > 0 {
            assert(ue.len() >= 2);
            assert(has_number(es, (b + 0) as u32));
            assert(b == (b + 0) as u32);
            assert(has_number(es, decider_number(grid, 0)));
            assert(decider_number(grid, 0) == (b + unpack_len(bits) + 1) as u32);
            assert(has_number(es, (b + 1) as u32));
            if bits == 1 || bits == 4 {
                assert(has_number(es, (b + 2) as u32));
            }
        }
    }
    assert(wires_join_entities(es, chain_wires_upto(grid, d as nat))) by {
        let cw = chain_wires_upto(grid, d as nat);
        assert forall|i: int| 0 <= i < cw.len() implies has_number(es, (#[trigger] cw[i]).0)
            && has_number(es, cw[i].2) by {
            let j0 = choose|j: int| 0 <= j < d && cw[i].0 == decider_number(grid, j);
            let j2 = choose|j: int| 0 <= j < d && cw[i].2 == decider_number(grid, j);
            assert(has_number(es, decider_number(grid, j0)));
            assert(has_number(es, decider_number(grid, j2)));
        }
    }
    lemma_join_grows(s.entities, comb + ls.entities, s.wires);
    assert(s.entities + (comb + ls.entities) =~= es);
    lemma_join_concat(es, s.wires, unpack_wires(b, bits));
    lemma_join_concat(es, s.wires + unpack_wires(b, bits), chain_wires_upto(grid, d as nat));
    assert(s.wires + comb_wires =~= s.wires + unpack_wires(b, bits) + chain_wires_upto(
        grid,
        d as nat,
    ));
    let tap: Seq<Wire> = if gi == 0 {
        seq![(3u32, 4u32, first_conn, 2u32)]
    } else {
        seq![]
    };
    assert(wires_join_entities(es, tap));
    lemma_join_concat(es, s.wires + comb_wires, tap);
    let has_lamp = ls.entities.len() > 0;
    let first_lamp = ls.entities[0].number;
    let last_shifter = (if bits == 1 || bits == 4 {
        first_conn + 2
    } else {
        first_conn + 1
    }) as u32;
    let link: Seq<Wire> = if !has_lamp {
        seq![]
    } else if bits > 0 {
        seq![(first_lamp, 2u32, first_conn, 2u32), (first_lamp, 1u32, last_shifter, 3u32)]
    } else {
        seq![(first_lamp, 1u32, first_conn, 3u32), (first_lamp, 2u32, first_conn, 2u32)]
    };
    if has_lamp {
        assert(has_number(es, (start + 0) as u32));
        assert(first_lamp == (start + 0) as u32);
        if bits > 0 {
            if bits == 1 || bits == 4 {
                assert(has_number(es, (b + 2) as u32));
            } else {
                assert(has_number(es, (b + 1) as u32));
            }
        }
    }
    assert(wires_join_entities(es, link));
    lemma_join_concat(es, s.wires + comb_wires + tap, link);
    assert(wires_join_entities(es, ls.wires)) by {
        assert forall|i: int| 0 <= i < ls.wires.len() implies has_number(
            es,
            (#[trigger] ls.wires[i]).0,
        ) && has_number(es, ls.wires[i].2) by {
            assert(has_number(es, ls.wires[i].0 as int as u32));
            assert(has_number(es, ls.wires[i].2 as int as u32));
        }
    }
    lemma_join_concat(es, s.wires + comb_wires + tap + link, ls.wires);
    let sync: Seq<Wire> = if has_lamp {
        match s.top_right {
            Some(t) => seq![(first_lamp, 2u32, t, 2u32)],
            None => seq![],
        }
    } else {
        seq![]
    };
    assert(wires_join_entities(es, sync));
    lemma_join_concat(es, s.wires + comb_wires + tap + link + ls.wires, sync);
    assert(ns.wires == s.wires + comb_wires + tap + link + ls.wires + sync);
    // lights stay clear
    assert forall|i: int|
        0 <= i < es.len() && (#[trigger] es[i]).kind == EntityKind::SmallLamp implies !cell_occupied(
        power.2,
        es[i].position.half_x as int / 2,
        es[i].position.half_y as int / 2,
    ) by {
        if i < base {
            assert(es[i] == s.entities[i]);
        } else if i < base + ue.len() {
            assert(es[i] == ue[i - base]);
        } else if i < base + comb.len() {
            assert(es[i] == de[i - base - ue.len()]);
        } else {
            assert(es[i] == ls.entities[i - base - comb.len()]);
        }
    }
    assert(has_number(es, 3));
    if let Some(t) = ns.top_right {
        assert(has_number(es, t as int as u32));
    }
}

proof fn lemma_state_upto(inp: Inputs, d: int, k: int, i: nat)
    requires
        group_facts(inp, d, k),
        i <= plan_of(inp).group_count,
    ensures
        ({
            let s = build_state(inp, i);
            &&& wires_join_entities(s.entities, s.wires)
            &&& lights_clear_of(s.entities, power_of(inp).2)
            &&& has_number(s.entities, 3)
            &&& (s.top_right matches Some(t) ==> has_number(s.entities, t))
            &&& power_of(inp).3 <= s.next <= power_of(inp).3 + i * k
            &&& lights_apart(s.entities)
            &&& lights_left_of(s.entities, i * plan_of(inp).group_width)
        }),
    decreases i,
{
    if i == 0 {
        lemma_first_state(inp, d, k);
    } else {
        lemma_state_upto(inp, d, k, (i - 1) as nat);
        lemma_group_step(inp, d, k, i - 1);
        lemma_lights_step(inp, d, k, i - 1);
    }
}

/// Every graph that the assembler builds is consistent: each wire joins two
/// entities of the graph, no light stands on a cell that a power pole
/// occupies, and no two lights stand on the same position.
pub proof fn lemma_graph_is_consistent(inp: Inputs)
    requires
        buildable(inp),
    ensures
        ({
            let s = build_state(inp, plan_of(inp).group_count as nat);
            &&& wires_join_entities(s.entities, s.wires)
            &&& lights_clear_of(s.entities, power_of(inp).2)
            &&& lights_apart(s.entities)
        }),
{
    lemma_group_facts(inp);
    crate::blueprint::lemma_plan_counts(inp);
    lemma_state_upto(
        inp,
        deciders_per_group(inp),
        numbers_per_group(inp),
        plan_of(inp).group_count as nat,
    );
}

/// Running the assembler twice on the same inputs gives the same graph: the
/// same entities, numbered alike and in the same order, and the same wires.
pub proof fn lemma_build_is_deterministic(inp: Inputs, first: Blueprint, second: Blueprint)
    requires
        entities_view(first.blueprint.entities@) == build_state(
            inp,
            plan_of(inp).group_count as nat,
        ).entities,
        first.blueprint.wires@ == build_state(inp, plan_of(inp).group_count as nat).wires,
        entities_view(second.blueprint.entities@) == build_state(
            inp,
            plan_of(inp).group_count as nat,
        ).entities,
        second.blueprint.wires@ == build_state(inp, plan_of(inp).group_count as nat).wires,
    ensures
        entities_view(first.blueprint.entities@) == entities_view(second.blueprint.entities@),
        first.blueprint.wires@ == second.blueprint.wires@,
{
}

} // verus!
