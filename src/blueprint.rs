use vstd::prelude::*;
use crate::constants::{BLUEPRINT_VERSION, TICKS_PER_SECOND};
use crate::lamps::{generate_lamps, lamp_state, LampGrid};
use crate::layout::{
    chain_wires_upto, decider_entities, generate_frame_combinators, grid_of, outputs_view,
    unpack_entities, unpack_wires,
};
use crate::models::{
    entities_view, Blueprint, BlueprintError, BlueprintInner, CombinatorOutput, Entity, EntityView,
    Icon, Quality, Signal, Wire,
};
use crate::power::{generate_substations, substations_spec};
use crate::timer::{generate_timer, timer_entities, timer_wires};
use crate::pixels::{
    color_outputs, crop_pixels, frame_pixels, frame_to_outputs, pack_grayscale_frames_to_outputs,
    packable, packed_outputs, Frame,
};

verus! {

/// `ceil(a / b)` for `a >= 0`, `b > 0`.
pub open spec fn ceil_div(a: int, b: int) -> int {
    (a + b - 1) / b
}

/// Frames carried by one decider: `32 / bits` when packed, else 1.
pub open spec fn frames_per_group(grayscale_bits: u32) -> int {
    if grayscale_bits > 0 {
        32int / (grayscale_bits as int)
    } else {
        1
    }
}

/// Frames of one size, each well formed, and luma when packed.
pub open spec fn uniform_frames(frames: Seq<Frame>, grayscale_bits: u32) -> bool {
    forall|i: int|
        0 <= i < frames.len() ==> {
            &&& #[trigger] frames[i].wf()
            &&& frames[i].width == frames[0].width
            &&& frames[i].height == frames[0].height
            &&& (grayscale_bits > 0 ==> frames[i].channels == 1)
        }
}

/// The frames of group `k` of `per` frames, cropped to `width` columns from `left`.
pub open spec fn chunk_pixels(
    frames: Seq<Frame>,
    per: int,
    k: int,
    left: int,
    width: int,
) -> Seq<Seq<u8>> {
    let len = if frames.len() - k * per < per {
        frames.len() - k * per
    } else {
        per
    };
    Seq::new(len as nat, |j: int| crop_pixels(frames[k * per + j], left, width))
}

/// The outputs of each decider of a column-group: one per frame in full
/// color, one per group of `32 / bits` frames when packed.
pub open spec fn group_outputs(
    frames: Seq<Frame>,
    grayscale_bits: u32,
    left: int,
    width: int,
) -> Seq<Seq<CombinatorOutput>> {
    let area = width * frames[0].height;
    if grayscale_bits == 0 {
        Seq::new(
            frames.len(),
            |i: int| color_outputs(frames[i].channels, crop_pixels(frames[i], left, width), area),
        )
    } else {
        let per = frames_per_group(grayscale_bits);
        Seq::new(
            ceil_div(frames.len() as int, per) as nat,
            |k: int|
                packed_outputs(
                    chunk_pixels(frames, per, k, left, width),
                    area,
                    grayscale_bits,
                ),
        )
    }
}

/// Where group `k` of `per` frames starts, and whether another follows.
proof fn lemma_chunk_step(n: int, per: int, k: int)
    requires
        n > 0,
        per > 0,
        0 <= k,
        k * per < n,
    ensures
        k < ceil_div(n, per),
        n - k * per < per ==> k + 1 == ceil_div(n, per),
        n - k * per >= per ==> (k + 1) * per == k * per + per,
        (k + 1) * per < n ==> k + 1 < ceil_div(n, per),
        (k + 1) * per >= n ==> k + 1 == ceil_div(n, per),
{
    let c = ceil_div(n, per);
    vstd::arithmetic::div_mod::lemma_fundamental_div_mod(n + per - 1, per);
    let r = (n + per - 1) % per;
    assert(c * per + r == n + per - 1) by (nonlinear_arith)
        requires
            per * c + r == n + per - 1,
    ;
    assert((k + 1) * per == k * per + per) by (nonlinear_arith);
    if (k + 1) * per >= n {
        assert(k + 1 == c) by (nonlinear_arith)
            requires
                c * per + r == n + per - 1,
                0 <= r < per,
                k * per < n,
                (k + 1) * per >= n,
                per > 0,
        ;
    } else {
        assert(k + 1 < c) by (nonlinear_arith)
            requires
                c * per + r == n + per - 1,
                0 <= r < per,
                (k + 1) * per < n,
                per > 0,
        ;
    }
}

/// Encodes every frame (or group of frames) of a column-group, cropped to
/// `width` columns from `left`.
pub fn group_frame_outputs(
    frames: &Vec<Frame>,
    signals: &Vec<Signal>,
    grayscale_bits: u32,
    left: u32,
    width: u32,
) -> (r: Result<Vec<Vec<CombinatorOutput>>, BlueprintError>)
    requires
        frames@.len() > 0,
        uniform_frames(frames@, grayscale_bits),
        grayscale_bits == 0 || grayscale_bits == 1 || grayscale_bits == 4 || grayscale_bits == 8,
        0 < width,
        left + width <= frames@[0].width,
    ensures
        r is Err <==> width * frames@[0].height > signals@.len(),
        r is Err ==> r == Err::<Vec<Vec<CombinatorOutput>>, BlueprintError>(
            BlueprintError::InsufficientSignalBudget,
        ),
        r matches Ok(o) ==> outputs_view(o@) == group_outputs(
            frames@,
            grayscale_bits,
            left as int,
            width as int,
        ),
{
    let n = frames.len();
    let ghost target = group_outputs(frames@, grayscale_bits, left as int, width as int);
    let ghost h = frames@[0].height;
    assert(frames@[0].wf());
    proof {
        assert(width * h <= frames@[0].width * h * frames@[0].channels) by (nonlinear_arith)
            requires
                width <= frames@[0].width,
                frames@[0].channels >= 1,
                h >= 0,
        ;
    }
    let total = frames[0].pixels.len();
    let area = (width as usize) * (frames[0].height as usize);
    if area > signals.len() {
        return Err(BlueprintError::InsufficientSignalBudget);
    }
    let mut outputs: Vec<Vec<CombinatorOutput>> = Vec::new();
    if grayscale_bits == 0 {
        let mut i: usize = 0;
        while i < n
            invariant
                n == frames@.len(),
                n > 0,
                uniform_frames(frames@, grayscale_bits),
                grayscale_bits == 0,
                0 < width,
                left + width <= frames@[0].width,
                h == frames@[0].height,
                width * h <= signals@.len(),
                i <= n,
                target == group_outputs(frames@, grayscale_bits, left as int, width as int),
                outputs_view(outputs@) =~= target.take(i as int),
            decreases n - i,
        {
            assert(frames@[i as int].wf());
            let cropped = frames[i].crop(left, width);
            match frame_to_outputs(&cropped, signals) {
                Ok(o) => {
                    let ghost before = outputs@;
                    outputs.push(o);
                    assert(outputs_view(outputs@) =~= outputs_view(before).push(o@));
                    assert(outputs_view(outputs@) =~= target.take(i + 1));
                },
                Err(e) => {
                    return Err(e);
                },
            }
            i = i + 1;
        }
        assert(target.take(n as int) =~= target);
    } else {
        let per: usize = (32 / grayscale_bits) as usize;
        assert(per >= 4 && grayscale_bits * per <= 32 && per == frames_per_group(grayscale_bits)) by {
            if grayscale_bits == 1 {
                assert(32u32 / 1u32 == 32);
            } else if grayscale_bits == 4 {
                assert(32u32 / 4u32 == 8);
            } else {
                assert(32u32 / 8u32 == 4);
            }
        }
        let ghost chunks = ceil_div(n as int, per as int);
        proof {
            lemma_chunk_step(n as int, per as int, 0);
            let q = (n + per - 1) / (per as int);
            vstd::arithmetic::div_mod::lemma_fundamental_div_mod(n + per - 1, per as int);
            assert(q <= n) by (nonlinear_arith)
                requires
                    per * q + (n + per - 1) % (per as int) == n + per - 1,
                    (n + per - 1) % (per as int) >= 0,
                    per >= 1,
                    n >= 1,
            ;
        }
        let mut k: usize = 0;
        let mut start: usize = 0;
        while start < n
            invariant
                n == frames@.len(),
                n > 0,
                uniform_frames(frames@, grayscale_bits),
                grayscale_bits == 1 || grayscale_bits == 4 || grayscale_bits == 8,
                per == frames_per_group(grayscale_bits),
                per >= 4,
                grayscale_bits * per <= 32,
                0 < width,
                left + width <= frames@[0].width,
                h == frames@[0].height,
                width * h <= signals@.len(),
                start < n ==> start == k * per,
                start <= n,
                k <= chunks,
                chunks <= n,
                chunks == ceil_div(n as int, per as int),
                start < n ==> k < chunks,
                start >= n ==> k == chunks,
                target == group_outputs(frames@, grayscale_bits, left as int, width as int),
                outputs_view(outputs@) =~= target.take(k as int),
            decreases n - start,
        {
            let end = if n - start < per {
                n
            } else {
                start + per
            };
            let mut chunk: Vec<Frame> = Vec::new();
            let mut j: usize = start;
            while j < end
                invariant
                    n == frames@.len(),
                    uniform_frames(frames@, grayscale_bits),
                    grayscale_bits == 1 || grayscale_bits == 4 || grayscale_bits == 8,
                    0 < width,
                    left + width <= frames@[0].width,
                    start <= j <= end,
                    end <= n,
                    chunk@.len() == j - start,
                    forall|m: int|
                        0 <= m < chunk@.len() ==> {
                            &&& (#[trigger] chunk@[m]).wf()
                            &&& chunk@[m].width == width
                            &&& chunk@[m].height == frames@[0].height
                            &&& chunk@[m].channels == 1
                            &&& chunk@[m].pixels@ == crop_pixels(
                                frames@[start + m],
                                left as int,
                                width as int,
                            )
                        },
                decreases end - j,
            {
                assert(frames@[j as int].wf());
                chunk.push(frames[j].crop(left, width));
                j = j + 1;
            }
            proof {
                assert(packable(chunk@, grayscale_bits));
                assert(frame_pixels(chunk@) =~= chunk_pixels(
                    frames@,
                    per as int,
                    k as int,
                    left as int,
                    width as int,
                ));
                assert(chunk@[0].area() == width * h);
                lemma_chunk_step(n as int, per as int, k as int);
            }
            match pack_grayscale_frames_to_outputs(&chunk, signals, grayscale_bits) {
                Ok(o) => {
                    let ghost before = outputs@;
                    outputs.push(o);
                    assert(outputs_view(outputs@) =~= outputs_view(before).push(o@));
                    assert(outputs_view(outputs@) =~= target.take(k + 1));
                },
                Err(e) => {
                    return Err(e);
                },
            }
            start = end;
            k = k + 1;
        }
        assert(target.take(k as int) =~= target);
    }
    Ok(outputs)
}

/// What the assembler is given: the frames, the size of the signal table,
/// the frame rate, the sample depth and the pole tier.
pub struct Inputs {
    pub frames: Seq<Frame>,
    pub signal_count: int,
    pub fps: u32,
    pub bits: u32,
    pub quality: Option<Quality>,
}

/// The layout parameters derived from the inputs.
pub struct Plan {
    pub width: int,
    pub height: int,
    pub count: int,
    pub column_budget: int,
    pub group_count: int,
    pub group_width: int,
    pub max_rows: int,
    pub ticks_per_frame: int,
}

/// Columns that the signal table allows: `min(signal_count / height, width)`.
pub open spec fn column_budget(signal_count: int, width: int, height: int) -> int {
    let by_signals = signal_count / height;
    if by_signals < width {
        by_signals
    } else {
        width
    }
}

/// Rows of deciders in one column: `ceil(ceil(n / floor(columns / 2)) / per)`;
/// with fewer than two columns the column is unbounded and holds them all.
pub open spec fn max_rows_per_group(count: int, group_width: int, grayscale_bits: u32) -> int {
    let per = frames_per_group(grayscale_bits);
    let half = group_width / 2;
    if half == 0 {
        ceil_div(count, per)
    } else {
        ceil_div(ceil_div(count, half), per)
    }
}

pub open spec fn plan_of(inp: Inputs) -> Plan {
    let w = inp.frames[0].width as int;
    let h = inp.frames[0].height as int;
    let n = inp.frames.len() as int;
    let budget = column_budget(inp.signal_count, w, h);
    let groups = ceil_div(w, budget);
    let gw = w / groups;
    Plan {
        width: w,
        height: h,
        count: n,
        column_budget: budget,
        group_count: groups,
        group_width: gw,
        max_rows: max_rows_per_group(n, gw, inp.bits),
        ticks_per_frame: TICKS_PER_SECOND as int / (inp.fps as int),
    }
}

/// Rows that the unpacking entities add above the deciders.
pub open spec fn extra_rows(grayscale_bits: u32) -> int {
    if grayscale_bits == 1 || grayscale_bits == 4 {
        2
    } else if grayscale_bits == 8 {
        1
    } else {
        0
    }
}

/// The row of the first decider.
pub open spec fn base_row(grayscale_bits: u32) -> int {
    if grayscale_bits == 1 || grayscale_bits == 4 {
        -5
    } else if grayscale_bits == 8 {
        -4
    } else {
        -3
    }
}

/// The first number after the counter.
pub open spec fn timer_next(grayscale_bits: u32) -> int {
    if grayscale_bits > 0 {
        7
    } else {
        4
    }
}

/// The power grid of a run: poles, links, occupied cells, next number.
pub open spec fn power_of(inp: Inputs) -> (Seq<EntityView>, Seq<Wire>, Seq<(i64, i64)>, int) {
    let p = plan_of(inp);
    substations_spec(
        inp.quality,
        p.width as u32,
        p.height as u32,
        (p.max_rows + extra_rows(inp.bits)) as u32,
        timer_next(inp.bits) as u32,
    )
}

/// The rows of a list of cells.
pub open spec fn occupied_rows(cells: Seq<(i64, i64)>) -> Seq<i64> {
    cells.map_values(|c: (i64, i64)| c.1)
}

/// The graph built so far: entities, wires, next free number, and the
/// top-right light of the last column-group.
pub struct BuildState {
    pub entities: Seq<EntityView>,
    pub wires: Seq<Wire>,
    pub next: int,
    pub top_right: Option<u32>,
}

/// The first number of column-group `gi`'s lights, given its first number.
pub open spec fn lamp_start(inp: Inputs, gi: int, next: int) -> int {
    let p = plan_of(inp);
    let outs = group_outputs(inp.frames, inp.bits, gi * p.group_width, p.group_width);
    next + unpack_len_of(inp.bits) + 2 * outs.len()
}

pub open spec fn unpack_len_of(grayscale_bits: u32) -> int {
    crate::layout::unpack_len(grayscale_bits)
}

/// The lights of column-group `gi`, numbered after its combinators.
pub open spec fn group_lamps(inp: Inputs, gi: int, next: int) -> crate::lamps::LampState {
    let p = plan_of(inp);
    let lg = LampGrid {
        width: p.group_width,
        height: p.height,
        occupied: power_of(inp).2,
        start_x: gi * p.group_width,
        start_y: 0,
        gray: inp.bits > 0,
    };
    lamp_state(lg, lamp_start(inp, gi, next), (p.group_width * p.height) as nat)
}

/// Column-group `gi` added to the graph: its combinators and lights, the tap
/// from the counter (first group only), the link from the combinator block to
/// its first light, and the link from its first light to the previous group's
/// top-right light.
pub open spec fn build_group(inp: Inputs, s: BuildState, gi: int) -> BuildState {
    let p = plan_of(inp);
    let bits = inp.bits;
    let left = gi * p.group_width;
    let outs = group_outputs(inp.frames, bits, left, p.group_width);
    let grid = grid_of(
        occupied_rows(power_of(inp).2),
        (p.ticks_per_frame * frames_per_group(bits)) as u32,
        s.next as u32,
        (2 * left + 1) as i64,
        base_row(bits) as i64,
        p.max_rows as u32,
        bits,
    );
    let comb_entities = unpack_entities(s.next as u32, 2 * left + 1, base_row(bits), bits)
        + decider_entities(grid, outs);
    let comb_wires = unpack_wires(s.next as u32, bits) + chain_wires_upto(grid, outs.len());
    let first_conn = (if bits > 0 {
        s.next
    } else {
        s.next + 1
    }) as u32;
    let tap: Seq<Wire> = if gi == 0 {
        seq![(3u32, 4u32, first_conn, 2u32)]
    } else {
        seq![]
    };
    let ls = group_lamps(inp, gi, s.next);
    let has_lamp = ls.entities.len() > 0;
    let first_lamp = ls.entities[0].number;
    let last_shifter = (if bits == 1 || bits == 4 {
        first_conn + 2
    } else {
        first_conn + 1
    }) as u32;
    let link: Seq<Wire> = if !has_lamp {
        seq![]
    } else if bits > 0 {
        seq![(first_lamp, 2u32, first_conn, 2u32), (first_lamp, 1u32, last_shifter, 3u32)]
    } else {
        seq![(first_lamp, 1u32, first_conn, 3u32), (first_lamp, 2u32, first_conn, 2u32)]
    };
    let sync: Seq<Wire> = if has_lamp {
        match s.top_right {
            Some(t) => seq![(first_lamp, 2u32, t, 2u32)],
            None => seq![],
        }
    } else {
        seq![]
    };
    BuildState {
        entities: s.entities + comb_entities + ls.entities,
        wires: s.wires + comb_wires + tap + link + ls.wires + sync,
        next: ls.next,
        top_right: ls.row_last,
    }
}

/// The graph after the counter, the power grid and the first `k` column-groups.
pub open spec fn build_state(inp: Inputs, k: nat) -> BuildState
    decreases k,
{
    if k == 0 {
        let p = plan_of(inp);
        let power = power_of(inp);
        BuildState {
            entities: timer_entities(
                (p.count * p.ticks_per_frame) as u32,
                inp.bits,
                p.ticks_per_frame as u32,
                frames_per_group(inp.bits) as u32,
            ) + power.0,
            wires: timer_wires(inp.bits) + power.1,
            next: power.3,
            top_right: None,
        }
    } else {
        build_group(inp, build_state(inp, (k - 1) as nat), k - 1)
    }
}

/// Sizes for which entity numbers fit in 32 bits.
pub open spec fn within_limits(width: int, height: int, count: int) -> bool {
    &&& (count + 32) * 60 <= u32::MAX
    &&& 8 + (width + 1) * (height + count + 3) + width * (4 + 2 * count) + width * height
        <= u32::MAX
}

proof fn lemma_ceil_div(a: int, b: int)
    requires
        a >= 0,
        b >= 1,
    ensures
        0 <= ceil_div(a, b) <= a,
        ceil_div(a, b) * b >= a,
        ceil_div(a, b) * b <= a + b - 1,
        a >= 1 ==> ceil_div(a, b) >= 1,
{
    let q = ceil_div(a, b);
    vstd::arithmetic::div_mod::lemma_fundamental_div_mod(a + b - 1, b);
    let r = (a + b - 1) % b;
    assert(q * b + r == a + b - 1) by (nonlinear_arith)
        requires
            b * q + r == a + b - 1,
    ;
    assert(0 <= q <= a) by (nonlinear_arith)
        requires
            q * b + r == a + b - 1,
            0 <= r < b,
            a >= 0,
            b >= 1,
    ;
    assert(a >= 1 ==> q >= 1) by (nonlinear_arith)
        requires
            q * b + r == a + b - 1,
            0 <= r < b,
            b >= 1,
    ;
}

/// The column-groups: `1 <= groups <= width`, `1 <= group_width <= budget`,
/// and all groups fit in the width.
proof fn lemma_groups(w: int, budget: int)
    requires
        1 <= budget <= w,
    ensures
        1 <= ceil_div(w, budget) <= w,
        1 <= w / ceil_div(w, budget) <= budget,
        ceil_div(w, budget) * (w / ceil_div(w, budget)) <= w,
{
    lemma_ceil_div(w, budget);
    let g = ceil_div(w, budget);
    vstd::arithmetic::div_mod::lemma_fundamental_div_mod(w, g);
    let gw = w / g;
    let r = w % g;
    assert(g * gw <= w) by (nonlinear_arith)
        requires
            g * gw + r == w,
            r >= 0,
    ;
    assert(gw >= 1) by (nonlinear_arith)
        requires
            g * gw + r == w,
            0 <= r < g,
            g <= w,
    ;
    assert(gw <= budget) by (nonlinear_arith)
        requires
            g * gw <= w,
            g * budget >= w,
            g >= 1,
    ;
}

/// Rows per column and decider count are at most the frame count.
proof fn lemma_rows(n: int, gw: int, bits: u32)
    requires
        n >= 1,
        gw >= 1,
        bits == 0 || bits == 1 || bits == 4 || bits == 8,
    ensures
        1 <= frames_per_group(bits) <= 32,
        0 <= max_rows_per_group(n, gw, bits) <= n,
        1 <= ceil_div(n, frames_per_group(bits)) <= n,
        ceil_div(n, frames_per_group(bits)) * frames_per_group(bits) <= n + 31,
{
    let per = frames_per_group(bits);
    assert(1 <= per <= 32) by {
        if bits == 1 {
            assert(32int / 1int == 32);
        } else if bits == 4 {
            assert(32int / 4int == 8);
        } else if bits == 8 {
            assert(32int / 8int == 4);
        }
    }
    lemma_ceil_div(n, per);
    let half = gw / 2;
    if half > 0 {
        lemma_ceil_div(n, half);
        lemma_ceil_div(ceil_div(n, half), per);
    }
}

pub proof fn lemma_ceil_excess(v: int, half: int, step: int)
    requires
        v >= 0,
        half >= 0,
        step >= 1,
    ensures
        0 <= crate::power::ceil_excess(v, half, step) <= v,
{
    if v > half {
        lemma_ceil_div(v - half, step);
    }
}

/// The power grid fits the limits: its poles number at most
/// `(width + 1) * (height + frames + 3)`.
proof fn lemma_power_bound(inp: Inputs)
    requires
        inp.frames.len() >= 1,
        inp.frames[0].height >= 1,
        plan_of(inp).column_budget >= 1,
        inp.bits == 0 || inp.bits == 1 || inp.bits == 4 || inp.bits == 8,
        within_limits(
            inp.frames[0].width as int,
            inp.frames[0].height as int,
            inp.frames.len() as int,
        ),
    ensures
        ({
            let p = plan_of(inp);
            let fc = (p.max_rows + extra_rows(inp.bits)) as u32;
            &&& fc == p.max_rows + extra_rows(inp.bits)
            &&& 0 <= crate::power::pole_count(inp.quality, p.width as u32, p.height as u32, fc)
                <= (p.width + 1) * (p.height + p.count + 3)
            &&& power_of(inp).3 == timer_next(inp.bits) + crate::power::pole_count(
                inp.quality,
                p.width as u32,
                p.height as u32,
                fc,
            )
            &&& power_of(inp).3 <= 7 + (p.width + 1) * (p.height + p.count + 3)
        }),
{
    let p = plan_of(inp);
    lemma_groups(p.width, p.column_budget);
    lemma_rows(p.count, p.group_width, inp.bits);
    let fc = p.max_rows + extra_rows(inp.bits);
    match inp.quality {
        None => {
            assert(0 <= (p.width + 1) * (p.height + p.count + 3)) by (nonlinear_arith)
                requires
                    p.width >= 0,
                    p.height >= 0,
                    p.count >= 0,
            ;
        },
        Some(t) => {
            let c = crate::power::coverage_of(t);
            let half = (c - 2) / 2;
            lemma_ceil_excess(p.width, half, c);
            lemma_ceil_excess(p.height, half, c);
            lemma_ceil_excess(fc, half, c - 2);
            let pp = crate::power::pole_plan(t, p.width as u32, p.height as u32, fc as u32, 0);
            let pq = crate::power::pole_plan(
                t,
                p.width as u32,
                p.height as u32,
                fc as u32,
                timer_next(inp.bits) as u32,
            );
            assert(pp.rows == pq.rows && pp.columns == pq.columns);
            assert(1 <= pp.columns <= p.width + 1);
            assert(1 <= pp.rows <= p.height + p.count + 3);
            assert(pp.rows * pp.columns <= (p.width + 1) * (p.height + p.count + 3))
                by (nonlinear_arith)
                requires
                    1 <= pp.columns <= p.width + 1,
                    1 <= pp.rows <= p.height + p.count + 3,
            ;
        },
    }
}

/// The facts about a run that every column-group relies on.
pub open spec fn group_facts(inp: Inputs, d: int, k: int) -> bool {
    let p = plan_of(inp);
    let power = power_of(inp);
    let per = frames_per_group(inp.bits);
    &&& inp.frames.len() >= 1
    &&& p.height >= 1
    &&& inp.bits == 0 || inp.bits == 1 || inp.bits == 4 || inp.bits == 8
    &&& uniform_frames(inp.frames, inp.bits)
    &&& 1 <= p.group_width
    &&& 1 <= p.group_count
    &&& p.group_count * p.group_width <= p.width
    &&& p.group_width * p.height <= inp.signal_count
    &&& d == (if inp.bits == 0 {
        p.count
    } else {
        ceil_div(p.count, per)
    })
    &&& 1 <= d <= p.count
    &&& k == 3 + 2 * d + p.group_width * p.height
    &&& 1 <= per <= 32
    &&& d * (p.ticks_per_frame * per) <= u32::MAX
    &&& 0 <= p.ticks_per_frame <= 60
    &&& p.width <= u32::MAX
    &&& 0 <= p.max_rows <= u32::MAX
    &&& power.3 + p.group_count * k <= u32::MAX
}

/// Valid inputs on which the assembler succeeds.
pub open spec fn buildable(inp: Inputs) -> bool {
    &&& inp.fps > 0
    &&& inp.bits == 0 || inp.bits == 1 || inp.bits == 4 || inp.bits == 8
    &&& uniform_frames(inp.frames, inp.bits)
    &&& inp.frames.len() > 0
    &&& inp.frames[0].height > 0
    &&& within_limits(
        inp.frames[0].width as int,
        inp.frames[0].height as int,
        inp.frames.len() as int,
    )
    &&& inp.signal_count >= 0
    &&& plan_of(inp).column_budget > 0
}

/// Number of deciders per column-group.
pub open spec fn deciders_per_group(inp: Inputs) -> int {
    if inp.bits == 0 {
        inp.frames.len() as int
    } else {
        ceil_div(inp.frames.len() as int, frames_per_group(inp.bits))
    }
}

/// Entity numbers that one column-group may take.
pub open spec fn numbers_per_group(inp: Inputs) -> int {
    3 + 2 * deciders_per_group(inp) + plan_of(inp).group_width * plan_of(inp).height
}

/// On inputs the assembler accepts, the facts that each column-group relies on hold.
pub proof fn lemma_group_facts(inp: Inputs)
    requires
        buildable(inp),
    ensures
        group_facts(inp, deciders_per_group(inp), numbers_per_group(inp)),
{
    let p = plan_of(inp);
    let w = p.width;
    let h = p.height;
    let n = p.count;
    let d = deciders_per_group(inp);
    let k = numbers_per_group(inp);
    let per = frames_per_group(inp.bits);
    lemma_groups(w, p.column_budget);
    lemma_rows(n, p.group_width, inp.bits);
    lemma_power_bound(inp);
    let by_signals = inp.signal_count / h;
    vstd::arithmetic::div_mod::lemma_fundamental_div_mod(inp.signal_count, h);
    assert(by_signals * h <= inp.signal_count) by (nonlinear_arith)
        requires
            h * by_signals + inp.signal_count % h == inp.signal_count,
            inp.signal_count % h >= 0,
    ;
    assert(p.group_width * h <= inp.signal_count) by (nonlinear_arith)
        requires
            p.group_width <= p.column_budget,
            p.column_budget <= by_signals,
            by_signals * h <= inp.signal_count,
            h >= 1,
    ;
    assert(p.group_count * k <= w * (3 + 2 * n) + w * h) by (nonlinear_arith)
        requires
            k == 3 + 2 * d + p.group_width * h,
            1 <= p.group_count <= w,
            p.group_count * p.group_width <= w,
            0 <= d <= n,
            h >= 0,
    ;
    assert(w * (3 + 2 * n) <= w * (4 + 2 * n)) by (nonlinear_arith)
        requires
            w >= 0,
    ;
    assert(0 <= p.ticks_per_frame <= 60) by {
        vstd::arithmetic::div_mod::lemma_div_is_ordered_by_denominator(60, 1, inp.fps as int);
    }
    assert(d * (p.ticks_per_frame * per) <= u32::MAX) by (nonlinear_arith)
        requires
            d * per <= n + 31,
            0 <= p.ticks_per_frame <= 60,
            (n + 32) * 60 <= u32::MAX,
            d >= 0,
            per >= 1,
    ;
}

/// The group count is at least one on inputs the assembler accepts.
pub proof fn lemma_plan_counts(inp: Inputs)
    requires
        buildable(inp),
    ensures
        plan_of(inp).group_count >= 1,
{
    lemma_groups(plan_of(inp).width, plan_of(inp).column_budget);
}

/// Adds column-group `group_index` to the graph: encodes its crop, lays out
/// its selection logic and its lights, and joins them to the counter, to each
/// other and to the previous group. Returns the next free number and the
/// group's top-right light.
#[verifier::rlimit(100)]
#[verifier::spinoff_prover]
fn add_column_group(
    Ghost(inp): Ghost<Inputs>,
    Ghost(d): Ghost<int>,
    Ghost(k): Ghost<int>,
    frames: &Vec<Frame>,
    signals: &Vec<Signal>,
    occupied_cells: &Vec<(i64, i64)>,
    occupied_y: &Vec<i64>,
    group_index: u32,
    group_width: u32,
    full_height: u32,
    ticks_per_group: u32,
    max_rows_per_group: u32,
    grayscale_bits: u32,
    next_entity: u32,
    previous_top_right: Option<u32>,
    all_entities: &mut Vec<Entity>,
    all_wires: &mut Vec<Wire>,
) -> (r: (u32, Option<u32>))
    requires
        group_facts(inp, d, k),
        frames@ == inp.frames,
        signals@.len() == inp.signal_count,
        grayscale_bits == inp.bits,
        group_index < plan_of(inp).group_count,
        group_width == plan_of(inp).group_width,
        full_height == plan_of(inp).height,
        ticks_per_group == plan_of(inp).ticks_per_frame * frames_per_group(inp.bits),
        max_rows_per_group == plan_of(inp).max_rows,
        occupied_cells@ == power_of(inp).2,
        occupied_y@ == occupied_rows(power_of(inp).2),
        power_of(inp).3 <= next_entity,
        next_entity + k <= power_of(inp).3 + plan_of(inp).group_count * k,
        ({
            let s = build_state(inp, group_index as nat);
            &&& entities_view(old(all_entities)@) == s.entities
            &&& old(all_wires)@ == s.wires
            &&& next_entity == s.next
            &&& previous_top_right == s.top_right
        }),
    ensures
        next_entity <= r.0 <= next_entity + k,
        ({
            let s = build_state(inp, (group_index + 1) as nat);
            &&& entities_view(final(all_entities)@) == s.entities
            &&& final(all_wires)@ == s.wires
            &&& r.0 == s.next
            &&& r.1 == s.top_right
        }),
{
    let ghost p = plan_of(inp);
    let ghost power = power_of(inp);
    let ghost h = p.height;
    let ghost gi = group_index as int;
    let ghost s = build_state(inp, gi as nat);
    let use_grayscale = grayscale_bits > 0;
    proof {
        assert((gi + 1) * p.group_width <= p.group_count * p.group_width) by (nonlinear_arith)
            requires
                gi + 1 <= p.group_count,
                p.group_width >= 1,
        ;
        assert(gi * p.group_width + p.group_width == (gi + 1) * p.group_width)
            by (nonlinear_arith);
        assert(p.group_width * h >= 1) by (nonlinear_arith)
            requires
                p.group_width >= 1,
                h >= 1,
        ;
    }
    let group_left = group_index * group_width;
    let ghost left = gi * p.group_width;
    assert(group_left == left);
    let frame_outputs = match group_frame_outputs(
        frames,
        signals,
        grayscale_bits,
        group_left,
        group_width,
    ) {
        Ok(o) => o,
        Err(e) => {
            proof {
                assert(false);
            }
            return (next_entity, previous_top_right);
        },
    };
    let ghost outs = group_outputs(inp.frames, grayscale_bits, left, p.group_width);
    assert(frame_outputs@.len() == d) by {
        assert(outputs_view(frame_outputs@).len() == frame_outputs@.len());
    }
    let first_connection_entity = if use_grayscale {
        next_entity
    } else {
        next_entity + 1
    };
    let base_y: i64 = if grayscale_bits == 1 || grayscale_bits == 4 {
        -5
    } else if grayscale_bits == 8 {
        -4
    } else {
        -3
    };
    let (mut combinators, mut comb_wires, after_combinators) = generate_frame_combinators(
        &frame_outputs,
        occupied_y,
        ticks_per_group,
        next_entity,
        2 * (group_left as i64) + 1,
        base_y,
        max_rows_per_group,
        grayscale_bits,
    );
    if group_index == 0 {
        comb_wires.push((3, 4, first_connection_entity, 2));
    }
    let ghost lg = LampGrid {
        width: p.group_width,
        height: h,
        occupied: power.2,
        start_x: left,
        start_y: 0,
        gray: grayscale_bits > 0,
    };
    proof {
        assert(after_combinators == lamp_start(inp, gi, s.next));
        crate::lamps::lemma_lamp_state_bounds(
            lg,
            after_combinators as int,
            (p.group_width * h) as nat,
        );
    }
    let (mut lamps, mut lamp_wires, after_lamps, top_right) = generate_lamps(
        signals,
        group_width,
        full_height,
        occupied_cells,
        after_combinators,
        group_left as i64,
        0,
        use_grayscale,
    );
    let ghost ls = group_lamps(inp, gi, s.next);
    assert(ls == lamp_state(lg, after_combinators as int, (group_width * full_height) as nat));
    if lamps.len() > 0 {
        let first_lamp = lamps[0].entity_number;
        assert(first_lamp == ls.entities[0].number);
        if use_grayscale {
            comb_wires.push((first_lamp, 2, first_connection_entity, 2));
            let last_shifter = if grayscale_bits == 1 || grayscale_bits == 4 {
                first_connection_entity + 2
            } else {
                first_connection_entity + 1
            };
            comb_wires.push((first_lamp, 1, last_shifter, 3));
        } else {
            comb_wires.push((first_lamp, 1, first_connection_entity, 3));
            comb_wires.push((first_lamp, 2, first_connection_entity, 2));
        }
        if let Some(prev) = previous_top_right {
            lamp_wires.push((first_lamp, 2, prev, 2));
        }
    }
    let next_top_right = if top_right == 0 {
        None
    } else {
        Some(top_right)
    };
    let ghost entities_before = all_entities@;
    let ghost combinators_view = combinators@;
    let ghost lamps_view = lamps@;
    all_entities.append(&mut combinators);
    all_entities.append(&mut lamps);
    all_wires.append(&mut comb_wires);
    all_wires.append(&mut lamp_wires);
    proof {
        assert(entities_view(all_entities@) =~= entities_view(entities_before) + entities_view(
            combinators_view,
        ) + entities_view(lamps_view));
        assert(build_state(inp, (gi + 1) as nat) == build_group(inp, s, gi));
        assert(all_wires@ =~= build_group(inp, s, gi).wires);
        assert(entities_view(all_entities@) =~= build_group(inp, s, gi).entities);
    }
    (after_lamps, next_top_right)
}

/// Lays out the whole graph: the counter, the power grid, then, column-group
/// by column-group from the left, the selection logic and the lights, with
/// the wires that join them. The width is split into
/// `ceil(width / min(signals / height, width))` groups of `width / groups`
/// columns; each decider column holds `max_rows_per_group` deciders; the
/// counter wraps at `frames * floor(60 / fps)` ticks.
///
/// Fails with `EmptyInput` when there is no frame or the frames have no rows,
/// and with `InsufficientSignalBudget` when not even one column of lights
/// fits in the signal table.
#[verifier::rlimit(100)]
#[verifier::spinoff_prover]
pub fn update_full_blueprint(
    fps: u32,
    sampled_frames: Vec<Frame>,
    signals: Vec<Signal>,
    grayscale_bits: u32,
    substation_quality: Option<Quality>,
) -> (r: Result<Blueprint, BlueprintError>)
    requires
        fps > 0,
        grayscale_bits == 0 || grayscale_bits == 1 || grayscale_bits == 4 || grayscale_bits == 8,
        uniform_frames(sampled_frames@, grayscale_bits),
        sampled_frames@.len() > 0 ==> within_limits(
            sampled_frames@[0].width as int,
            sampled_frames@[0].height as int,
            sampled_frames@.len() as int,
        ),
    ensures
        ({
            let inp = Inputs {
                frames: sampled_frames@,
                signal_count: signals@.len() as int,
                fps,
                bits: grayscale_bits,
                quality: substation_quality,
            };
            let empty = sampled_frames@.len() == 0 || sampled_frames@[0].height == 0;
            &&& empty ==> r == Err::<Blueprint, BlueprintError>(BlueprintError::EmptyInput)
            &&& !empty && plan_of(inp).column_budget == 0 ==> r == Err::<
                Blueprint,
                BlueprintError,
            >(BlueprintError::InsufficientSignalBudget)
            &&& !empty && plan_of(inp).column_budget > 0 ==> r is Ok
            &&& r matches Ok(bp) ==> {
                let s = build_state(inp, plan_of(inp).group_count as nat);
                &&& entities_view(bp.blueprint.entities@) == s.entities
                &&& bp.blueprint.wires@ == s.wires
                &&& bp.blueprint.signals@ == signals@
                &&& bp.blueprint.version == BLUEPRINT_VERSION
                &&& bp.blueprint.item@ == "blueprint"@
                &&& bp.blueprint.icons@.len() == 1
                &&& bp.blueprint.icons@[0].index == 1
                &&& bp.blueprint.icons@[0].signal@ == (
                    "virtual"@,
                    "decider-combinator"@,
                    None::<Quality>,
                )
            }
        }),
{
    let ghost inp = Inputs {
        frames: sampled_frames@,
        signal_count: signals@.len() as int,
        fps,
        bits: grayscale_bits,
        quality: substation_quality,
    };
    if sampled_frames.len() == 0 {
        return Err(BlueprintError::EmptyInput);
    }
    let full_width = sampled_frames[0].width;
    let full_height = sampled_frames[0].height;
    if full_height == 0 {
        return Err(BlueprintError::EmptyInput);
    }
    let ghost p = plan_of(inp);
    let use_grayscale = grayscale_bits > 0;
    let n = sampled_frames.len();
    let total_frames = n as u32;
    let frames_per_combinator: u32 = if grayscale_bits > 0 {
        32 / grayscale_bits
    } else {
        1
    };
    let by_signals = signals.len() / (full_height as usize);
    let budget: u32 = if by_signals < full_width as usize {
        by_signals as u32
    } else {
        full_width
    };
    if budget < 1 {
        return Err(BlueprintError::InsufficientSignalBudget);
    }
    proof {
        assert(p.column_budget == budget);
        lemma_groups(full_width as int, budget as int);
        lemma_rows(n as int, p.group_width, grayscale_bits);
        assert(frames_per_combinator == frames_per_group(grayscale_bits)) by {
            if grayscale_bits == 1 {
                assert(32u32 / 1u32 == 32);
            } else if grayscale_bits == 4 {
                assert(32u32 / 4u32 == 8);
            } else if grayscale_bits == 8 {
                assert(32u32 / 8u32 == 4);
            }
        }
    }
    let num_groups = (((full_width as u64) + (budget as u64) - 1) / (budget as u64)) as u32;
    let max_columns_per_group = full_width / num_groups;
    let half = max_columns_per_group / 2;
    let max_rows_per_group: u32 = if half == 0 {
        (total_frames + frames_per_combinator - 1) / frames_per_combinator
    } else {
        let per_column = (total_frames + half - 1) / half;
        (per_column + frames_per_combinator - 1) / frames_per_combinator
    };
    assert(max_rows_per_group == p.max_rows);
    let ticks_per_frame = TICKS_PER_SECOND / fps;
    proof {
        assert(ticks_per_frame <= 60);
        assert(total_frames * ticks_per_frame <= (n + 32) * 60) by (nonlinear_arith)
            requires
                ticks_per_frame <= 60,
                total_frames == n,
        ;
        assert(ticks_per_frame * frames_per_combinator <= 60 * 32) by (nonlinear_arith)
            requires
                ticks_per_frame <= 60,
                frames_per_combinator <= 32,
        ;
    }
    let stop = total_frames * ticks_per_frame;
    let (timer_entities, timer_wires) = generate_timer(
        stop,
        grayscale_bits,
        ticks_per_frame,
        frames_per_combinator,
    );
    let mut all_entities = timer_entities;
    let mut all_wires = timer_wires;
    let mut next_entity = (all_entities.len() as u32) + 1;
    assert(next_entity == timer_next(grayscale_bits));
    let extra: u32 = if grayscale_bits == 1 || grayscale_bits == 4 {
        2
    } else if grayscale_bits == 8 {
        1
    } else {
        0
    };
    let ghost power = power_of(inp);
    proof {
        lemma_power_bound(inp);
    }
    let (mut pole_entities, mut pole_wires, occupied_cells, after_poles) = generate_substations(
        substation_quality,
        full_width,
        full_height,
        max_rows_per_group + extra,
        next_entity,
    );
    let ghost before_poles = all_entities@;
    all_entities.append(&mut pole_entities);
    all_wires.append(&mut pole_wires);
    next_entity = after_poles;
    proof {
        assert(entities_view(all_entities@) =~= entities_view(before_poles) + power.0);
    }
    let mut occupied_y: Vec<i64> = Vec::new();
    let mut c: usize = 0;
    while c < occupied_cells.len()
        invariant
            c <= occupied_cells@.len(),
            occupied_y@ =~= occupied_rows(occupied_cells@).take(c as int),
        decreases occupied_cells@.len() - c,
    {
        occupied_y.push(occupied_cells[c].1);
        assert(occupied_y@ =~= occupied_rows(occupied_cells@).take(c + 1));
        c = c + 1;
    }
    assert(occupied_rows(occupied_cells@).take(occupied_cells@.len() as int) =~= occupied_rows(
        occupied_cells@,
    ));
    let ghost d = deciders_per_group(inp);
    let ghost k = numbers_per_group(inp);
    proof {
        assert(buildable(inp));
        lemma_group_facts(inp);
    }
    let mut previous_top_right: Option<u32> = None;
    let mut group_index: u32 = 0;
    while group_index < num_groups
        invariant
            group_facts(inp, d, k),
            n == sampled_frames@.len(),
            sampled_frames@ == inp.frames,
            signals@.len() == inp.signal_count,
            inp.bits == grayscale_bits,
            p == plan_of(inp),
            power == power_of(inp),
            full_height == p.height,
            num_groups == p.group_count,
            max_columns_per_group == p.group_width,
            max_rows_per_group == p.max_rows,
            ticks_per_frame == p.ticks_per_frame,
            frames_per_combinator == frames_per_group(grayscale_bits),
            occupied_cells@ == power.2,
            occupied_y@ == occupied_rows(power.2),
            group_index <= num_groups,
            power.3 <= next_entity <= power.3 + group_index * k,
            ({
                let s = build_state(inp, group_index as nat);
                &&& entities_view(all_entities@) == s.entities
                &&& all_wires@ == s.wires
                &&& next_entity == s.next
                &&& previous_top_right == s.top_right
            }),
        decreases num_groups - group_index,
    {
        proof {
            let gi = group_index as int;
            assert(gi * k + k == (gi + 1) * k) by (nonlinear_arith);
            assert((gi + 1) * k <= p.group_count * k) by (nonlinear_arith)
                requires
                    gi + 1 <= p.group_count,
                    k >= 0,
            ;
        }
        let (after, top_right) = add_column_group(
            Ghost(inp),
            Ghost(d),
            Ghost(k),
            &sampled_frames,
            &signals,
            &occupied_cells,
            &occupied_y,
            group_index,
            max_columns_per_group,
            full_height,
            ticks_per_frame * frames_per_combinator,
            max_rows_per_group,
            grayscale_bits,
            next_entity,
            previous_top_right,
            &mut all_entities,
            &mut all_wires,
        );
        next_entity = after;
        previous_top_right = top_right;
        group_index = group_index + 1;
    }
    let icon_signal = Signal {
        type_: "virtual".to_owned(),
        name: "decider-combinator".to_owned(),
        quality: None,
    };
    let icons = vec![Icon { signal: icon_signal, index: 1 }];
    Ok(
        Blueprint {
            blueprint: BlueprintInner {
                icons,
                entities: all_entities,
                wires: all_wires,
                signals,
                item: "blueprint",
                version: BLUEPRINT_VERSION,
            },
        },
    )
}

} // verus!
