use vstd::prelude::*;
use vstd::arithmetic::div_mod::lemma_fundamental_div_mod_converse;
use crate::models::{
    bare_entity, entities_view, BehaviorView, ControlBehavior, Entity, EntityKind, EntityView,
    Position, Signal, SignalRef, Wire,
};

verus! {

/// Whether cell `(x, y)` is one of `cells`.
pub open spec fn cell_occupied(cells: Seq<(i64, i64)>, x: int, y: int) -> bool {
    exists|k: int| 0 <= k < cells.len() && cells[k].0 as int == x && cells[k].1 as int == y
}

/// Tests whether cell `(x, y)` is one of `cells`.
pub fn contains_cell(cells: &Vec<(i64, i64)>, x: i64, y: i64) -> (b: bool)
    ensures
        b == cell_occupied(cells@, x as int, y as int),
{
    let mut k: usize = 0;
    while k < cells.len()
        invariant
            k <= cells@.len(),
            forall|j: int| 0 <= j < k ==> !(cells@[j].0 == x && cells@[j].1 == y),
        decreases cells@.len() - k,
    {
        if cells[k].0 == x && cells[k].1 == y {
            return true;
        }
        k = k + 1;
    }
    false
}

/// A block of lights to lay out.
pub struct LampGrid {
    pub width: int,
    pub height: int,
    pub occupied: Seq<(i64, i64)>,
    pub start_x: int,
    pub start_y: int,
    pub gray: bool,
}

/// What has been laid out after some cells: the lights, their wires, the
/// next free number, the last light of each column, the last light of row 0.
pub struct LampState {
    pub entities: Seq<EntityView>,
    pub wires: Seq<Wire>,
    pub next: int,
    pub above: Seq<Option<u32>>,
    pub row_last: Option<u32>,
}

/// The light of cell `t` (row-major), numbered `n`, showing catalog signal `t`.
pub open spec fn lamp_entity(g: LampGrid, n: u32, x: int, y: int, t: int) -> EntityView {
    let s = SignalRef::Catalog(t as usize);
    EntityView {
        behavior: Some(
            if g.gray {
                BehaviorView::GrayLamp {
                    use_colors: true,
                    color_mode: 1,
                    red_signal: s,
                    green_signal: s,
                    blue_signal: s,
                }
            } else {
                BehaviorView::ColorLamp { use_colors: true, color_mode: 2, rgb_signal: s }
            },
        ),
        always_on: Some(true),
        ..bare_entity(n, EntityKind::SmallLamp, Position { half_x: (2 * x) as i64, half_y: (2 * y) as i64 })
    }
}

/// One cell `t`: a free cell gets a light, chained on both channels to the
/// previous light of row 0, or on the first channel to the light above it.
pub open spec fn lamp_step(g: LampGrid, s: LampState, t: int) -> LampState {
    let r = t / g.width;
    let c = t % g.width;
    let x = g.start_x + c;
    let y = g.start_y + r;
    if cell_occupied(g.occupied, x, y) {
        s
    } else {
        let n = s.next as u32;
        let horizontal: Seq<Wire> = if r == 0 {
            match s.row_last {
                Some(p) => seq![(n, 1u32, p, 1u32), (n, 2u32, p, 2u32)],
                None => seq![],
            }
        } else {
            seq![]
        };
        let vertical: Seq<Wire> = if r > 0 {
            match s.above[c] {
                Some(p) => seq![(n, 1u32, p, 1u32)],
                None => seq![],
            }
        } else {
            seq![]
        };
        LampState {
            entities: s.entities.push(lamp_entity(g, n, x, y, t)),
            wires: s.wires + horizontal + vertical,
            next: s.next + 1,
            above: s.above.update(c, Some(n)),
            row_last: if r == 0 {
                Some(n)
            } else {
                s.row_last
            },
        }
    }
}

/// The layout after the first `t` cells, numbering from `start`.
pub open spec fn lamp_state(g: LampGrid, start: int, t: nat) -> LampState
    decreases t,
{
    if t == 0 {
        LampState {
            entities: seq![],
            wires: seq![],
            next: start,
            above: Seq::new(g.width as nat, |i: int| None),
            row_last: None,
        }
    } else {
        lamp_step(g, lamp_state(g, start, (t - 1) as nat), t - 1)
    }
}

/// The next number counts the lights placed from `start`, and the last light
/// of each column and of row 0 is among them.
pub proof fn lemma_lamp_state_bounds(g: LampGrid, start: int, t: nat)
    requires
        g.width > 0,
        0 <= start,
        start + t <= u32::MAX,
    ensures
        start <= lamp_state(g, start, t).next <= start + t,
        lamp_state(g, start, t).next == start + lamp_state(g, start, t).entities.len(),
        lamp_state(g, start, t).above.len() == g.width,
        forall|c: int|
            0 <= c < g.width ==> match #[trigger] lamp_state(g, start, t).above[c] {
                Some(p) => start <= p < lamp_state(g, start, t).next,
                None => true,
            },
        match lamp_state(g, start, t).row_last {
            Some(p) => start <= p < lamp_state(g, start, t).next,
            None => true,
        },
    decreases t,
{
    if t > 0 {
        lemma_lamp_state_bounds(g, start, (t - 1) as nat);
        vstd::arithmetic::div_mod::lemma_mod_pos_bound(t - 1, g.width);
    }
}

/// The row-major index, within the block, of the cell that `e` stands on.
pub open spec fn lamp_key(g: LampGrid, e: EntityView) -> int {
    (e.position.half_y as int / 2 - g.start_y) * g.width + (e.position.half_x as int / 2
        - g.start_x)
}

/// The lights of a block are numbered from `start` in order, stand on free
/// cells inside the block's columns, in strictly increasing row-major order,
/// and every wire joins two of them.
pub proof fn lemma_lamp_state_shape(g: LampGrid, start: int, t: nat)
    requires
        g.width > 0,
        0 <= start,
        start + t <= u32::MAX,
        -0x1_0000_0000_0000 <= g.start_x <= 0x1_0000_0000_0000,
        -0x1_0000_0000_0000 <= g.start_y <= 0x1_0000_0000_0000,
    ensures
        ({
            let s = lamp_state(g, start, t);
            &&& forall|j: int|
                0 <= j < s.entities.len() ==> {
                    &&& (#[trigger] s.entities[j]).number == start + j
                    &&& s.entities[j].kind == EntityKind::SmallLamp
                    &&& !cell_occupied(
                        g.occupied,
                        s.entities[j].position.half_x as int / 2,
                        s.entities[j].position.half_y as int / 2,
                    )
                }
            &&& forall|i: int|
                0 <= i < s.wires.len() ==> start <= (#[trigger] s.wires[i]).0 < s.next && start
                    <= s.wires[i].2 < s.next
            &&& forall|j: int|
                0 <= j < s.entities.len() ==> {
                    &&& 0 <= (#[trigger] s.entities[j]).position.half_x as int / 2 - g.start_x
                        < g.width
                    &&& 0 <= lamp_key(g, s.entities[j]) < t
                }
            &&& forall|j1: int, j2: int|
                #![trigger s.entities[j1], s.entities[j2]]
                0 <= j1 < j2 < s.entities.len() ==> lamp_key(g, s.entities[j1]) < lamp_key(
                    g,
                    s.entities[j2],
                )
        }),
    decreases t,
{
    lemma_lamp_state_bounds(g, start, t);
    if t > 0 {
        let t1 = (t - 1) as nat;
        lemma_lamp_state_shape(g, start, t1);
        lemma_lamp_state_bounds(g, start, t1);
        let r = (t1 as int) / g.width;
        let c = (t1 as int) % g.width;
        vstd::arithmetic::div_mod::lemma_mod_pos_bound(t1 as int, g.width);
        vstd::arithmetic::div_mod::lemma_div_pos_is_pos(t1 as int, g.width);
        vstd::arithmetic::div_mod::lemma_div_is_ordered_by_denominator(t1 as int, 1, g.width);
        vstd::arithmetic::div_mod::lemma_fundamental_div_mod(t1 as int, g.width);
        assert(c <= t1) by (nonlinear_arith)
            requires
                g.width * r + c == t1,
                r >= 0,
                g.width > 0,
        ;
        let x = g.start_x + c;
        let y = g.start_y + r;
        assert((2 * x) as i64 as int / 2 == x);
        assert((2 * y) as i64 as int / 2 == y);
        assert((y - g.start_y) * g.width + (x - g.start_x) == t1) by (nonlinear_arith)
            requires
                g.width * r + c == t1,
                y == g.start_y + r,
                x == g.start_x + c,
        ;
        assert(r * g.width + c >= 0) by (nonlinear_arith)
            requires
                r >= 0,
                c >= 0,
                g.width > 0,
        ;
        let prev = lamp_state(g, start, t1);
        let s = lamp_state(g, start, t);
        if !cell_occupied(g.occupied, x, y) {
            let e = s.entities[prev.entities.len() as int];
            assert(lamp_key(g, e) == t1);
            assert forall|j1: int, j2: int|
                #![trigger s.entities[j1], s.entities[j2]]
                0 <= j1 < j2 < s.entities.len() implies lamp_key(g, s.entities[j1]) < lamp_key(
                g,
                s.entities[j2],
            ) by {
                assert(s.entities[j1] == prev.entities[j1]);
                if j2 < prev.entities.len() {
                    assert(s.entities[j2] == prev.entities[j2]);
                }
            }
        }
    }
}

/// Lays out a `grid_width` x `grid_height` block of lights from
/// `(start_x, start_y)`, row by row, skipping occupied cells; the light of
/// cell `r * grid_width + c` shows catalog signal `r * grid_width + c`, on
/// three channels in gray mode. Lights of row 0 are chained left to right on
/// both channels; every other light is chained on the first channel to the
/// last light placed in its column. Returns the lights, the wires, the next
/// free number and the last light of row 0 (0 when row 0 has none).
pub fn generate_lamps(
    signals: &Vec<Signal>,
    grid_width: u32,
    grid_height: u32,
    occupied_cells: &Vec<(i64, i64)>,
    start_entity_number: u32,
    start_x: i64,
    start_y: i64,
    use_grayscale: bool,
) -> (r: (Vec<Entity>, Vec<Wire>, u32, u32))
    requires
        grid_width * grid_height <= signals@.len(),
        start_entity_number + grid_width * grid_height <= u32::MAX,
        -0x1_0000_0000_0000 <= start_x <= 0x1_0000_0000_0000,
        -0x1_0000_0000_0000 <= start_y <= 0x1_0000_0000_0000,
    ensures
        ({
            let g = LampGrid {
                width: grid_width as int,
                height: grid_height as int,
                occupied: occupied_cells@,
                start_x: start_x as int,
                start_y: start_y as int,
                gray: use_grayscale,
            };
            let s = lamp_state(g, start_entity_number as int, (grid_width * grid_height) as nat);
            &&& entities_view(r.0@) == s.entities
            &&& r.1@ == s.wires
            &&& r.2 == s.next
            &&& r.3 == match s.row_last {
                Some(p) => p,
                None => 0,
            }
        }),
{
    let ghost g = LampGrid {
        width: grid_width as int,
        height: grid_height as int,
        occupied: occupied_cells@,
        start_x: start_x as int,
        start_y: start_y as int,
        gray: use_grayscale,
    };
    let ghost start = start_entity_number as int;
    let mut entities: Vec<Entity> = Vec::new();
    let mut wires: Vec<Wire> = Vec::new();
    let mut current = start_entity_number;
    let mut above: Vec<Option<u32>> = Vec::new();
    let mut k: u32 = 0;
    while k < grid_width
        invariant
            k <= grid_width,
            above@ =~= Seq::new(k as nat, |i: int| None::<u32>),
        decreases grid_width - k,
    {
        above.push(None);
        k = k + 1;
    }
    let mut row_last: Option<u32> = None;
    let mut r: u32 = 0;
    while r < grid_height
        invariant
            g == (LampGrid {
                width: grid_width as int,
                height: grid_height as int,
                occupied: occupied_cells@,
                start_x: start_x as int,
                start_y: start_y as int,
                gray: use_grayscale,
            }),
            start == start_entity_number,
            start_entity_number + grid_width * grid_height <= u32::MAX,
            -0x1_0000_0000_0000 <= start_x <= 0x1_0000_0000_0000,
            -0x1_0000_0000_0000 <= start_y <= 0x1_0000_0000_0000,
            r <= grid_height,
            ({
                let s = lamp_state(g, start, (r * grid_width) as nat);
                &&& entities_view(entities@) == s.entities
                &&& wires@ == s.wires
                &&& current == s.next
                &&& above@ == s.above
                &&& row_last == s.row_last
            }),
        decreases grid_height - r,
    {
        let mut c: u32 = 0;
        while c < grid_width
            invariant
                g == (LampGrid {
                    width: grid_width as int,
                    height: grid_height as int,
                    occupied: occupied_cells@,
                    start_x: start_x as int,
                    start_y: start_y as int,
                    gray: use_grayscale,
                }),
                start == start_entity_number,
                start_entity_number + grid_width * grid_height <= u32::MAX,
                -0x1_0000_0000_0000 <= start_x <= 0x1_0000_0000_0000,
                -0x1_0000_0000_0000 <= start_y <= 0x1_0000_0000_0000,
                r < grid_height,
                c <= grid_width,
                ({
                    let s = lamp_state(g, start, (r * grid_width + c) as nat);
                    &&& entities_view(entities@) == s.entities
                    &&& wires@ == s.wires
                    &&& current == s.next
                    &&& above@ == s.above
                    &&& row_last == s.row_last
                }),
            decreases grid_width - c,
        {
            let ghost t = r * grid_width + c;
            proof {
                lemma_fundamental_div_mod_converse(t, grid_width as int, r as int, c as int);
                assert(t < grid_width * grid_height) by (nonlinear_arith)
                    requires
                        t == r * grid_width + c,
                        r < grid_height,
                        c < grid_width,
                ;
                lemma_lamp_state_bounds(g, start, t as nat);
                assert(lamp_state(g, start, (t + 1) as nat) == lamp_step(
                    g,
                    lamp_state(g, start, t as nat),
                    t,
                ));
            }
            let x = start_x + c as i64;
            let y = start_y + r as i64;
            if !contains_cell(occupied_cells, x, y) {
                let index = (r as usize) * (grid_width as usize) + (c as usize);
                let signal = SignalRef::Catalog(index);
                let behavior = if use_grayscale {
                    ControlBehavior::GrayLamp {
                        use_colors: true,
                        color_mode: 1,
                        red_signal: signal,
                        green_signal: signal,
                        blue_signal: signal,
                    }
                } else {
                    ControlBehavior::ColorLamp { use_colors: true, color_mode: 2, rgb_signal: signal }
                };
                let lamp = Entity::new(
                    current,
                    EntityKind::SmallLamp,
                    Position { half_x: 2 * x, half_y: 2 * y },
                ).with_control_behavior(behavior).with_always_on(true);
                let ghost before = entities@;
                let ghost lamp_view = lamp@;
                entities.push(lamp);
                assert(entities_view(entities@) =~= entities_view(before).push(lamp_view));
                let ghost wires_before = wires@;
                if r == 0 {
                    if let Some(p) = row_last {
                        wires.push((current, 1, p, 1));
                        wires.push((current, 2, p, 2));
                    }
                    row_last = Some(current);
                } else {
                    if let Some(p) = above[c as usize] {
                        wires.push((current, 1, p, 1));
                    }
                }
                let ghost s = lamp_state(g, start, t as nat);
                assert(wires@ =~= lamp_step(g, s, t).wires);
                above.set(c as usize, Some(current));
                assert(above@ =~= lamp_step(g, s, t).above);
                current = current + 1;
            }
            c = c + 1;
        }
        assert(r * grid_width + grid_width == (r + 1) * grid_width) by (nonlinear_arith);
        r = r + 1;
    }
    assert(grid_height * grid_width == grid_width * grid_height) by (nonlinear_arith);
    let top_right = match row_last {
        Some(p) => p,
        None => 0,
    };
    (entities, wires, current, top_right)
}

} // verus!
