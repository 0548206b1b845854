use vstd::prelude::*;
use vstd::arithmetic::div_mod::{lemma_fundamental_div_mod, lemma_fundamental_div_mod_converse};
use crate::models::{bare_entity, entities_view, Entity, EntityKind, EntityView, Position, Quality, Wire};

verus! {

/// Coverage of a pole of each tier, in tiles.
pub open spec fn coverage_of(q: Quality) -> int {
    match q {
        Quality::Normal => 18,
        Quality::Uncommon => 20,
        Quality::Rare => 22,
        Quality::Epic => 24,
        Quality::Legendary => 28,
        Quality::Unknown => 18,
    }
}

/// The coverage of a pole of tier `q`: 18, 20, 22, 24 and 28 tiles from
/// normal to legendary (18 for an unknown tier).
pub fn substation_coverage(q: Quality) -> (c: u32)
    ensures
        c == coverage_of(q),
        q == Quality::Normal ==> c == 18,
        q == Quality::Uncommon ==> c == 20,
        q == Quality::Rare ==> c == 22,
        q == Quality::Epic ==> c == 24,
        q == Quality::Legendary ==> c == 28,
{
    match q {
        Quality::Normal => 18,
        Quality::Uncommon => 20,
        Quality::Rare => 22,
        Quality::Epic => 24,
        Quality::Legendary => 28,
        Quality::Unknown => 18,
    }
}

/// `ceil((v - half) / step)`, and 0 when `v <= half`.
pub open spec fn ceil_excess(v: int, half: int, step: int) -> int {
    if v <= half {
        0
    } else {
        (v - half + step - 1) / step
    }
}

/// The pole rows above the light grid: the least count `k`, at least
/// `ceil((frame_count - half) / coverage)`, with
/// `frame_count - half + 2k <= k * coverage` (shown by
/// `lemma_frame_coverage_count_is_least`).
pub open spec fn frame_coverage_count(frame_count: int, coverage: int) -> int {
    ceil_excess(frame_count, (coverage - 2) / 2, coverage - 2)
}

/// The lattice of poles for a grid and a logic region.
pub struct PolePlan {
    pub coverage: int,
    pub frame_rows: int,
    pub columns: int,
    pub rows: int,
    pub start: int,
    pub quality: Quality,
}

pub open spec fn pole_plan(
    q: Quality,
    lamp_width: u32,
    lamp_height: u32,
    frame_count: u32,
    start_entity_number: u32,
) -> PolePlan {
    let c = coverage_of(q);
    let half = (c - 2) / 2;
    let f = frame_coverage_count(frame_count as int, c);
    PolePlan {
        coverage: c,
        frame_rows: f,
        columns: ceil_excess(lamp_width as int, half, c) + 1,
        rows: ceil_excess(lamp_height as int, half, c) + 1 + f,
        start: start_entity_number as int,
        quality: q,
    }
}

/// Tile x of pole `k` (row-major).
pub open spec fn pole_x(p: PolePlan, k: int) -> int {
    -1 + (k % p.columns) * p.coverage
}

/// Tile y of pole `k` (row-major).
pub open spec fn pole_y(p: PolePlan, k: int) -> int {
    -1 - p.frame_rows * p.coverage + (k / p.columns) * p.coverage
}

/// Pole `k`; the normal tier is left implicit.
pub open spec fn pole_entity(p: PolePlan, k: int) -> EntityView {
    EntityView {
        quality: if p.quality == Quality::Normal {
            None
        } else {
            Some(p.quality)
        },
        ..bare_entity(
            (p.start + k) as u32,
            EntityKind::Substation,
            Position { half_x: (2 * pole_x(p, k)) as i64, half_y: (2 * pole_y(p, k)) as i64 },
        )
    }
}

pub open spec fn pole_entities(p: PolePlan) -> Seq<EntityView> {
    Seq::new((p.rows * p.columns) as nat, |k: int| pole_entity(p, k))
}

/// Cell `t` of the footprints: pole `t / 4`, corner `t % 4` in the order
/// (x-1, y-1), (x-1, y), (x, y-1), (x, y).
pub open spec fn footprint_cell(p: PolePlan, t: int) -> (i64, i64) {
    let k = t / 4;
    let c = t % 4;
    let x = pole_x(p, k);
    let y = pole_y(p, k);
    if c == 0 {
        ((x - 1) as i64, (y - 1) as i64)
    } else if c == 1 {
        ((x - 1) as i64, y as i64)
    } else if c == 2 {
        (x as i64, (y - 1) as i64)
    } else {
        (x as i64, y as i64)
    }
}

pub open spec fn footprint_cells(p: PolePlan) -> Seq<(i64, i64)> {
    Seq::new((4 * (p.rows * p.columns)) as nat, |t: int| footprint_cell(p, t))
}

/// The links of pole `k`: to the pole above it, then to the pole on its left.
pub open spec fn pole_links(p: PolePlan, k: int) -> Seq<Wire> {
    let n = (p.start + k) as u32;
    let up: Seq<Wire> = if k / p.columns > 0 {
        seq![(n, 5u32, (p.start + k - p.columns) as u32, 5u32)]
    } else {
        seq![]
    };
    let left: Seq<Wire> = if k % p.columns > 0 {
        seq![(n, 5u32, (p.start + k - 1) as u32, 5u32)]
    } else {
        seq![]
    };
    up + left
}

pub open spec fn pole_links_upto(p: PolePlan, k: nat) -> Seq<Wire>
    decreases k,
{
    if k == 0 {
        seq![]
    } else {
        pole_links_upto(p, (k - 1) as nat) + pole_links(p, k - 1)
    }
}

/// Number of poles that `generate_substations` places.
pub open spec fn pole_count(
    q: Option<Quality>,
    lamp_width: u32,
    lamp_height: u32,
    frame_count: u32,
) -> int {
    match q {
        None => 0,
        Some(t) => {
            let p = pole_plan(t, lamp_width, lamp_height, frame_count, 0);
            p.rows * p.columns
        },
    }
}

/// What `generate_substations` returns, as values: poles, links, occupied
/// cells and the next free number.
pub open spec fn substations_spec(
    q: Option<Quality>,
    lamp_width: u32,
    lamp_height: u32,
    frame_count: u32,
    start_entity_number: u32,
) -> (Seq<EntityView>, Seq<Wire>, Seq<(i64, i64)>, int) {
    match q {
        None => (seq![], seq![], seq![], start_entity_number as int),
        Some(t) => {
            let p = pole_plan(t, lamp_width, lamp_height, frame_count, start_entity_number);
            (
                pole_entities(p),
                pole_links_upto(p, (p.rows * p.columns) as nat),
                footprint_cells(p),
                start_entity_number + p.rows * p.columns,
            )
        },
    }
}

/// Every link joins two of the first `k` poles.
pub proof fn lemma_pole_links_join(p: PolePlan, k: nat)
    requires
        p.columns >= 1,
        0 <= p.start,
        p.start + k <= u32::MAX,
    ensures
        forall|i: int|
            0 <= i < pole_links_upto(p, k).len() ==> p.start <= (#[trigger] pole_links_upto(
                p,
                k,
            )[i]).0 < p.start + k && p.start <= pole_links_upto(p, k)[i].2 < p.start + k,
    decreases k,
{
    if k > 0 {
        let j = k - 1;
        lemma_pole_links_join(p, j as nat);
        vstd::arithmetic::div_mod::lemma_fundamental_div_mod(j, p.columns);
        vstd::arithmetic::div_mod::lemma_mod_pos_bound(j, p.columns);
        if j / p.columns > 0 {
            assert(j >= p.columns) by (nonlinear_arith)
                requires
                    p.columns * (j / p.columns) + j % p.columns == j,
                    j / p.columns >= 1,
                    j % p.columns >= 0,
                    p.columns >= 1,
            ;
        }
        if j % p.columns > 0 {
            assert(j >= 1) by (nonlinear_arith)
                requires
                    p.columns * (j / p.columns) + j % p.columns == j,
                    j % p.columns >= 1,
                    j >= 0,
                    p.columns >= 1,
            ;
            assert(j / p.columns >= 0) by {
                vstd::arithmetic::div_mod::lemma_div_pos_is_pos(j, p.columns);
            }
        }
        let prev = pole_links_upto(p, j as nat);
        let all = pole_links_upto(p, k);
        assert(all == prev + pole_links(p, j));
        assert forall|i: int| 0 <= i < all.len() implies p.start <= (#[trigger] all[i]).0 < p.start
            + k && p.start <= all[i].2 < p.start + k by {
            if i < prev.len() {
                assert(all[i] == prev[i]);
            }
        }
    }
}

/// Pole `k` is numbered `start + k` and is no light.
pub proof fn lemma_pole_entities_shape(p: PolePlan)
    requires
        0 <= p.start,
        p.rows >= 0,
        p.columns >= 0,
        p.start + p.rows * p.columns <= u32::MAX,
    ensures
        forall|j: int|
            0 <= j < pole_entities(p).len() ==> (#[trigger] pole_entities(p)[j]).number == p.start
                + j && pole_entities(p)[j].kind == EntityKind::Substation,
{
    assert(p.rows * p.columns >= 0) by (nonlinear_arith)
        requires
            p.rows >= 0,
            p.columns >= 0,
    ;
    assert forall|j: int| 0 <= j < pole_entities(p).len() implies (#[trigger] pole_entities(
        p,
    )[j]).number == p.start + j && pole_entities(p)[j].kind == EntityKind::Substation by {
        assert(pole_entities(p)[j] == pole_entity(p, j));
    }
}

/// `k * d < a` exactly when `k` is below `ceil(a / d)`.
proof fn lemma_below_ceil(a: int, d: int, k: int)
    requires
        a > 0,
        d > 0,
        k >= 0,
    ensures
        (k * d < a) <==> (k < (a + d - 1) / d),
{
    let t = (a + d - 1) / d;
    lemma_fundamental_div_mod(a + d - 1, d);
    let r = (a + d - 1) % d;
    assert(0 <= r < d);
    assert(d * t + r == a + d - 1);
    if k < t {
        assert(k * d <= (t - 1) * d) by (nonlinear_arith)
            requires
                k <= t - 1,
                d > 0,
        ;
        assert((t - 1) * d == d * t - d) by (nonlinear_arith);
    } else {
        assert(k * d >= t * d) by (nonlinear_arith)
            requires
                k >= t,
                d > 0,
        ;
        assert(t * d == d * t) by (nonlinear_arith);
    }
}

proof fn lemma_ceil_bounds(a: int, d: int)
    requires
        a > 0,
        d > 0,
    ensures
        0 <= (a + d - 1) / d <= a,
{
    lemma_below_ceil(a, d, 0);
    lemma_below_ceil(a, d, a);
    assert(a * d >= a) by (nonlinear_arith)
        requires
            a > 0,
            d > 0,
    ;
}

/// `frame_coverage_count` is what growing the first estimate gives: it is
/// at least `ceil((frame_count - half) / coverage)` (0 when that is negative),
/// it satisfies `frame_count - half + 2k <= k * coverage`, and no smaller
/// count from the first estimate on does.
pub proof fn lemma_frame_coverage_count_is_least(frame_count: int, coverage: int)
    requires
        frame_count >= 0,
        coverage >= 3,
    ensures
        ({
            let half = (coverage - 2) / 2;
            let first = ceil_excess(frame_count, half, coverage);
            let f = frame_coverage_count(frame_count, coverage);
            &&& first <= f
            &&& frame_count - half + 2 * f <= f * coverage
            &&& forall|k: int|
                first <= k < f ==> frame_count - half + 2 * k > #[trigger] (k * coverage)
        }),
{
    let half = (coverage - 2) / 2;
    let first = ceil_excess(frame_count, half, coverage);
    let f = frame_coverage_count(frame_count, coverage);
    let a = frame_count - half;
    let d = coverage - 2;
    assert(half >= 0);
    if a > 0 {
        lemma_ceil_bounds(a, coverage);
        lemma_ceil_bounds(a, d);
        assert(f == (a + d - 1) / d);
        lemma_below_ceil(a, coverage, f);
        lemma_below_ceil(a, d, f);
        assert(f * d <= f * coverage) by (nonlinear_arith)
            requires
                f >= 0,
                d <= coverage,
        ;
        assert(f * d == f * coverage - 2 * f) by (nonlinear_arith)
            requires
                d == coverage - 2,
        ;
        assert forall|k: int| first <= k < f implies frame_count - half + 2 * k > #[trigger] (k
            * coverage) by {
            lemma_below_ceil(a, d, k);
            assert(k * d == k * coverage - 2 * k) by (nonlinear_arith)
                requires
                    d == coverage - 2,
            ;
        }
    }
}

/// Plans the power grid. With no tier (`None`) nothing is placed. Otherwise
/// poles stand on a lattice of step `coverage` from `x = -1`,
/// `y = -1 - frame_coverage_count * coverage`, row-major, with enough rows above
/// the light grid to cover `frame_count` rows of logic; each occupies its cell
/// and the three cells towards smaller x and y, and is linked to the pole above
/// it and to the pole on its left. Returns the poles, the links, the occupied
/// cells and the next free entity number.
pub fn generate_substations(
    substation_quality: Option<Quality>,
    lamp_width: u32,
    lamp_height: u32,
    frame_count: u32,
    start_entity_number: u32,
) -> (r: (Vec<Entity>, Vec<Wire>, Vec<(i64, i64)>, u32))
    requires
        start_entity_number + pole_count(substation_quality, lamp_width, lamp_height, frame_count)
            <= u32::MAX,
    ensures
        substation_quality is None ==> r.0@.len() == 0 && r.1@.len() == 0 && r.2@.len() == 0 && r.3
            == start_entity_number,
        ({
            let s = substations_spec(
                substation_quality,
                lamp_width,
                lamp_height,
                frame_count,
                start_entity_number,
            );
            &&& entities_view(r.0@) == s.0
            &&& r.1@ == s.1
            &&& r.2@ == s.2
            &&& r.3 == s.3
        }),
{
    let q = match substation_quality {
        None => {
            let r: (Vec<Entity>, Vec<Wire>, Vec<(i64, i64)>, u32) = (
                Vec::new(),
                Vec::new(),
                Vec::new(),
                start_entity_number,
            );
            assert(entities_view(r.0@) =~= seq![]);
            return r;
        },
        Some(q) => q,
    };
    let ghost p = pole_plan(q, lamp_width, lamp_height, frame_count, start_entity_number);
    let coverage = substation_coverage(q) as i64;
    let half = (coverage - 2) / 2;
    let fc = frame_count as i64;
    let mut frame_rows: i64 = if fc > half {
        (fc - half + coverage - 1) / coverage
    } else {
        0
    };
    proof {
        if fc > half {
            lemma_ceil_bounds(fc - half, coverage as int);
            lemma_ceil_bounds(fc - half, coverage - 2);
            let target = (fc - half + coverage - 3) / (coverage - 2);
            assert(target == p.frame_rows);
            lemma_below_ceil(fc - half, coverage as int, target);
            lemma_below_ceil(fc - half, coverage - 2, target);
            assert(target * (coverage - 2) <= target * coverage) by (nonlinear_arith)
                requires
                    target >= 0,
                    coverage >= 2,
            ;
            assert(frame_rows <= target);
        }
        assert(frame_rows * coverage <= 28 * fc) by (nonlinear_arith)
            requires
                0 <= frame_rows <= fc,
                0 <= coverage <= 28,
        ;
    }
    while fc - half + frame_rows * 2 > frame_rows * coverage
        invariant
            coverage == p.coverage,
            coverage >= 18,
            coverage <= 28,
            frame_rows * coverage <= 28 * fc,
            half == (coverage - 2) / 2,
            fc == frame_count,
            0 <= frame_rows <= p.frame_rows,
            p.frame_rows == frame_coverage_count(fc as int, coverage as int),
            p.frame_rows <= fc,
        decreases p.frame_rows - frame_rows,
    {
        proof {
            assert(frame_rows * (coverage - 2) == frame_rows * coverage - frame_rows * 2)
                by (nonlinear_arith);
            if fc > half {
                lemma_below_ceil(fc - half, coverage - 2, frame_rows as int);
            }
            assert(frame_rows * 2 <= frame_rows * coverage) by (nonlinear_arith)
                requires
                    frame_rows >= 0,
                    coverage >= 18,
            ;
            assert(fc > half);
            assert(frame_rows + 1 <= p.frame_rows);
            assert((frame_rows + 1) * coverage <= 28 * fc) by (nonlinear_arith)
                requires
                    0 <= frame_rows,
                    frame_rows + 1 <= fc,
                    coverage <= 28,
                    coverage >= 0,
            ;
        }
        frame_rows = frame_rows + 1;
    }
    proof {
        assert(frame_rows * (coverage - 2) == frame_rows * coverage - frame_rows * 2)
            by (nonlinear_arith);
        if fc > half {
            lemma_below_ceil(fc - half, coverage - 2, frame_rows as int);
        }
        assert(frame_rows == p.frame_rows);
    }
    let lw = lamp_width as i64;
    let lh = lamp_height as i64;
    let columns_i: i64 = if lw > half {
        (lw - half + coverage - 1) / coverage
    } else {
        0
    } + 1;
    let rows_i: i64 = if lh > half {
        (lh - half + coverage - 1) / coverage
    } else {
        0
    } + 1 + frame_rows;
    proof {
        if lw > half {
            lemma_ceil_bounds(lw - half, coverage as int);
        }
        if lh > half {
            lemma_ceil_bounds(lh - half, coverage as int);
        }
        assert(p.rows * p.columns == pole_count(substation_quality, lamp_width, lamp_height, frame_count));
        assert(p.columns >= 1 && p.rows >= 1);
        assert(p.columns <= p.rows * p.columns) by (nonlinear_arith)
            requires
                p.rows >= 1,
                p.columns >= 1,
        ;
        assert(p.rows <= p.rows * p.columns) by (nonlinear_arith)
            requires
                p.rows >= 1,
                p.columns >= 1,
        ;
    }
    let columns = columns_i as u32;
    let rows = rows_i as u32;
    let start_y = -1 - frame_rows * coverage;
    let mut entities: Vec<Entity> = Vec::new();
    let mut wires: Vec<Wire> = Vec::new();
    let mut cells: Vec<(i64, i64)> = Vec::new();
    let mut current = start_entity_number;
    let mut i: u32 = 0;
    while i < rows
        invariant
            p == pole_plan(q, lamp_width, lamp_height, frame_count, start_entity_number),
            coverage == p.coverage,
            coverage >= 18,
            columns == p.columns,
            rows == p.rows,
            columns >= 1,
            p.frame_rows <= frame_count,
            start_y == -1 - p.frame_rows * coverage,
            start_entity_number + p.rows * p.columns <= u32::MAX,
            i <= rows,
            current == start_entity_number + i * columns,
            entities_view(entities@) =~= pole_entities(p).take(i * columns),
            wires@ =~= pole_links_upto(p, (i * columns) as nat),
            cells@ =~= footprint_cells(p).take(4 * (i * columns)),
        decreases rows - i,
    {
        let mut j: u32 = 0;
        while j < columns
            invariant
                p == pole_plan(q, lamp_width, lamp_height, frame_count, start_entity_number),
                coverage == p.coverage,
                coverage >= 18,
                columns == p.columns,
                rows == p.rows,
                columns >= 1,
                p.frame_rows <= frame_count,
                start_y == -1 - p.frame_rows * coverage,
                start_entity_number + p.rows * p.columns <= u32::MAX,
                i < rows,
                j <= columns,
                current == start_entity_number + i * columns + j,
                entities_view(entities@) =~= pole_entities(p).take(i * columns + j),
                wires@ =~= pole_links_upto(p, (i * columns + j) as nat),
                cells@ =~= footprint_cells(p).take(4 * (i * columns + j)),
            decreases columns - j,
        {
            let ghost k = i * columns + j;
            proof {
                lemma_fundamental_div_mod_converse(k, columns as int, i as int, j as int);
                assert(k < rows * columns) by (nonlinear_arith)
                    requires
                        k == i * columns + j,
                        i < rows,
                        j < columns,
                ;
                assert(i * columns <= k);
                if i > 0 {
                    assert(i * columns >= columns) by (nonlinear_arith)
                        requires
                            i >= 1,
                            columns >= 1,
                    ;
                }
                assert(i * coverage <= rows * 28) by (nonlinear_arith)
                    requires
                        i < rows,
                        coverage <= 28,
                ;
                assert(j * coverage <= columns * 28) by (nonlinear_arith)
                    requires
                        j < columns,
                        coverage <= 28,
                ;
                assert(p.frame_rows * coverage <= frame_count * 28) by (nonlinear_arith)
                    requires
                        p.frame_rows <= frame_count,
                        coverage <= 28,
                        p.frame_rows >= 0,
                ;
            }
            let x = -1 + (j as i64) * coverage;
            let y = start_y + (i as i64) * coverage;
            let mut pole = Entity::new(
                current,
                EntityKind::Substation,
                Position { half_x: 2 * x, half_y: 2 * y },
            );
            pole.quality = if q != Quality::Normal {
                Some(q)
            } else {
                None
            };
            let ghost before = entities@;
            let ghost pole_view = pole@;
            entities.push(pole);
            assert(pole_view == pole_entity(p, k));
            assert(entities_view(entities@) =~= entities_view(before).push(pole_view));
            assert(pole_entities(p).take(k + 1) =~= pole_entities(p).take(k).push(pole_view));
            let ghost cells_before = cells@;
            cells.push((x - 1, y - 1));
            cells.push((x - 1, y));
            cells.push((x, y - 1));
            cells.push((x, y));
            proof {
                lemma_fundamental_div_mod_converse(4 * k, 4, k, 0);
                lemma_fundamental_div_mod_converse(4 * k + 1, 4, k, 1);
                lemma_fundamental_div_mod_converse(4 * k + 2, 4, k, 2);
                lemma_fundamental_div_mod_converse(4 * k + 3, 4, k, 3);
                assert(pole_x(p, k) == x);
                assert(pole_y(p, k) == y);
                assert(footprint_cell(p, 4 * k) == ((x - 1) as i64, (y - 1) as i64));
                assert(footprint_cell(p, 4 * k + 1) == ((x - 1) as i64, y));
                assert(footprint_cell(p, 4 * k + 2) == (x, (y - 1) as i64));
                assert(footprint_cell(p, 4 * k + 3) == (x, y));
                assert(k + 1 <= rows * columns);
                assert(cells@ =~= footprint_cells(p).take(4 * (k + 1)));
            }
            let ghost wires_before = wires@;
            if i > 0 {
                wires.push((current, 5, current - columns, 5));
            }
            if j > 0 {
                wires.push((current, 5, current - 1, 5));
            }
            assert(wires@ =~= wires_before + pole_links(p, k));
            current = current + 1;
            j = j + 1;
        }
        assert(i * columns + columns == (i + 1) * columns) by (nonlinear_arith);
        i = i + 1;
    }
    assert(pole_entities(p).take(rows * columns) =~= pole_entities(p));
    assert(footprint_cells(p).take(4 * (rows * columns)) =~= footprint_cells(p));
    (entities, wires, cells, current)
}

} // verus!
