use vstd::prelude::*;
use vstd::arithmetic::div_mod::lemma_fundamental_div_mod_converse;
use crate::models::{Quality, Signal};

verus! {

/// The quality tiers each catalog entry is expanded into: all six with the
/// extended catalog, else normal and unknown.
pub open spec fn quality_tiers(use_dlc: bool) -> Seq<Quality> {
    if use_dlc {
        seq![
            Quality::Normal,
            Quality::Uncommon,
            Quality::Rare,
            Quality::Epic,
            Quality::Legendary,
            Quality::Unknown,
        ]
    } else {
        seq![Quality::Normal, Quality::Unknown]
    }
}

/// The expanded table: entry `k` is catalog entry `k / tiers` in tier `k % tiers`.
pub open spec fn signals_with_quality(
    use_dlc: bool,
    catalog: Seq<(Seq<char>, Seq<char>)>,
) -> Seq<(Seq<char>, Seq<char>, Option<Quality>)> {
    let tiers = quality_tiers(use_dlc);
    Seq::new(
        catalog.len() * tiers.len(),
        |k: int|
            (
                catalog[k / (tiers.len() as int)].0,
                catalog[k / (tiers.len() as int)].1,
                Some(tiers[k % (tiers.len() as int)]),
            ),
    )
}

/// The kinds and names of a catalog, as values.
pub open spec fn catalog_view(catalog: Seq<(String, String)>) -> Seq<(Seq<char>, Seq<char>)> {
    catalog.map_values(|e: (String, String)| (e.0@, e.1@))
}

/// The views of a table of signals.
pub open spec fn signals_view(s: Seq<Signal>) -> Seq<(Seq<char>, Seq<char>, Option<Quality>)> {
    s.map_values(|x: Signal| x@)
}

fn tier_list(use_dlc: bool) -> (r: Vec<Quality>)
    ensures
        r@ == quality_tiers(use_dlc),
{
    let r = if use_dlc {
        vec![
            Quality::Normal,
            Quality::Uncommon,
            Quality::Rare,
            Quality::Epic,
            Quality::Legendary,
            Quality::Unknown,
        ]
    } else {
        vec![Quality::Normal, Quality::Unknown]
    };
    assert(r@ =~= quality_tiers(use_dlc));
    r
}

/// Expands each `(kind, name)` entry of the catalog into one signal per
/// quality tier, entries in catalog order and tiers in tier order.
pub fn get_signals_with_quality(use_dlc: bool, catalog: &Vec<(String, String)>) -> (r: Vec<Signal>)
    requires
        catalog@.len() * 6 <= usize::MAX,
    ensures
        signals_view(r@) == signals_with_quality(use_dlc, catalog_view(catalog@)),
{
    let tiers = tier_list(use_dlc);
    let t = tiers.len();
    let ghost target = signals_with_quality(use_dlc, catalog_view(catalog@));
    let mut out: Vec<Signal> = Vec::new();
    let mut i: usize = 0;
    while i < catalog.len()
        invariant
            tiers@ == quality_tiers(use_dlc),
            t == tiers@.len(),
            t == 2 || t == 6,
            catalog@.len() * 6 <= usize::MAX,
            target == signals_with_quality(use_dlc, catalog_view(catalog@)),
            i <= catalog@.len(),
            signals_view(out@) =~= target.take(i * t),
        decreases catalog@.len() - i,
    {
        let mut j: usize = 0;
        while j < t
            invariant
                tiers@ == quality_tiers(use_dlc),
                t == tiers@.len(),
                t == 2 || t == 6,
                catalog@.len() * 6 <= usize::MAX,
                target == signals_with_quality(use_dlc, catalog_view(catalog@)),
                i < catalog@.len(),
                j <= t,
                signals_view(out@) =~= target.take(i * t + j),
            decreases t - j,
        {
            proof {
                lemma_fundamental_div_mod_converse(i * t + j, t as int, i as int, j as int);
                assert(i * t + j < catalog@.len() * t) by (nonlinear_arith)
                    requires
                        i < catalog@.len(),
                        j < t,
                ;
                assert(catalog@.len() * t <= catalog@.len() * 6) by (nonlinear_arith)
                    requires
                        t <= 6,
                ;
            }
            let signal = Signal {
                type_: catalog[i].0.clone(),
                name: catalog[i].1.clone(),
                quality: Some(tiers[j]),
            };
            let ghost before = out@;
            out.push(signal);
            assert(signals_view(out@) =~= signals_view(before).push(out@[out@.len() - 1]@));
            assert(signals_view(out@) =~= target.take(i * t + j + 1));
            j = j + 1;
        }
        assert(i * t + t == (i + 1) * t) by (nonlinear_arith);
        i = i + 1;
    }
    assert(target.take(catalog@.len() * t) =~= target);
    out
}

} // verus!
