//! The engine's guarantees, stated and proved over the check specifications
//! that `Analyzer::run` is proved to realize.

use vstd::prelude::*;

use crate::analyzer::duplicates_of;
use crate::analyzer::lemma_contains_push;
use crate::analyzer::lemma_diff_of_distinct;
use crate::analyzer::lemma_diff_of_membership;
use crate::analyzer::group_for;
use crate::analyzer::keys_of;
use crate::analyzer::missing_of;
use crate::analyzer::not_imported_of;
use crate::analyzer::relocated_of;
use crate::analyzer::reloc_matches;
use crate::analyzer::resolved_paths;
use crate::locator::resolved_of;
use crate::paths::basename;
use crate::paths::is_supported_path;

verus! {

broadcast use vstd::seq::group_seq_axioms;

/// A path is in a duplicate group exactly when it is a same-named listing
/// entry other than the key itself.
pub proof fn lemma_group_for_iff(key: Seq<char>, listing: Seq<Seq<char>>, x: Seq<char>)
    ensures
        group_for(key, listing).contains(x) <==> (listing.contains(x) && x != key && basename(x)
            == basename(key)),
    decreases listing.len(),
{
    reveal_with_fuel(Seq::filter, 2);
    if listing.len() == 0 {
    } else {
        let pre = listing.drop_last();
        lemma_group_for_iff(key, pre, x);
        assert(pre.push(listing.last()) =~= listing);
        lemma_contains_push(pre, listing.last(), x);
        if listing.last() != key && basename(listing.last()) == basename(key) {
            assert(group_for(key, listing) == group_for(key, pre).push(listing.last()));
            lemma_contains_push(group_for(key, pre), listing.last(), x);
        } else {
            assert(group_for(key, listing) == group_for(key, pre));
        }
    }
}

/// A path is in a relocation group exactly when it is a not-imported entry
/// whose filename equals the key.
pub proof fn lemma_reloc_matches_iff(key: Seq<char>, ni: Seq<Seq<char>>, x: Seq<char>)
    ensures
        reloc_matches(key, ni).contains(x) <==> (ni.contains(x) && basename(x) == key),
    decreases ni.len(),
{
    reveal_with_fuel(Seq::filter, 2);
    if ni.len() == 0 {
    } else {
        let pre = ni.drop_last();
        lemma_reloc_matches_iff(key, pre, x);
        assert(pre.push(ni.last()) =~= ni);
        lemma_contains_push(pre, ni.last(), x);
        if basename(ni.last()) == key {
            assert(reloc_matches(key, ni) == reloc_matches(key, pre).push(ni.last()));
            lemma_contains_push(reloc_matches(key, pre), ni.last(), x);
        } else {
            assert(reloc_matches(key, ni) == reloc_matches(key, pre));
        }
    }
}

/// The resolved-path set is exactly the set of paths some track location
/// resolves to.
pub proof fn lemma_resolved_paths_exact(locs: Seq<Seq<char>>, p: Seq<char>)
    ensures
        resolved_paths(locs).contains(p) <==> exists|i: int|
            0 <= i < locs.len() && resolved_of(locs[i]) == Some(p),
    decreases locs.len(),
{
    if locs.len() == 0 {
    } else {
        let pre = locs.drop_last();
        lemma_resolved_paths_exact(pre, p);
        if resolved_of(locs.last()) is Some {
            lemma_contains_push(resolved_paths(pre), resolved_of(locs.last()).unwrap(), p);
        }
        if exists|i: int| 0 <= i < pre.len() && resolved_of(pre[i]) == Some(p) {
            let i = choose|i: int| 0 <= i < pre.len() && resolved_of(pre[i]) == Some(p);
            assert(locs[i] == pre[i]);
            assert(resolved_of(locs[i]) == Some(p));
        }
        if resolved_paths(locs).contains(p) {
            if !resolved_paths(pre).contains(p) {
                assert(resolved_of(locs[locs.len() - 1]) == Some(p));
            }
        }
        if exists|i: int| 0 <= i < locs.len() && resolved_of(locs[i]) == Some(p) {
            let i = choose|i: int| 0 <= i < locs.len() && resolved_of(locs[i]) == Some(p);
            if i < locs.len() - 1 {
                assert(pre[i] == locs[i]);
                assert(resolved_paths(pre).contains(p));
            }
        }
    }
}

/// Existence-check exactness: a path appears under `missing` exactly when it
/// is the resolved path of some track and is not among the existing paths.
pub proof fn lemma_missing_exact(locs: Seq<Seq<char>>, existing: Seq<Seq<char>>, p: Seq<char>)
    ensures
        missing_of(locs, existing).contains(p) <==> ((exists|i: int|
            0 <= i < locs.len() && resolved_of(locs[i]) == Some(p)) && !existing.contains(p)),
    decreases locs.len(),
{
    if locs.len() == 0 {
    } else {
        let pre = locs.drop_last();
        lemma_missing_exact(pre, existing, p);
        match resolved_of(locs.last()) {
            Some(q) => {
                if !existing.contains(q) {
                    lemma_contains_push(missing_of(pre, existing), q, p);
                }
            },
            None => {},
        }
        if exists|i: int| 0 <= i < pre.len() && resolved_of(pre[i]) == Some(p) {
            let i = choose|i: int| 0 <= i < pre.len() && resolved_of(pre[i]) == Some(p);
            assert(locs[i] == pre[i]);
            assert(resolved_of(locs[i]) == Some(p));
        }
        if missing_of(locs, existing).contains(p) {
            if !missing_of(pre, existing).contains(p) {
                assert(resolved_of(locs[locs.len() - 1]) == Some(p));
            }
        }
        if (exists|i: int| 0 <= i < locs.len() && resolved_of(locs[i]) == Some(p))
            && !existing.contains(p) {
            let i = choose|i: int| 0 <= i < locs.len() && resolved_of(locs[i]) == Some(p);
            if i < locs.len() - 1 {
                assert(pre[i] == locs[i]);
                assert(missing_of(pre, existing).contains(p));
            }
        }
    }
}

/// Not-imported completeness: `not_imported` is exactly the directory
/// listing minus the resolved track paths; no resolved path ever appears.
pub proof fn lemma_not_imported_exact(
    locs: Seq<Seq<char>>,
    listing: Seq<Seq<char>>,
    p: Seq<char>,
)
    ensures
        not_imported_of(locs, listing).contains(p) <==> (listing.contains(p) && !resolved_paths(
            locs,
        ).contains(p)),
{
    lemma_diff_of_membership(listing, resolved_paths(locs), p);
}

/// Not-imported entries are a set: no path is reported twice.
pub proof fn lemma_not_imported_distinct(locs: Seq<Seq<char>>, listing: Seq<Seq<char>>)
    ensures
        forall|i: int, j: int|
            0 <= i < j < not_imported_of(locs, listing).len() ==> not_imported_of(locs, listing)[i]
                != not_imported_of(locs, listing)[j],
{
    lemma_diff_of_distinct(listing, resolved_paths(locs));
}

/// Duplicate grouping: every group is keyed by the resolved path of some
/// track and holds exactly the other same-named listing entries (and is
/// nonempty); conversely, every resolved track path with a same-named
/// sibling in the listing is keyed.
pub proof fn lemma_duplicates_exact(locs: Seq<Seq<char>>, listing: Seq<Seq<char>>)
    ensures
        forall|k: int|
            0 <= k < duplicates_of(locs, listing).len() ==> {
                let g = #[trigger] duplicates_of(locs, listing)[k];
                &&& g.matches == group_for(g.key, listing)
                &&& g.matches.len() > 0
                &&& exists|i: int| 0 <= i < locs.len() && resolved_of(locs[i]) == Some(g.key)
            },
        forall|i: int|
            0 <= i < locs.len() && (#[trigger] resolved_of(locs[i])) is Some && group_for(
                resolved_of(locs[i]).unwrap(),
                listing,
            ).len() > 0 ==> keys_of(duplicates_of(locs, listing)).contains(
                resolved_of(locs[i]).unwrap(),
            ),
    decreases locs.len(),
{
    if locs.len() == 0 {
    } else {
        let pre = locs.drop_last();
        lemma_duplicates_exact(pre, listing);
        let rest = duplicates_of(pre, listing);
        let full = duplicates_of(locs, listing);
        assert(forall|i: int| 0 <= i < pre.len() ==> pre[i] == locs[i]);
        // entry-wise: every entry of `full` is an entry of `rest` or the new one
        assert forall|k: int| 0 <= k < full.len() implies {
            let g = #[trigger] full[k];
            &&& g.matches == group_for(g.key, listing)
            &&& g.matches.len() > 0
            &&& exists|i: int| 0 <= i < locs.len() && resolved_of(locs[i]) == Some(g.key)
        } by {
            if k < rest.len() {
                assert(full[k] == rest[k]);
                let g = rest[k];
                let i = choose|i: int| 0 <= i < pre.len() && resolved_of(pre[i]) == Some(g.key);
                assert(resolved_of(locs[i]) == Some(g.key));
            } else {
                assert(resolved_of(locs[locs.len() - 1]) == Some(full[k].key));
            }
        }
        // completeness
        assert forall|i: int|
            0 <= i < locs.len() && (#[trigger] resolved_of(locs[i])) is Some && group_for(
                resolved_of(locs[i]).unwrap(),
                listing,
            ).len() > 0 implies keys_of(full).contains(resolved_of(locs[i]).unwrap()) by {
            let p = resolved_of(locs[i]).unwrap();
            if i < locs.len() - 1 {
                assert(resolved_of(pre[i]) == Some(p));
                assert(keys_of(rest).contains(p));
                let k = choose|k: int| 0 <= k < keys_of(rest).len() && keys_of(rest)[k] == p;
                assert(full.len() >= rest.len() && forall|j: int|
                    0 <= j < rest.len() ==> full[j] == rest[j]);
                assert(keys_of(full)[k] == p);
            } else {
                if keys_of(rest).contains(p) {
                    let k = choose|k: int| 0 <= k < keys_of(rest).len() && keys_of(rest)[k] == p;
                    assert(keys_of(full)[k] == p);
                } else {
                    assert(full == rest.push(
                        crate::analyzer::GroupV { key: p, matches: group_for(p, listing) },
                    ));
                    assert(keys_of(full)[rest.len() as int] == p);
                }
            }
        }
    }
}

/// Relocation matching: every relocation group is keyed by the filename of
/// some missing path and holds exactly the not-imported paths with that
/// filename — all candidates, so an ambiguous match is never silently
/// narrowed; conversely, every missing path with at least one same-named
/// not-imported path is keyed by its filename.
pub proof fn lemma_relocated_exact(missing: Seq<Seq<char>>, ni: Seq<Seq<char>>)
    ensures
        forall|k: int|
            0 <= k < relocated_of(missing, ni).len() ==> {
                let g = #[trigger] relocated_of(missing, ni)[k];
                &&& g.matches == reloc_matches(g.key, ni)
                &&& g.matches.len() > 0
                &&& exists|i: int| 0 <= i < missing.len() && basename(missing[i]) == g.key
            },
        forall|i: int|
            0 <= i < missing.len() && reloc_matches(#[trigger] basename(missing[i]), ni).len() > 0
                ==> keys_of(relocated_of(missing, ni)).contains(basename(missing[i])),
    decreases missing.len(),
{
    if missing.len() == 0 {
    } else {
        let pre = missing.drop_last();
        lemma_relocated_exact(pre, ni);
        let rest = relocated_of(pre, ni);
        let full = relocated_of(missing, ni);
        assert(forall|i: int| 0 <= i < pre.len() ==> pre[i] == missing[i]);
        assert forall|k: int| 0 <= k < full.len() implies {
            let g = #[trigger] full[k];
            &&& g.matches == reloc_matches(g.key, ni)
            &&& g.matches.len() > 0
            &&& exists|i: int| 0 <= i < missing.len() && basename(missing[i]) == g.key
        } by {
            if k < rest.len() {
                assert(full[k] == rest[k]);
                let g = rest[k];
                let i = choose|i: int| 0 <= i < pre.len() && basename(pre[i]) == g.key;
                assert(basename(missing[i]) == g.key);
            } else {
                assert(basename(missing[missing.len() - 1]) == full[k].key);
            }
        }
        assert forall|i: int|
            0 <= i < missing.len() && reloc_matches(#[trigger] basename(missing[i]), ni).len() > 0
            implies keys_of(full).contains(basename(missing[i])) by {
            let key = basename(missing[i]);
            if i < missing.len() - 1 {
                assert(basename(pre[i]) == key);
                assert(keys_of(rest).contains(key));
                let k = choose|k: int| 0 <= k < keys_of(rest).len() && keys_of(rest)[k] == key;
                assert(keys_of(full)[k] == key);
            } else {
                if keys_of(rest).contains(key) {
                    let k = choose|k: int| 0 <= k < keys_of(rest).len() && keys_of(rest)[k] == key;
                    assert(keys_of(full)[k] == key);
                } else {
                    assert(full == rest.push(
                        crate::analyzer::GroupV {
                            key,
                            matches: reloc_matches(key, ni),
                        },
                    ));
                    assert(keys_of(full)[rest.len() as int] == key);
                }
            }
        }
    }
}

/// Empty-directory scenario: with an empty listing, the not-imported and
/// duplicate checks contribute nothing, and the relocation check over an
/// empty not-imported set contributes nothing either. The missing check
/// does not read the listing at all, so it is unaffected by its emptiness.
pub proof fn lemma_empty_listing(locs: Seq<Seq<char>>, missing: Seq<Seq<char>>)
    ensures
        not_imported_of(locs, Seq::empty()) == Seq::<Seq<char>>::empty(),
        duplicates_of(locs, Seq::empty()) == Seq::<crate::analyzer::GroupV>::empty(),
        relocated_of(missing, Seq::empty()) == Seq::<crate::analyzer::GroupV>::empty(),
    decreases locs.len() + missing.len(),
{
    reveal_with_fuel(Seq::filter, 2);
    assert(not_imported_of(locs, Seq::empty()) =~= Seq::<Seq<char>>::empty());

    if locs.len() > 0 {
        lemma_empty_listing(locs.drop_last(), missing);
        match resolved_of(locs.last()) {
            Some(p) => {
                assert(group_for(p, Seq::empty()).len() == 0);
            },
            None => {},
        }
    }
    if missing.len() > 0 {
        lemma_empty_listing(locs, missing.drop_last());
        assert(reloc_matches(basename(missing.last()), Seq::empty()).len() == 0);
    }
}

/// Extension filter: when every listing entry has a supported extension, a
/// path without one (for example `track.ogg`) appears in no report field
/// that draws from the directory: not under `not_imported`, in no duplicate
/// group, and in no relocation group. (`missing` quotes the document, not
/// the directory, so it is outside this statement.)
pub proof fn lemma_extension_filter(
    locs: Seq<Seq<char>>,
    existing: Seq<Seq<char>>,
    listing: Seq<Seq<char>>,
    p: Seq<char>,
)
    requires
        forall|q: Seq<char>| listing.contains(q) ==> is_supported_path(q),
        !is_supported_path(p),
    ensures
        !not_imported_of(locs, listing).contains(p),
        forall|k: int|
            0 <= k < duplicates_of(locs, listing).len() ==> !(#[trigger] duplicates_of(
                locs,
                listing,
            )[k]).matches.contains(p),
        forall|k: int|
            0 <= k < relocated_of(missing_of(locs, existing), not_imported_of(locs, listing)).len()
                ==> !(#[trigger] relocated_of(
                missing_of(locs, existing),
                not_imported_of(locs, listing),
            )[k]).matches.contains(p),
{
    let ni = not_imported_of(locs, listing);
    lemma_not_imported_exact(locs, listing, p);
    lemma_duplicates_exact(locs, listing);
    assert forall|k: int| 0 <= k < duplicates_of(locs, listing).len() implies !(
    #[trigger] duplicates_of(locs, listing)[k]).matches.contains(p) by {
        let g = duplicates_of(locs, listing)[k];
        lemma_group_for_iff(g.key, listing, p);
    }
    lemma_relocated_exact(missing_of(locs, existing), ni);
    assert forall|k: int|
        0 <= k < relocated_of(missing_of(locs, existing), ni).len() implies !(
    #[trigger] relocated_of(missing_of(locs, existing), ni)[k]).matches.contains(p) by {
        let g = relocated_of(missing_of(locs, existing), ni)[k];
        lemma_reloc_matches_iff(g.key, ni, p);
        if ni.contains(p) {
            lemma_not_imported_exact(locs, listing, p);
        }
    }
}

} // verus!
