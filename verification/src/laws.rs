//! Laws the reconciliation engine obeys across runs, proved over the same
//! specifications the operations' contracts use.

use crate::images::ImageAdv;
use crate::images::ImageBasic;
use crate::store::addable;
use crate::store::catalog_match;
use crate::store::kept_records;
use crate::store::lemma_filter_all;
use crate::store::lemma_filter_none;
use crate::store::lemma_filter_subset;
use crate::store::new_entries;
use crate::store::staged_match;
use crate::store::unique_entry_paths;
use crate::store::unique_record_paths;
use crate::store::CatalogRecord;
use vstd::prelude::*;

verus! {

broadcast use vstd::seq_lib::group_filter_ensures;

/// Reconciliation is idempotent.  After one pass is committed whole — the
/// surviving records plus one record for each reported new entry — a
/// second pass over the same scan removes nothing and reports nothing
/// new.
pub proof fn lemma_reconcile_idempotent(
    cat: Seq<CatalogRecord>,
    staged: Seq<ImageBasic>,
    enriched: Seq<CatalogRecord>,
)
    requires
        enriched.len() == new_entries(cat, staged).len(),
        forall|i: int|
            0 <= i < enriched.len() ==> (#[trigger] enriched[i]).image.basic.path@ == new_entries(
                cat,
                staged,
            )[i].path@ && enriched[i].image.basic.size == new_entries(cat, staged)[i].size,
    ensures
        kept_records(kept_records(cat, staged) + enriched, staged) == kept_records(cat, staged)
            + enriched,
        new_entries(kept_records(cat, staged) + enriched, staged) == Seq::<ImageBasic>::empty(),
{
    let kept = kept_records(cat, staged);
    let cat2 = kept + enriched;
    let ne = new_entries(cat, staged);
    let pred = |r: CatalogRecord| staged_match(staged, r.image.basic.path@, r.image.basic.size);

    assert forall|i: int| 0 <= i < cat2.len() implies pred(#[trigger] cat2[i]) by {
        if i < kept.len() {
            assert(pred(kept[i]));
        } else {
            let k = i - kept.len();
            lemma_filter_subset(
                staged,
                |e: ImageBasic| !catalog_match(cat, e.path@, e.size),
                ne[k],
            );
            let m = choose|m: int| 0 <= m < staged.len() && staged[m] == ne[k];
            assert(staged[m].path@ == cat2[i].image.basic.path@ && staged[m].size
                == cat2[i].image.basic.size);
        }
    }
    lemma_filter_all(cat2, pred);

    let fresh_pred = |e: ImageBasic| !catalog_match(cat2, e.path@, e.size);
    assert forall|i: int| 0 <= i < staged.len() implies !fresh_pred(#[trigger] staged[i]) by {
        let e = staged[i];
        if catalog_match(cat, e.path@, e.size) {
            let k = choose|k: int|
                0 <= k < cat.len() && cat[k].image.basic.path@ == e.path@
                    && cat[k].image.basic.size == e.size;
            assert(staged_match(staged, cat[k].image.basic.path@, cat[k].image.basic.size));
            assert(kept.contains(cat[k]));
            let m = choose|m: int| 0 <= m < kept.len() && kept[m] == cat[k];
            assert(cat2[m].image.basic.path@ == e.path@ && cat2[m].image.basic.size == e.size);
        } else {
            assert(ne.contains(e));
            let k = choose|k: int| 0 <= k < ne.len() && ne[k] == e;
            assert(cat2[kept.len() + k].image.basic.path@ == e.path@ && cat2[kept.len()
                + k].image.basic.size == e.size);
        }
    }
    lemma_filter_none(staged, fresh_pred);
}

/// A record the scan no longer confirms is deleted — no surviving record
/// keeps its identity — and when a later scan shows the same identity and
/// size again, that entry is reported as new: the catalog had forgotten
/// it.
pub proof fn lemma_removed_then_rediscovered(
    cat: Seq<CatalogRecord>,
    staged1: Seq<ImageBasic>,
    staged2: Seq<ImageBasic>,
    i: int,
    k: int,
)
    requires
        unique_record_paths(cat),
        0 <= i < cat.len(),
        !staged_match(staged1, cat[i].image.basic.path@, cat[i].image.basic.size),
        0 <= k < staged2.len(),
        staged2[k].path@ == cat[i].image.basic.path@,
        staged2[k].size == cat[i].image.basic.size,
    ensures
        forall|m: int|
            0 <= m < kept_records(cat, staged1).len() ==> (#[trigger] kept_records(
                cat,
                staged1,
            )[m]).image.basic.path@ != cat[i].image.basic.path@,
        new_entries(kept_records(cat, staged1), staged2).contains(staged2[k]),
{
    let kept = kept_records(cat, staged1);
    let pred = |r: CatalogRecord| staged_match(staged1, r.image.basic.path@, r.image.basic.size);

    assert forall|m: int| 0 <= m < kept.len() implies (#[trigger] kept[m]).image.basic.path@
        != cat[i].image.basic.path@ by {
        assert(pred(kept[m]));
        lemma_filter_subset(cat, pred, kept[m]);
        let j = choose|j: int| 0 <= j < cat.len() && cat[j] == kept[m];
        if kept[m].image.basic.path@ == cat[i].image.basic.path@ {
            assert(j == i);
            assert(false);
        }
    }

    let fp = |e: ImageBasic| !catalog_match(kept, e.path@, e.size);
    assert(fp(staged2[k]));
    assert(new_entries(kept, staged2).contains(staged2[k]));
}

/// Enriched new entries always fit: whatever subset of one pass's new
/// entries survives enrichment, inserting it into the reconciled catalog
/// never collides with a surviving record, so a full phase cannot trip
/// the duplicate-identity refusal.
pub proof fn lemma_enriched_entries_addable(
    cat: Seq<CatalogRecord>,
    staged: Seq<ImageBasic>,
    enriched: Seq<ImageAdv>,
)
    requires
        unique_record_paths(cat),
        unique_entry_paths(staged),
        forall|i: int, j: int|
            0 <= i < j < enriched.len() ==> enriched[i].basic.path@ != enriched[j].basic.path@,
        forall|i: int|
            0 <= i < enriched.len() ==> exists|k: int|
                0 <= k < new_entries(cat, staged).len() && new_entries(cat, staged)[k].path@
                    == (#[trigger] enriched[i]).basic.path@ && new_entries(cat, staged)[k].size
                    == enriched[i].basic.size,
    ensures
        addable(kept_records(cat, staged), enriched),
{
    let kept = kept_records(cat, staged);
    let ne = new_entries(cat, staged);
    let pred = |r: CatalogRecord| staged_match(staged, r.image.basic.path@, r.image.basic.size);
    let fresh_pred = |e: ImageBasic| !catalog_match(cat, e.path@, e.size);

    assert forall|i: int, m: int|
        0 <= i < enriched.len() && 0 <= m < kept.len() implies enriched[i].basic.path@
        != kept[m].image.basic.path@ by {
        let k = choose|k: int|
            0 <= k < ne.len() && ne[k].path@ == enriched[i].basic.path@ && ne[k].size
                == enriched[i].basic.size;
        lemma_filter_subset(staged, fresh_pred, ne[k]);
        let si = choose|si: int| 0 <= si < staged.len() && staged[si] == ne[k];
        assert(pred(kept[m]));
        lemma_filter_subset(cat, pred, kept[m]);
        let j = choose|j: int| 0 <= j < cat.len() && cat[j] == kept[m];
        if enriched[i].basic.path@ == kept[m].image.basic.path@ {
            let t = choose|t: int|
                0 <= t < staged.len() && staged[t].path@ == kept[m].image.basic.path@
                    && staged[t].size == kept[m].image.basic.size;
            assert(t == si);
            assert(cat[j].image.basic.path@ == ne[k].path@ && cat[j].image.basic.size
                == ne[k].size);
            assert(false);
        }
    }
}

} // verus!
