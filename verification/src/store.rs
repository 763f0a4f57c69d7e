//! The catalog store: two durable record sets ("disk" and "camera") plus one
//! transient staging set per catalog, and the reconciliation operations that
//! act on them.
//!
//! The store itself is a plain in-memory value; durability is the caller's
//! concern.  Every operation here is total and verified: it states exactly
//! which records stay, which leave, and which entries count as new.

use crate::images::display_name_of;
use crate::images::ImageAdv;
use crate::images::ImageBasic;
use vstd::prelude::*;

verus! {

broadcast use vstd::seq_lib::group_filter_ensures;

/// Selects one of the two catalogs held by a [`Store`].
#[derive(Copy, Clone, Debug)]
pub enum TableType {
    Disk,
    Camera,
}

impl TableType {
    /// Human-facing name of the catalog.
    pub fn label(&self) -> (r: &str)
        ensures
            matches!(self, TableType::Disk) ==> r@ == "disk"@,
            matches!(self, TableType::Camera) ==> r@ == "camera"@,
    {
        match self {
            TableType::Disk => "disk",
            TableType::Camera => "camera",
        }
    }

    /// Name of the backing table: the durable one, or the staging one
    /// (`is_new`) that holds the current scan.
    pub fn to_sql(self, is_new: bool) -> (r: &'static str)
        ensures
            matches!(self, TableType::Disk) && !is_new ==> r@ == "on_disk"@,
            matches!(self, TableType::Disk) && is_new ==> r@ == "new_on_disk"@,
            matches!(self, TableType::Camera) && !is_new ==> r@ == "on_camera"@,
            matches!(self, TableType::Camera) && is_new ==> r@ == "new_on_camera"@,
    {
        match (self, is_new) {
            (TableType::Disk, false) => "on_disk",
            (TableType::Disk, true) => "new_on_disk",
            (TableType::Camera, false) => "on_camera",
            (TableType::Camera, true) => "new_on_camera",
        }
    }
}

/// A durable catalog entry: an enriched image plus the flag that marks a
/// camera-side record as already archived.
#[derive(Debug)]
pub struct CatalogRecord {
    pub image: ImageAdv,
    pub saved: bool,
}

impl Clone for CatalogRecord {
    /// Cloning keeps every field.
    fn clone(&self) -> (r: Self)
        ensures
            r == *self,
    {
        CatalogRecord { image: self.image.clone(), saved: self.saved }
    }
}

/// The whole store: one durable record set per catalog, and one transient
/// staging set per catalog holding the current scan.
#[derive(Debug)]
pub struct Store {
    pub on_disk: Vec<CatalogRecord>,
    pub on_camera: Vec<CatalogRecord>,
    pub new_on_disk: Vec<ImageBasic>,
    pub new_on_camera: Vec<ImageBasic>,
}

/// No two records share an identity (root-relative path).
pub open spec fn unique_record_paths(s: Seq<CatalogRecord>) -> bool {
    forall|i: int, j: int|
        0 <= i < j < s.len() ==> s[i].image.basic.path@ != s[j].image.basic.path@
}

/// No two entries share an identity (root-relative path).
pub open spec fn unique_entry_paths(s: Seq<ImageBasic>) -> bool {
    forall|i: int, j: int| 0 <= i < j < s.len() ==> s[i].path@ != s[j].path@
}

impl Store {
    /// The durable catalog invariant: identities are unique per catalog.
    pub open spec fn wf(self) -> bool {
        unique_record_paths(self.on_disk@) && unique_record_paths(self.on_camera@)
    }

    /// The durable records of one catalog.
    pub open spec fn table_view(self, table: TableType) -> Seq<CatalogRecord> {
        match table {
            TableType::Disk => self.on_disk@,
            TableType::Camera => self.on_camera@,
        }
    }

    /// The staging set of one catalog.
    pub open spec fn staging_view(self, table: TableType) -> Seq<ImageBasic> {
        match table {
            TableType::Disk => self.new_on_disk@,
            TableType::Camera => self.new_on_camera@,
        }
    }

    /// An empty store.
    pub fn new() -> (s: Store)
        ensures
            s.wf(),
            s.on_disk@ == Seq::<CatalogRecord>::empty(),
            s.on_camera@ == Seq::<CatalogRecord>::empty(),
            s.new_on_disk@ == Seq::<ImageBasic>::empty(),
            s.new_on_camera@ == Seq::<ImageBasic>::empty(),
    {
        Store {
            on_disk: Vec::new(),
            on_camera: Vec::new(),
            new_on_disk: Vec::new(),
            new_on_camera: Vec::new(),
        }
    }
}

/// Some staged entry records this identity with this size.
pub open spec fn staged_match(staged: Seq<ImageBasic>, path: Seq<char>, size: u64) -> bool {
    exists|k: int| 0 <= k < staged.len() && staged[k].path@ == path && staged[k].size == size
}

/// Some durable record holds this identity with this size.
pub open spec fn catalog_match(cat: Seq<CatalogRecord>, path: Seq<char>, size: u64) -> bool {
    exists|k: int|
        0 <= k < cat.len() && cat[k].image.basic.path@ == path && cat[k].image.basic.size == size
}

/// The records a reconciliation pass keeps: those whose identity and size
/// are both seen again by the current scan.
pub open spec fn kept_records(cat: Seq<CatalogRecord>, staged: Seq<ImageBasic>) -> Seq<
    CatalogRecord,
> {
    cat.filter(|r: CatalogRecord| staged_match(staged, r.image.basic.path@, r.image.basic.size))
}

/// The staged entries a reconciliation pass reports as new: those with no
/// durable record of the same identity and size.
pub open spec fn new_entries(cat: Seq<CatalogRecord>, staged: Seq<ImageBasic>) -> Seq<
    ImageBasic,
> {
    staged.filter(|e: ImageBasic| !catalog_match(cat, e.path@, e.size))
}

/// Whatever a filtering pass keeps was already present and passes the
/// predicate.
pub proof fn lemma_filter_subset<A>(s: Seq<A>, p: spec_fn(A) -> bool, x: A)
    requires
        s.filter(p).contains(x),
    ensures
        s.contains(x),
        p(x),
    decreases s.len(),
{
    reveal(Seq::filter);
    if s.len() > 0 {
        if p(s.last()) && x == s.last() {
            assert(s[s.len() - 1] == x);
        } else {
            assert(s.filter(p) =~= if p(s.last()) {
                s.drop_last().filter(p).push(s.last())
            } else {
                s.drop_last().filter(p)
            });
            if p(s.last()) {
                let f = s.drop_last().filter(p).push(s.last());
                let i = choose|i: int| 0 <= i < f.len() && f[i] == x;
                assert(s.drop_last().filter(p)[i] == x);
            }
            lemma_filter_subset(s.drop_last(), p, x);
            let i = choose|i: int| 0 <= i < s.drop_last().len() && s.drop_last()[i] == x;
            assert(s[i] == x);
        }
    }
}

/// Filtering a sequence whose elements all pass the predicate keeps it
/// unchanged.
pub proof fn lemma_filter_all<A>(s: Seq<A>, p: spec_fn(A) -> bool)
    requires
        forall|i: int| 0 <= i < s.len() ==> p(#[trigger] s[i]),
    ensures
        s.filter(p) == s,
    decreases s.len(),
{
    reveal(Seq::filter);
    if s.len() > 0 {
        lemma_filter_all(s.drop_last(), p);
        assert(p(s[s.len() - 1]));
        assert(s.filter(p) =~= s);
    } else {
        assert(s.filter(p) =~= s);
    }
}

/// Filtering a sequence none of whose elements pass the predicate empties
/// it.
pub proof fn lemma_filter_none<A>(s: Seq<A>, p: spec_fn(A) -> bool)
    requires
        forall|i: int| 0 <= i < s.len() ==> !p(#[trigger] s[i]),
    ensures
        s.filter(p) == Seq::<A>::empty(),
    decreases s.len(),
{
    reveal(Seq::filter);
    if s.len() > 0 {
        lemma_filter_none(s.drop_last(), p);
        assert(!p(s[s.len() - 1]));
        assert(s.filter(p) =~= Seq::<A>::empty());
    } else {
        assert(s.filter(p) =~= Seq::<A>::empty());
    }
}

/// Reconciliation keeps the catalog invariant: a filtered catalog still has
/// unique identities.
proof fn lemma_filter_unique_paths(s: Seq<CatalogRecord>, p: spec_fn(CatalogRecord) -> bool)
    requires
        unique_record_paths(s),
    ensures
        unique_record_paths(s.filter(p)),
    decreases s.len(),
{
    reveal(Seq::filter);
    if s.len() > 0 {
        lemma_filter_unique_paths(s.drop_last(), p);
        if p(s.last()) {
            let f = s.drop_last().filter(p);
            assert forall|i: int| 0 <= i < f.len() implies f[i].image.basic.path@
                != s.last().image.basic.path@ by {
                lemma_filter_subset(s.drop_last(), p, f[i]);
                let k = choose|k: int|
                    0 <= k < s.drop_last().len() && s.drop_last()[k] == f[i];
                assert(s[k] == f[i]);
                assert(s[k].image.basic.path@ != s[s.len() - 1].image.basic.path@);
            }
            assert(s.filter(p) =~= f.push(s.last()));
        }
    }
}

/// Does any staged entry record this identity with this size?
fn has_staged_match(staged: &Vec<ImageBasic>, path: &String, size: u64) -> (b: bool)
    ensures
        b == staged_match(staged@, path@, size),
{
    let n = staged.len();
    let mut k: usize = 0;
    while k < n
        invariant
            0 <= k <= n,
            n == staged@.len(),
            forall|m: int| 0 <= m < k ==> !(staged@[m].path@ == path@ && staged@[m].size == size),
        decreases n - k,
    {
        if staged[k].size == size && staged[k].path == *path {
            return true;
        }
        k = k + 1;
    }
    false
}

/// Does any durable record hold this identity with this size?
fn has_catalog_match(cat: &Vec<CatalogRecord>, path: &String, size: u64) -> (b: bool)
    ensures
        b == catalog_match(cat@, path@, size),
{
    let n = cat.len();
    let mut k: usize = 0;
    while k < n
        invariant
            0 <= k <= n,
            n == cat@.len(),
            forall|m: int|
                0 <= m < k ==> !(cat@[m].image.basic.path@ == path@ && cat@[m].image.basic.size
                    == size),
        decreases n - k,
    {
        if cat[k].image.basic.size == size && cat[k].image.basic.path == *path {
            return true;
        }
        k = k + 1;
    }
    false
}

/// What one reconciliation pass reports: how many durable records were
/// dropped, how many stayed, and which staged entries are genuinely new.
#[derive(Debug)]
pub struct ReconcileResult {
    pub removed: usize,
    pub kept: usize,
    pub new_entries: Vec<ImageBasic>,
}

/// Diffs one catalog against one staging set.  Durable records whose
/// identity and size are not both seen again are dropped; staged entries
/// with no surviving durable match are reported as new, in scan order.
/// Rerunning the pass on an unchanged staging set is a no-op.
pub fn reconcile(cat: &mut Vec<CatalogRecord>, staged: &Vec<ImageBasic>) -> (r: ReconcileResult)
    requires
        unique_record_paths(old(cat)@),
    ensures
        unique_record_paths(final(cat)@),
        final(cat)@ == kept_records(old(cat)@, staged@),
        r.kept == final(cat)@.len(),
        r.removed + r.kept == old(cat)@.len(),
        r.new_entries@ == new_entries(old(cat)@, staged@),
{
    let ghost pred = |rec: CatalogRecord|
        staged_match(staged@, rec.image.basic.path@, rec.image.basic.size);
    let n = cat.len();
    let mut kept: Vec<CatalogRecord> = Vec::new();
    let mut idx: usize = 0;
    while idx < n
        invariant
            0 <= idx <= n,
            n == cat@.len(),
            cat@ == old(cat)@,
            kept@ == cat@.take(idx as int).filter(pred),
            pred == (|rec: CatalogRecord|
                staged_match(staged@, rec.image.basic.path@, rec.image.basic.size)),
        decreases n - idx,
    {
        proof {
            let x = cat@[idx as int];
            assert(cat@.take(idx + 1) =~= cat@.take(idx as int) + seq![x]);
            Seq::filter_distributes_over_add(cat@.take(idx as int), seq![x], pred);
            assert(seq![x].filter(pred) =~= (if pred(x) {
                seq![x]
            } else {
                Seq::<CatalogRecord>::empty()
            })) by {
                reveal_with_fuel(Seq::filter, 2);
                assert(seq![x].drop_last() =~= Seq::<CatalogRecord>::empty());
            }
            assert(kept@.push(x) =~= kept@ + seq![x]);
        }
        if has_staged_match(staged, &cat[idx].image.basic.path, cat[idx].image.basic.size) {
            kept.push(cat[idx].clone());
        }
        idx = idx + 1;
    }
    proof {
        assert(cat@.take(n as int) =~= cat@);
        broadcast use vstd::prelude::Seq::lemma_filter_len;

    }
    let kept_count = kept.len();
    let removed = n - kept_count;

    let mut fresh: Vec<ImageBasic> = Vec::new();
    let ghost fresh_pred = |e: ImageBasic| !catalog_match(cat@, e.path@, e.size);
    let m = staged.len();
    let mut jdx: usize = 0;
    while jdx < m
        invariant
            0 <= jdx <= m,
            m == staged@.len(),
            cat@ == old(cat)@,
            fresh@ == staged@.take(jdx as int).filter(fresh_pred),
            fresh_pred == (|e: ImageBasic| !catalog_match(cat@, e.path@, e.size)),
        decreases m - jdx,
    {
        proof {
            let x = staged@[jdx as int];
            assert(staged@.take(jdx + 1) =~= staged@.take(jdx as int) + seq![x]);
            Seq::filter_distributes_over_add(staged@.take(jdx as int), seq![x], fresh_pred);
            assert(seq![x].filter(fresh_pred) =~= (if fresh_pred(x) {
                seq![x]
            } else {
                Seq::<ImageBasic>::empty()
            })) by {
                reveal_with_fuel(Seq::filter, 2);
                assert(seq![x].drop_last() =~= Seq::<ImageBasic>::empty());
            }
            assert(fresh@.push(x) =~= fresh@ + seq![x]);
        }
        if !has_catalog_match(cat, &staged[jdx].path, staged[jdx].size) {
            fresh.push(staged[jdx].clone());
        }
        jdx = jdx + 1;
    }
    proof {
        assert(staged@.take(m as int) =~= staged@);
        lemma_filter_unique_paths(cat@, pred);
    }
    *cat = kept;
    ReconcileResult { removed, kept: kept_count, new_entries: fresh }
}

/// One camera/disk record pair recorded under the same name and date but
/// with two different sizes: a data-integrity conflict.
#[derive(Debug)]
pub struct SizeMismatch {
    pub camera_path: String,
    pub camera_size: u64,
    pub disk_path: String,
    pub disk_size: u64,
}

/// Why a store operation refused to proceed.
#[derive(Debug)]
pub enum StoreError {
    /// Two records would share one identity within one catalog.
    DuplicateIdentity { path: String },
    /// Matching found records of the same name and date whose sizes differ.
    SizeMismatch { mismatches: Vec<SizeMismatch> },
    /// The store carries a schema version this build does not know.
    UnsupportedVersion { found: i64 },
}

/// The catalog that one reconciliation pass does not touch.
pub open spec fn other_table(t: TableType) -> TableType {
    match t {
        TableType::Disk => TableType::Camera,
        TableType::Camera => TableType::Disk,
    }
}

/// Diffs the chosen catalog against its staging set, dropping durable
/// records the scan no longer confirms and reporting the genuinely new
/// staged entries.  The other catalog and both staging sets are untouched.
pub fn update_table_get_new(store: &mut Store, table: TableType) -> (r: ReconcileResult)
    requires
        old(store).wf(),
    ensures
        final(store).wf(),
        final(store).table_view(table) == kept_records(
            old(store).table_view(table),
            old(store).staging_view(table),
        ),
        final(store).table_view(other_table(table)) == old(store).table_view(other_table(table)),
        final(store).new_on_disk@ == old(store).new_on_disk@,
        final(store).new_on_camera@ == old(store).new_on_camera@,
        r.kept == final(store).table_view(table).len(),
        r.removed + r.kept == old(store).table_view(table).len(),
        r.new_entries@ == new_entries(old(store).table_view(table), old(store).staging_view(table)),
{
    match table {
        TableType::Disk => reconcile(&mut store.on_disk, &store.new_on_disk),
        TableType::Camera => reconcile(&mut store.on_camera, &store.new_on_camera),
    }
}

/// The durable form of freshly enriched entries: not yet archived.
pub open spec fn as_records(images: Seq<ImageAdv>) -> Seq<CatalogRecord> {
    images.map_values(|im: ImageAdv| CatalogRecord { image: im, saved: false })
}

/// The new records can join the catalog without breaking its identity
/// invariant: their paths are pairwise distinct and absent from it.
pub open spec fn addable(cat: Seq<CatalogRecord>, images: Seq<ImageAdv>) -> bool {
    (forall|i: int, j: int|
        0 <= i < j < images.len() ==> images[i].basic.path@ != images[j].basic.path@) && (forall|
        i: int,
        k: int,
    |
        0 <= i < images.len() && 0 <= k < cat.len() ==> images[i].basic.path@
            != cat[k].image.basic.path@)
}

/// This identity would appear twice if the images joined the catalog.
pub open spec fn colliding_path(
    cat: Seq<CatalogRecord>,
    images: Seq<ImageAdv>,
    p: Seq<char>,
) -> bool {
    (exists|i: int, j: int|
        0 <= i < j < images.len() && images[i].basic.path@ == p && images[j].basic.path@ == p)
        || (exists|i: int, k: int|
        0 <= i < images.len() && 0 <= k < cat.len() && images[i].basic.path@ == p
            && cat[k].image.basic.path@ == p)
}

/// Does any durable record hold this identity, whatever its size?
fn has_path_record(cat: &Vec<CatalogRecord>, path: &String) -> (b: bool)
    ensures
        b == exists|k: int| 0 <= k < cat@.len() && cat@[k].image.basic.path@ == path@,
{
    let n = cat.len();
    let mut k: usize = 0;
    while k < n
        invariant
            0 <= k <= n,
            n == cat@.len(),
            forall|m: int| 0 <= m < k ==> cat@[m].image.basic.path@ != path@,
        decreases n - k,
    {
        if cat[k].image.basic.path == *path {
            return true;
        }
        k = k + 1;
    }
    false
}

/// Inserts enriched entries into the chosen catalog as unarchived records.
/// Refuses the whole batch if any inserted identity is already present or
/// appears twice, leaving the store untouched.
pub fn add_to_table(store: &mut Store, table: TableType, images: Vec<ImageAdv>) -> (r: Result<
    (),
    StoreError,
>)
    requires
        old(store).wf(),
    ensures
        final(store).wf(),
        r is Ok <==> addable(old(store).table_view(table), images@),
        match r {
            Ok(_) => {
                &&& final(store).table_view(table) == old(store).table_view(table) + as_records(
                    images@,
                )
                &&& final(store).table_view(other_table(table)) == old(store).table_view(
                    other_table(table),
                )
                &&& final(store).new_on_disk@ == old(store).new_on_disk@
                &&& final(store).new_on_camera@ == old(store).new_on_camera@
            },
            Err(e) => {
                &&& final(store).on_disk@ == old(store).on_disk@
                &&& final(store).on_camera@ == old(store).on_camera@
                &&& final(store).new_on_disk@ == old(store).new_on_disk@
                &&& final(store).new_on_camera@ == old(store).new_on_camera@
                &&& e matches StoreError::DuplicateIdentity { path } && colliding_path(
                    old(store).table_view(table),
                    images@,
                    path@,
                )
            },
        },
{
    match table {
        TableType::Disk => add_records(&mut store.on_disk, images),
        TableType::Camera => add_records(&mut store.on_camera, images),
    }
}

/// Inserts the enriched entries into one catalog, refusing the whole batch
/// when an identity would appear twice.
#[verifier::loop_isolation(false)]
fn add_records(cat: &mut Vec<CatalogRecord>, images: Vec<ImageAdv>) -> (r: Result<(), StoreError>)
    requires
        unique_record_paths(old(cat)@),
    ensures
        unique_record_paths(final(cat)@),
        r is Ok <==> addable(old(cat)@, images@),
        match r {
            Ok(_) => final(cat)@ == old(cat)@ + as_records(images@),
            Err(e) => {
                &&& final(cat)@ == old(cat)@
                &&& e matches StoreError::DuplicateIdentity { path } && colliding_path(
                    old(cat)@,
                    images@,
                    path@,
                )
            },
        },
{
    let n = images.len();
    let mut i: usize = 0;
    while i < n
        invariant
            0 <= i <= n,
            n == images@.len(),
            cat@ == old(cat)@,
            forall|a: int, b: int|
                0 <= a < b < i ==> images@[a].basic.path@ != images@[b].basic.path@,
            forall|a: int, k: int|
                0 <= a < i && 0 <= k < cat@.len() ==> images@[a].basic.path@
                    != cat@[k].image.basic.path@,
        decreases n - i,
    {
        if has_path_record(cat, &images[i].basic.path) {
            return Err(StoreError::DuplicateIdentity { path: images[i].basic.path.clone() });
        }
        let mut j: usize = 0;
        while j < i
            invariant
                0 <= j <= i < n,
                n == images@.len(),
                forall|b: int|
                    0 <= b < j ==> images@[b].basic.path@ != images@[i as int].basic.path@,
            decreases i - j,
        {
            if images[j].basic.path == images[i].basic.path {
                return Err(StoreError::DuplicateIdentity { path: images[i].basic.path.clone() });
            }
            j = j + 1;
        }
        i = i + 1;
    }
    let ghost cat0 = cat@;
    let mut idx: usize = 0;
    while idx < n
        invariant
            0 <= idx <= n,
            n == images@.len(),
            cat@ == cat0 + as_records(images@.take(idx as int)),
        decreases n - idx,
    {
        cat.push(CatalogRecord { image: images[idx].clone(), saved: false });
        proof {
            assert(cat@ =~= cat0 + as_records(images@.take(idx + 1)));
        }
        idx = idx + 1;
    }
    proof {
        assert(images@.take(n as int) =~= images@);
        assert(cat@ =~= cat0 + as_records(images@));
    }
    Ok(())
}

/// Is this identity among the entries just archived?
pub open spec fn in_saved(saved: Seq<ImageAdv>, path: Seq<char>) -> bool {
    exists|k: int| 0 <= k < saved.len() && saved[k].basic.path@ == path
}

/// Is this identity among the entries just archived?
fn has_saved_path(saved: &Vec<ImageAdv>, path: &String) -> (b: bool)
    ensures
        b == in_saved(saved@, path@),
{
    let n = saved.len();
    let mut k: usize = 0;
    while k < n
        invariant
            0 <= k <= n,
            n == saved@.len(),
            forall|m: int| 0 <= m < k ==> saved@[m].basic.path@ != path@,
        decreases n - k,
    {
        if saved[k].basic.path == *path {
            return true;
        }
        k = k + 1;
    }
    false
}

/// Marks exactly the camera records whose identity is among `saved` as
/// archived.  No other field of any record changes.
pub fn set_images_as_archived(store: &mut Store, saved: &Vec<ImageAdv>)
    requires
        old(store).wf(),
    ensures
        final(store).wf(),
        final(store).on_camera@.len() == old(store).on_camera@.len(),
        forall|i: int|
            0 <= i < old(store).on_camera@.len() ==> {
                &&& (#[trigger] final(store).on_camera@[i]).image == old(store).on_camera@[i].image
                &&& final(store).on_camera@[i].saved == (old(store).on_camera@[i].saved
                    || in_saved(saved@, old(store).on_camera@[i].image.basic.path@))
            },
        final(store).on_disk@ == old(store).on_disk@,
        final(store).new_on_disk@ == old(store).new_on_disk@,
        final(store).new_on_camera@ == old(store).new_on_camera@,
{
    let n = store.on_camera.len();
    let mut out: Vec<CatalogRecord> = Vec::new();
    let mut i: usize = 0;
    while i < n
        invariant
            0 <= i <= n,
            n == store.on_camera@.len(),
            store.on_camera@ == old(store).on_camera@,
            out@.len() == i,
            forall|m: int|
                0 <= m < i ==> {
                    &&& (#[trigger] out@[m]).image == store.on_camera@[m].image
                    &&& out@[m].saved == (store.on_camera@[m].saved || in_saved(
                        saved@,
                        store.on_camera@[m].image.basic.path@,
                    ))
                },
        decreases n - i,
    {
        let rec = &store.on_camera[i];
        let mark = rec.saved || has_saved_path(saved, &rec.image.basic.path);
        out.push(CatalogRecord { image: rec.image.clone(), saved: mark });
        i = i + 1;
    }
    store.on_camera = out;
    proof {
        assert forall|a: int, b: int|
            0 <= a < b < store.on_camera@.len() implies store.on_camera@[a].image.basic.path@
            != store.on_camera@[b].image.basic.path@ by {
            assert(old(store).on_camera@[a].image.basic.path@
                != old(store).on_camera@[b].image.basic.path@);
        }
    }
}

/// Finds an identity used twice in one catalog, if any.
fn find_dup_record_path(cat: &Vec<CatalogRecord>) -> (r: Option<String>)
    ensures
        r is Some <==> !unique_record_paths(cat@),
        r matches Some(p) ==> exists|i: int, j: int|
            0 <= i < j < cat@.len() && cat@[i].image.basic.path@ == cat@[j].image.basic.path@
                && cat@[i].image.basic.path@ == p@,
{
    let n = cat.len();
    let mut i: usize = 0;
    while i < n
        invariant
            0 <= i <= n,
            n == cat@.len(),
            forall|a: int, b: int|
                0 <= a < b < cat@.len() && b < i ==> cat@[a].image.basic.path@
                    != cat@[b].image.basic.path@,
        decreases n - i,
    {
        let mut j: usize = 0;
        while j < i
            invariant
                0 <= j <= i < n,
                n == cat@.len(),
                forall|a: int| 0 <= a < j ==> cat@[a].image.basic.path@
                    != cat@[i as int].image.basic.path@,
            decreases i - j,
        {
            if cat[j].image.basic.path == cat[i].image.basic.path {
                return Some(cat[i].image.basic.path.clone());
            }
            j = j + 1;
        }
        i = i + 1;
    }
    None
}

impl Store {
    /// Builds a store from records loaded elsewhere, accepting them exactly
    /// when each catalog keeps its identities unique.  Both staging sets
    /// start empty.
    pub fn from_records(disk: Vec<CatalogRecord>, camera: Vec<CatalogRecord>) -> (r: Result<
        Store,
        StoreError,
    >)
        ensures
            r is Ok <==> (unique_record_paths(disk@) && unique_record_paths(camera@)),
            match r {
                Ok(s) => {
                    &&& s.wf()
                    &&& s.on_disk@ == disk@
                    &&& s.on_camera@ == camera@
                    &&& s.new_on_disk@ == Seq::<ImageBasic>::empty()
                    &&& s.new_on_camera@ == Seq::<ImageBasic>::empty()
                },
                Err(e) => e matches StoreError::DuplicateIdentity { .. },
            },
    {
        if let Some(p) = find_dup_record_path(&disk) {
            return Err(StoreError::DuplicateIdentity { path: p });
        }
        if let Some(p) = find_dup_record_path(&camera) {
            return Err(StoreError::DuplicateIdentity { path: p });
        }
        Ok(
            Store {
                on_disk: disk,
                on_camera: camera,
                new_on_disk: Vec::new(),
                new_on_camera: Vec::new(),
            },
        )
    }
}

/// One reported duplicate cluster: a display name and every staged path
/// that shares it (with one size).
#[derive(Debug)]
pub struct DuplicateImage {
    pub name: String,
    pub paths: Vec<String>,
}

/// The mathematical content of a reported cluster.
pub open spec fn dup_view(d: DuplicateImage) -> (Seq<char>, Seq<Seq<char>>) {
    (d.name@, d.paths@.map_values(|p: String| p@))
}

/// The dedupe join key: same display name and same size.
pub open spec fn same_key(a: ImageBasic, b: ImageBasic) -> bool {
    display_name_of(a.path@) == display_name_of(b.path@) && a.size == b.size
}

/// Did an entry with this key already occur strictly before `upto`?
pub open spec fn key_seen_before(s: Seq<ImageBasic>, upto: int, e: ImageBasic) -> bool {
    exists|k: int| 0 <= k < upto && same_key(s[k], e)
}

/// The staging set after duplicate collapse: the first entry of each
/// (display name, size) group, in scan order.
pub open spec fn dedup_first(s: Seq<ImageBasic>) -> Seq<ImageBasic>
    decreases s.len(),
{
    if s.len() == 0 {
        s
    } else {
        let pre = dedup_first(s.drop_last());
        if key_seen_before(s, s.len() - 1, s.last()) {
            pre
        } else {
            pre.push(s.last())
        }
    }
}

/// Every path whose entry shares this key, in scan order.
pub open spec fn paths_with_key(s: Seq<ImageBasic>, e: ImageBasic) -> Seq<Seq<char>>
    decreases s.len(),
{
    if s.len() == 0 {
        Seq::empty()
    } else {
        let pre = paths_with_key(s.drop_last(), e);
        if same_key(s.last(), e) {
            pre.push(s.last().path@)
        } else {
            pre
        }
    }
}

/// The clusters reported for the representatives `reps` of the scan `s`:
/// one per representative whose key occurs more than once.
pub open spec fn clusters_of(reps: Seq<ImageBasic>, s: Seq<ImageBasic>) -> Seq<
    (Seq<char>, Seq<Seq<char>>),
>
    decreases reps.len(),
{
    if reps.len() == 0 {
        Seq::empty()
    } else {
        let pre = clusters_of(reps.drop_last(), s);
        if paths_with_key(s, reps.last()).len() > 1 {
            pre.push((display_name_of(reps.last().path@), paths_with_key(s, reps.last())))
        } else {
            pre
        }
    }
}

/// The duplicate clusters of one scan, keyed by its chosen representatives.
pub open spec fn duplicate_clusters(s: Seq<ImageBasic>) -> Seq<(Seq<char>, Seq<Seq<char>>)> {
    clusters_of(dedup_first(s), s)
}

/// This identity appears twice in the scan.
pub open spec fn dup_entry_path(s: Seq<ImageBasic>, p: Seq<char>) -> bool {
    exists|i: int, j: int| 0 <= i < j < s.len() && s[i].path@ == s[j].path@ && s[i].path@ == p
}

/// Do these two entries share the dedupe key?
fn entries_same_key(a: &ImageBasic, b: &ImageBasic) -> (r: bool)
    ensures
        r == same_key(*a, *b),
{
    if a.size != b.size {
        false
    } else {
        let na = a.get_name().to_owned();
        let nb = b.get_name().to_owned();
        na == nb
    }
}

/// Collapses one scan to its staging set: refuses a scan whose identities
/// are not unique; otherwise keeps the first entry of each (display name,
/// size) group and reports every group with more than one member.
#[verifier::loop_isolation(false)]
fn dedupe_scan(images: &Vec<ImageBasic>) -> (r: Result<
    (Vec<ImageBasic>, Vec<DuplicateImage>),
    StoreError,
>)
    ensures
        r is Ok <==> unique_entry_paths(images@),
        match r {
            Ok((staged, dups)) => {
                &&& staged@ == dedup_first(images@)
                &&& dups@.map_values(|d: DuplicateImage| dup_view(d)) == duplicate_clusters(
                    images@,
                )
            },
            Err(e) => e matches StoreError::DuplicateIdentity { path } && dup_entry_path(
                images@,
                path@,
            ),
        },
{
    let n = images.len();

    let mut i: usize = 0;
    while i < n
        invariant
            0 <= i <= n,
            forall|a: int, b: int| 0 <= a < b < i ==> images@[a].path@ != images@[b].path@,
        decreases n - i,
    {
        let mut j: usize = 0;
        while j < i
            invariant
                0 <= j <= i < n,
                forall|b: int| 0 <= b < j ==> images@[b].path@ != images@[i as int].path@,
            decreases i - j,
        {
            if images[j].path == images[i].path {
                return Err(StoreError::DuplicateIdentity { path: images[i].path.clone() });
            }
            j = j + 1;
        }
        i = i + 1;
    }

    let mut staged: Vec<ImageBasic> = Vec::new();
    let mut idx: usize = 0;
    while idx < n
        invariant
            0 <= idx <= n,
            staged@ == dedup_first(images@.take(idx as int)),
        decreases n - idx,
    {
        let mut seen = false;
        let mut j: usize = 0;
        while j < idx
            invariant
                0 <= j <= idx < n,
                seen == key_seen_before(images@, j as int, images@[idx as int]),
            decreases idx - j,
        {
            if entries_same_key(&images[j], &images[idx]) {
                seen = true;
            }
            proof {
                assert(key_seen_before(images@, j + 1, images@[idx as int])
                    == (key_seen_before(images@, j as int, images@[idx as int]) || same_key(
                    images@[j as int],
                    images@[idx as int],
                )));
            }
            j = j + 1;
        }
        proof {
            let t1 = images@.take(idx + 1);
            assert(t1.drop_last() =~= images@.take(idx as int));
            assert(t1.last() == images@[idx as int]);
            assert forall|k: int| 0 <= k < idx implies t1[k] == images@[k] by {}
            assert(key_seen_before(t1, idx as int, t1.last()) == key_seen_before(
                images@,
                idx as int,
                images@[idx as int],
            )) by {
                if key_seen_before(t1, idx as int, t1.last()) {
                    let k = choose|k: int| 0 <= k < idx && same_key(t1[k], t1.last());
                    assert(same_key(images@[k], images@[idx as int]));
                }
                if key_seen_before(images@, idx as int, images@[idx as int]) {
                    let k = choose|k: int|
                        0 <= k < idx && same_key(images@[k], images@[idx as int]);
                    assert(same_key(t1[k], t1.last()));
                }
            }
        }
        if !seen {
            staged.push(images[idx].clone());
        }
        idx = idx + 1;
    }
    proof {
        assert(images@.take(n as int) =~= images@);
    }

    let mut dups: Vec<DuplicateImage> = Vec::new();
    let reps = staged.len();
    let mut ridx: usize = 0;
    while ridx < reps
        invariant
            0 <= ridx <= reps,
            reps == staged@.len(),
            staged@ == dedup_first(images@),
            dups@.map_values(|d: DuplicateImage| dup_view(d)) == clusters_of(
                staged@.take(ridx as int),
                images@,
            ),
        decreases reps - ridx,
    {
        let mut paths: Vec<String> = Vec::new();
        let mut j: usize = 0;
        while j < n
            invariant
                0 <= j <= n,
                0 <= ridx < reps,
                reps == staged@.len(),
                paths@.map_values(|p: String| p@) == paths_with_key(
                    images@.take(j as int),
                    staged@[ridx as int],
                ),
            decreases n - j,
        {
            proof {
                let t1 = images@.take(j + 1);
                assert(t1.drop_last() =~= images@.take(j as int));
                assert(t1.last() == images@[j as int]);
            }
            if entries_same_key(&images[j], &staged[ridx]) {
                paths.push(images[j].path.clone());
                proof {
                    assert(paths@.map_values(|p: String| p@) =~= paths_with_key(
                        images@.take(j + 1),
                        staged@[ridx as int],
                    ));
                }
            }
            j = j + 1;
        }
        proof {
            assert(images@.take(n as int) =~= images@);
        }
        proof {
            let t1 = staged@.take(ridx + 1);
            assert(t1.drop_last() =~= staged@.take(ridx as int));
            assert(t1.last() == staged@[ridx as int]);
        }
        if paths.len() > 1 {
            let name = staged[ridx].get_name().to_owned();
            dups.push(DuplicateImage { name, paths });
            proof {
                assert(dups@.map_values(|d: DuplicateImage| dup_view(d)) =~= clusters_of(
                    staged@.take(ridx + 1),
                    images@,
                ));
            }
        }
        ridx = ridx + 1;
    }
    proof {
        assert(staged@.take(reps as int) =~= staged@);
    }
    Ok((staged, dups))
}

/// Rebuilds the staging set of the chosen catalog from one scan: the scan
/// is deduplicated by (display name, size) and every cluster with more than
/// one member is reported.  A scan whose identities are not unique is
/// refused whole, and the store is left as it was.  Durable records are
/// never touched.
pub fn populate_new_table(store: &mut Store, table: TableType, images: Vec<ImageBasic>) -> (r:
    Result<Vec<DuplicateImage>, StoreError>)
    requires
        old(store).wf(),
    ensures
        final(store).wf(),
        final(store).on_disk@ == old(store).on_disk@,
        final(store).on_camera@ == old(store).on_camera@,
        final(store).staging_view(other_table(table)) == old(store).staging_view(
            other_table(table),
        ),
        r is Ok <==> unique_entry_paths(images@),
        match r {
            Ok(dups) => {
                &&& final(store).staging_view(table) == dedup_first(images@)
                &&& dups@.map_values(|d: DuplicateImage| dup_view(d)) == duplicate_clusters(
                    images@,
                )
            },
            Err(e) => {
                &&& final(store).staging_view(table) == old(store).staging_view(table)
                &&& e matches StoreError::DuplicateIdentity { path } && dup_entry_path(
                    images@,
                    path@,
                )
            },
        },
{
    match dedupe_scan(&images) {
        Ok((staged, dups)) => {
            match table {
                TableType::Disk => {
                    store.new_on_disk = staged;
                },
                TableType::Camera => {
                    store.new_on_camera = staged;
                },
            }
            Ok(dups)
        },
        Err(e) => Err(e),
    }
}

/// Every staging representative comes from the scan itself.
pub proof fn lemma_dedup_subset(s: Seq<ImageBasic>, i: int)
    requires
        0 <= i < dedup_first(s).len(),
    ensures
        exists|k: int| 0 <= k < s.len() && dedup_first(s)[i] == s[k],
    decreases s.len(),
{
    if s.len() > 0 {
        let pre = dedup_first(s.drop_last());
        if key_seen_before(s, s.len() - 1, s.last()) {
            lemma_dedup_subset(s.drop_last(), i);
            let k = choose|k: int| 0 <= k < s.drop_last().len() && pre[i] == s.drop_last()[k];
            assert(dedup_first(s)[i] == s[k]);
        } else {
            if i < pre.len() {
                lemma_dedup_subset(s.drop_last(), i);
                let k = choose|k: int| 0 <= k < s.drop_last().len() && pre[i] == s.drop_last()[k];
                assert(dedup_first(s)[i] == s[k]);
            } else {
                assert(dedup_first(s)[i] == s[s.len() - 1]);
            }
        }
    }
}

/// After collapse no two staging entries share the (display name, size)
/// key: the uniqueness the enrichment and matching steps rely on.
pub proof fn lemma_dedup_unique_keys(s: Seq<ImageBasic>)
    ensures
        forall|i: int, j: int|
            0 <= i < j < dedup_first(s).len() ==> !same_key(
                dedup_first(s)[i],
                dedup_first(s)[j],
            ),
    decreases s.len(),
{
    if s.len() > 0 {
        lemma_dedup_unique_keys(s.drop_last());
        let pre = dedup_first(s.drop_last());
        if !key_seen_before(s, s.len() - 1, s.last()) {
            assert forall|i: int| 0 <= i < pre.len() implies !same_key(pre[i], s.last()) by {
                lemma_dedup_subset(s.drop_last(), i);
                let k = choose|k: int|
                    0 <= k < s.drop_last().len() && pre[i] == s.drop_last()[k];
                assert(s[k] == pre[i]);
            }
            assert forall|i: int, j: int|
                0 <= i < j < dedup_first(s).len() implies !same_key(
                dedup_first(s)[i],
                dedup_first(s)[j],
            ) by {
                if j < pre.len() {
                } else {
                    assert(dedup_first(s)[j] == s.last());
                    assert(dedup_first(s)[i] == pre[i]);
                }
            }
        }
    }
}

/// Every scanned entry has a staging representative with its key: collapse
/// loses no (display name, size) group.
pub proof fn lemma_dedup_covers(s: Seq<ImageBasic>, k: int)
    requires
        0 <= k < s.len(),
    ensures
        exists|m: int|
            0 <= m < dedup_first(s).len() && same_key(s[k], dedup_first(s)[m]),
    decreases s.len(),
{
    let pre = dedup_first(s.drop_last());
    if k < s.len() - 1 {
        lemma_dedup_covers(s.drop_last(), k);
        let m = choose|m: int| 0 <= m < pre.len() && same_key(s.drop_last()[k], pre[m]);
        assert(same_key(s[k], dedup_first(s)[m]));
    } else {
        if key_seen_before(s, s.len() - 1, s.last()) {
            let k2 = choose|k2: int| 0 <= k2 < s.len() - 1 && same_key(s[k2], s.last());
            lemma_dedup_covers(s.drop_last(), k2);
            let m = choose|m: int| 0 <= m < pre.len() && same_key(s.drop_last()[k2], pre[m]);
            assert(same_key(s[k], dedup_first(s)[m]));
        } else {
            assert(same_key(s[k], dedup_first(s)[pre.len() as int]));
        }
    }
}

/// The cross-catalog join key: same display name and same capture date.
/// It tolerates a file renamed into another directory or re-encoded, while
/// still finding the same logical photo or clip.
pub open spec fn match_key(a: ImageAdv, b: ImageAdv) -> bool {
    display_name_of(a.basic.path@) == display_name_of(b.basic.path@) && a.date == b.date
}

/// Some camera/disk record pair shares the join key with two different
/// sizes: the data-integrity conflict that aborts matching.
pub open spec fn conflict_exists(cam: Seq<CatalogRecord>, disk: Seq<CatalogRecord>) -> bool {
    exists|i: int, j: int|
        0 <= i < cam.len() && 0 <= j < disk.len() && match_key(cam[i].image, disk[j].image)
            && cam[i].image.basic.size != disk[j].image.basic.size
}

/// The mathematical content of one reported mismatch.
pub open spec fn mismatch_view(m: SizeMismatch) -> (Seq<char>, u64, Seq<char>, u64) {
    (m.camera_path@, m.camera_size, m.disk_path@, m.disk_size)
}

/// The mismatches one camera record forms against the disk catalog, in
/// catalog order.
pub open spec fn mismatches_with(c: CatalogRecord, disk: Seq<CatalogRecord>) -> Seq<
    (Seq<char>, u64, Seq<char>, u64),
>
    decreases disk.len(),
{
    if disk.len() == 0 {
        Seq::empty()
    } else {
        let pre = mismatches_with(c, disk.drop_last());
        let d = disk.last();
        if match_key(c.image, d.image) && c.image.basic.size != d.image.basic.size {
            pre.push(
                (
                    c.image.basic.path@,
                    c.image.basic.size,
                    d.image.basic.path@,
                    d.image.basic.size,
                ),
            )
        } else {
            pre
        }
    }
}

/// Every mismatching camera/disk pair, camera-major, in catalog order.
pub open spec fn mismatch_list(cam: Seq<CatalogRecord>, disk: Seq<CatalogRecord>) -> Seq<
    (Seq<char>, u64, Seq<char>, u64),
>
    decreases cam.len(),
{
    if cam.len() == 0 {
        Seq::empty()
    } else {
        mismatch_list(cam.drop_last(), disk) + mismatches_with(cam.last(), disk)
    }
}

/// One camera record's mismatches are nonempty exactly when a conflicting
/// disk record exists for it.
proof fn lemma_mismatches_with_len(c: CatalogRecord, disk: Seq<CatalogRecord>)
    ensures
        mismatches_with(c, disk).len() > 0 <==> exists|j: int|
            0 <= j < disk.len() && match_key(c.image, disk[j].image) && c.image.basic.size
                != disk[j].image.basic.size,
    decreases disk.len(),
{
    if disk.len() > 0 {
        lemma_mismatches_with_len(c, disk.drop_last());
        let d = disk.last();
        if match_key(c.image, d.image) && c.image.basic.size != d.image.basic.size {
            assert(match_key(c.image, disk[disk.len() - 1].image) && c.image.basic.size
                != disk[disk.len() - 1].image.basic.size);
        } else {
            if mismatches_with(c, disk).len() > 0 {
                let j = choose|j: int|
                    0 <= j < disk.drop_last().len() && match_key(c.image, disk.drop_last()[j].image)
                        && c.image.basic.size != disk.drop_last()[j].image.basic.size;
                assert(match_key(c.image, disk[j].image));
            }
            if exists|j: int|
                0 <= j < disk.len() && match_key(c.image, disk[j].image) && c.image.basic.size
                    != disk[j].image.basic.size {
                let j = choose|j: int|
                    0 <= j < disk.len() && match_key(c.image, disk[j].image) && c.image.basic.size
                        != disk[j].image.basic.size;
                assert(j < disk.len() - 1);
                assert(match_key(c.image, disk.drop_last()[j].image));
            }
        }
    }
}

/// The mismatch list is nonempty exactly when a conflict exists: matching
/// fails if and only if some pair genuinely disagrees.
pub proof fn lemma_conflict_iff(cam: Seq<CatalogRecord>, disk: Seq<CatalogRecord>)
    ensures
        mismatch_list(cam, disk).len() > 0 <==> conflict_exists(cam, disk),
    decreases cam.len(),
{
    if cam.len() > 0 {
        lemma_conflict_iff(cam.drop_last(), disk);
        lemma_mismatches_with_len(cam.last(), disk);
        if conflict_exists(cam.drop_last(), disk) {
            let (i, j) = choose|i: int, j: int|
                0 <= i < cam.drop_last().len() && 0 <= j < disk.len() && match_key(
                    cam.drop_last()[i].image,
                    disk[j].image,
                ) && cam.drop_last()[i].image.basic.size != disk[j].image.basic.size;
            assert(match_key(cam[i].image, disk[j].image));
        }
        if mismatches_with(cam.last(), disk).len() > 0 {
            let j = choose|j: int|
                0 <= j < disk.len() && match_key(cam.last().image, disk[j].image)
                    && cam.last().image.basic.size != disk[j].image.basic.size;
            assert(match_key(cam[cam.len() - 1].image, disk[j].image) && cam[cam.len()
                - 1].image.basic.size != disk[j].image.basic.size);
        }
        if conflict_exists(cam, disk) && mismatch_list(cam, disk).len() == 0 {
            let (i, j) = choose|i: int, j: int|
                0 <= i < cam.len() && 0 <= j < disk.len() && match_key(cam[i].image, disk[j].image)
                    && cam[i].image.basic.size != disk[j].image.basic.size;
            if i < cam.len() - 1 {
                assert(match_key(cam.drop_last()[i].image, disk[j].image));
            } else {
                assert(match_key(cam.last().image, disk[j].image));
            }
        }
    }
}

/// Does any disk record share the join key with this camera image?
pub open spec fn disk_has_match(disk: Seq<CatalogRecord>, a: ImageAdv) -> bool {
    exists|j: int| 0 <= j < disk.len() && match_key(a, disk[j].image)
}

/// The archive worklist: every unarchived camera record with no disk
/// record under its join key, in catalog order.
pub open spec fn worklist_spec(cam: Seq<CatalogRecord>, disk: Seq<CatalogRecord>) -> Seq<
    ImageAdv,
> {
    cam.filter(|r: CatalogRecord| !r.saved && !disk_has_match(disk, r.image)).map_values(
        |r: CatalogRecord| r.image,
    )
}

/// Do these two records share the cross-catalog join key?
fn records_match_key(a: &ImageAdv, b: &ImageAdv) -> (r: bool)
    ensures
        r == match_key(*a, *b),
{
    if a.date != b.date {
        false
    } else {
        let na = a.basic.get_name().to_owned();
        let nb = b.basic.get_name().to_owned();
        na == nb
    }
}

/// Does any disk record share the join key with this camera image?
fn has_disk_key_match(disk: &Vec<CatalogRecord>, a: &ImageAdv) -> (r: bool)
    ensures
        r == disk_has_match(disk@, *a),
{
    let n = disk.len();
    let mut j: usize = 0;
    while j < n
        invariant
            0 <= j <= n,
            n == disk@.len(),
            forall|m: int| 0 <= m < j ==> !match_key(*a, disk@[m].image),
        decreases n - j,
    {
        if records_match_key(a, &disk[j].image) {
            return true;
        }
        j = j + 1;
    }
    false
}

/// Computes the archive worklist from the two catalogs: every unarchived
/// camera record whose (display name, date) key no disk record shares.  If
/// any camera/disk pair shares a key with two different sizes, the whole
/// matching fails with the full list of such pairs and no worklist is
/// produced.
#[verifier::loop_isolation(false)]
pub fn get_images_to_archive(store: &Store) -> (r: Result<Vec<ImageAdv>, StoreError>)
    ensures
        r is Err <==> conflict_exists(store.on_camera@, store.on_disk@),
        match r {
            Ok(images) => images@ == worklist_spec(store.on_camera@, store.on_disk@),
            Err(e) => e matches StoreError::SizeMismatch { mismatches }
                && mismatches@.map_values(|m: SizeMismatch| mismatch_view(m)) == mismatch_list(
                store.on_camera@,
                store.on_disk@,
            ),
        },
{
    let cam = &store.on_camera;
    let disk = &store.on_disk;
    let n = cam.len();
    let dn = disk.len();

    let mut mismatches: Vec<SizeMismatch> = Vec::new();
    let mut i: usize = 0;
    while i < n
        invariant
            0 <= i <= n,
            mismatches@.map_values(|m: SizeMismatch| mismatch_view(m)) == mismatch_list(
                cam@.take(i as int),
                disk@,
            ),
        decreases n - i,
    {
        let mut j: usize = 0;
        while j < dn
            invariant
                0 <= j <= dn,
                0 <= i < n,
                mismatches@.map_values(|m: SizeMismatch| mismatch_view(m)) == mismatch_list(
                    cam@.take(i as int),
                    disk@,
                ) + mismatches_with(cam@[i as int], disk@.take(j as int)),
            decreases dn - j,
        {
            proof {
                let t1 = disk@.take(j + 1);
                assert(t1.drop_last() =~= disk@.take(j as int));
                assert(t1.last() == disk@[j as int]);
            }
            if records_match_key(&cam[i].image, &disk[j].image) && cam[i].image.basic.size
                != disk[j].image.basic.size {
                let elem = SizeMismatch {
                    camera_path: cam[i].image.basic.path.clone(),
                    camera_size: cam[i].image.basic.size,
                    disk_path: disk[j].image.basic.path.clone(),
                    disk_size: disk[j].image.basic.size,
                };
                let ghost ge = elem;
                let ghost mm0 = mismatches@;
                mismatches.push(elem);
                proof {
                    let f = |m: SizeMismatch| mismatch_view(m);
                    let t1 = disk@.take(j + 1);
                    let c = cam@[i as int];
                    let tup = (
                        c.image.basic.path@,
                        c.image.basic.size,
                        disk@[j as int].image.basic.path@,
                        disk@[j as int].image.basic.size,
                    );
                    assert(mismatches_with(c, t1) == mismatches_with(
                        c,
                        disk@.take(j as int),
                    ).push(tup));
                    assert(mismatch_view(ge) == tup);
                    assert(mismatches@.map_values(f) =~= mm0.map_values(f).push(tup));
                    assert(mismatch_list(cam@.take(i as int), disk@) + mismatches_with(c, t1)
                        =~= (mismatch_list(cam@.take(i as int), disk@) + mismatches_with(
                        c,
                        disk@.take(j as int),
                    )).push(tup));
                }
            }
            j = j + 1;
        }
        proof {
            assert(disk@.take(dn as int) =~= disk@);
            let t1 = cam@.take(i + 1);
            assert(t1.drop_last() =~= cam@.take(i as int));
            assert(t1.last() == cam@[i as int]);
        }
        i = i + 1;
    }
    proof {
        assert(cam@.take(n as int) =~= cam@);
        lemma_conflict_iff(cam@, disk@);
    }
    if mismatches.len() > 0 {
        return Err(StoreError::SizeMismatch { mismatches });
    }

    let ghost pred = |r: CatalogRecord| !r.saved && !disk_has_match(disk@, r.image);
    let mut out: Vec<ImageAdv> = Vec::new();
    let mut k: usize = 0;
    while k < n
        invariant
            0 <= k <= n,
            out@ == cam@.take(k as int).filter(pred).map_values(|r: CatalogRecord| r.image),
        decreases n - k,
    {
        proof {
            let x = cam@[k as int];
            assert(cam@.take(k + 1) =~= cam@.take(k as int) + seq![x]);
            Seq::filter_distributes_over_add(cam@.take(k as int), seq![x], pred);
            assert(seq![x].filter(pred) =~= (if pred(x) {
                seq![x]
            } else {
                Seq::<CatalogRecord>::empty()
            })) by {
                reveal_with_fuel(Seq::filter, 2);
                assert(seq![x].drop_last() =~= Seq::<CatalogRecord>::empty());
            }
        }
        let rec = &cam[k];
        if !rec.saved && !has_disk_key_match(disk, &rec.image) {
            out.push(rec.image.clone());
        }
        proof {
            assert(out@ =~= cam@.take(k + 1).filter(pred).map_values(
                |r: CatalogRecord| r.image,
            ));
        }
        k = k + 1;
    }
    proof {
        assert(cam@.take(n as int) =~= cam@);
    }
    Ok(out)
}

} // verus!
