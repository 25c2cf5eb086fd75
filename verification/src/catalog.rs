//! The persistent container catalog: the user's registered containers
//! with their stable identifiers, the last picker directory, and the
//! protocol lists.
//!
//! On disk the catalog is one JSON document. The deserialized shape
//! tolerates unknown optional fields and a legacy path-only container
//! list; loading normalizes to the current shape, assigning a fresh
//! identifier to every legacy path that has no descriptor yet. The
//! serializer always writes the current shape. Descriptors are kept
//! sorted by path with unique paths.

use vstd::prelude::*;

use crate::ids::fresh_uuid_value;
use crate::textutil::{
    clone_string, lemma_str_lt_connex, lemma_str_lt_irrefl, lemma_str_lt_trans, str_eq, str_less,
    str_lt,
};

verus! {

/// A user-registered container: a stable identifier assigned at
/// registration and the absolute path of the container image.
#[derive(Debug)]
pub struct BackendContainerDescription {
    pub id: u128,
    pub path: String,
}

/// The mathematical content of a descriptor.
#[verifier::ext_equal]
pub struct DescModel {
    pub id: u128,
    pub path: Seq<char>,
}

impl View for BackendContainerDescription {
    type V = DescModel;

    open spec fn view(&self) -> DescModel {
        DescModel { id: self.id, path: self.path@ }
    }
}

impl DeepView for BackendContainerDescription {
    type V = DescModel;

    open spec fn deep_view(&self) -> DescModel {
        self.view()
    }
}

impl BackendContainerDescription {
    /// A descriptor for a path never registered before: the path with
    /// a freshly drawn identifier.
    pub fn from_path(pth: String) -> (d: BackendContainerDescription)
        ensures
            d.path@ == pth@,
    {
        BackendContainerDescription { id: fresh_uuid_value(), path: pth }
    }

    pub fn duplicate(&self) -> (d: BackendContainerDescription)
        ensures
            d@ == self@,
    {
        BackendContainerDescription { id: self.id, path: self.path.clone() }
    }
}

/// The in-memory catalog.
#[derive(Debug)]
pub struct PersistentState {
    pub containers: Vec<BackendContainerDescription>,
    pub last_selected_container_dir: Option<String>,
    pub recent_protocols: Vec<String>,
    pub archived_protocols: Vec<String>,
}

/// The mathematical content of a catalog.
#[verifier::ext_equal]
pub struct CatalogModel {
    pub containers: Seq<DescModel>,
    pub last_selected_container_dir: Option<Seq<char>>,
    pub recent_protocols: Seq<Seq<char>>,
    pub archived_protocols: Seq<Seq<char>>,
}

impl View for PersistentState {
    type V = CatalogModel;

    open spec fn view(&self) -> CatalogModel {
        CatalogModel {
            containers: self.containers.deep_view(),
            last_selected_container_dir: match self.last_selected_container_dir {
                Some(ref p) => Some(p@),
                None => None,
            },
            recent_protocols: self.recent_protocols.deep_view(),
            archived_protocols: self.archived_protocols.deep_view(),
        }
    }
}

/// The deserialized shape of the on-disk document: every field
/// optional, and the legacy path-only `containers` list tolerated
/// beside the current `containersv2`.
#[derive(Debug)]
pub struct PersistentStateDeserialzed {
    pub containers: Option<Vec<String>>,
    pub containersv2: Option<Vec<BackendContainerDescription>>,
    pub last_selected_container_dir: Option<String>,
    pub recent_protocols: Option<Vec<String>>,
    pub archived_protocols: Option<Vec<String>>,
}

/// The mathematical content of the document.
#[verifier::ext_equal]
pub struct DocModel {
    pub containers: Option<Seq<Seq<char>>>,
    pub containersv2: Option<Seq<DescModel>>,
    pub last_selected_container_dir: Option<Seq<char>>,
    pub recent_protocols: Option<Seq<Seq<char>>>,
    pub archived_protocols: Option<Seq<Seq<char>>>,
}

impl View for PersistentStateDeserialzed {
    type V = DocModel;

    open spec fn view(&self) -> DocModel {
        DocModel {
            containers: match self.containers {
                Some(ref v) => Some(v.deep_view()),
                None => None,
            },
            containersv2: match self.containersv2 {
                Some(ref v) => Some(v.deep_view()),
                None => None,
            },
            last_selected_container_dir: match self.last_selected_container_dir {
                Some(ref p) => Some(p@),
                None => None,
            },
            recent_protocols: match self.recent_protocols {
                Some(ref v) => Some(v.deep_view()),
                None => None,
            },
            archived_protocols: match self.archived_protocols {
                Some(ref v) => Some(v.deep_view()),
                None => None,
            },
        }
    }
}

// ---------------------------------------------------------------------
// Sorted descriptor lists
// ---------------------------------------------------------------------

/// Descriptors in strictly ascending path order; paths are then
/// necessarily unique.
pub open spec fn desc_sorted(s: Seq<DescModel>) -> bool {
    forall|i: int, j: int| 0 <= i < j < s.len() ==> str_lt(s[i].path, s[j].path)
}

/// Some descriptor carries the path.
pub open spec fn has_path(s: Seq<DescModel>, p: Seq<char>) -> bool {
    exists|i: int| 0 <= i < s.len() && s[i].path == p
}

/// A descriptor placed into a sorted list: at its path position, with
/// an already-present descriptor of the same path left in place and
/// the newcomer dropped.
pub open spec fn insert_desc(d: DescModel, s: Seq<DescModel>) -> Seq<DescModel>
    decreases s.len(),
{
    if s.len() == 0 {
        seq![d]
    } else if d.path == s[0].path {
        s
    } else if str_lt(d.path, s[0].path) {
        seq![d].add(s)
    } else {
        seq![s[0]].add(insert_desc(d, s.drop_first()))
    }
}

/// A descriptor list brought into sorted order, duplicates by path
/// dropped keeping the earliest entry.
pub open spec fn sort_descs(s: Seq<DescModel>) -> Seq<DescModel>
    decreases s.len(),
{
    if s.len() == 0 {
        seq![]
    } else {
        insert_desc(s.last(), sort_descs(s.drop_last()))
    }
}

pub proof fn lemma_insert_desc(d: DescModel, s: Seq<DescModel>)
    requires
        desc_sorted(s),
    ensures
        desc_sorted(insert_desc(d, s)),
        forall|p: Seq<char>|
            #[trigger] has_path(insert_desc(d, s), p) <==> has_path(s, p) || p == d.path,
        forall|e: DescModel| s.contains(e) ==> #[trigger] insert_desc(d, s).contains(e),
        forall|e: DescModel|
            #[trigger] insert_desc(d, s).contains(e) ==> s.contains(e) || e == d,
        !has_path(s, d.path) ==> insert_desc(d, s).contains(d),
        has_path(s, d.path) ==> insert_desc(d, s) == s,
    decreases s.len(),
{
    let r = insert_desc(d, s);
    if s.len() == 0 {
        assert forall|p: Seq<char>| #[trigger] has_path(r, p) implies p == d.path by {
            let i = choose|i: int| 0 <= i < r.len() && r[i].path == p;
            assert(r[0] == d);
        }
        assert(r.contains(d)) by {
            assert(r[0] == d);
        }
        assert(!has_path(s, d.path));
    } else if d.path == s[0].path {
        assert(has_path(s, d.path)) by {
            assert(s[0].path == d.path);
        }
    } else if str_lt(d.path, s[0].path) {
        assert(r == seq![d].add(s));
        assert(desc_sorted(r)) by {
            assert forall|i: int, j: int| 0 <= i < j < r.len() implies str_lt(
                r[i].path,
                r[j].path,
            ) by {
                if i == 0 {
                    assert(r[0] == d);
                    assert(r[j] == s[j - 1]);
                    if j > 1 {
                        lemma_str_lt_trans(d.path, s[0].path, s[j - 1].path);
                    }
                } else {
                    assert(r[i] == s[i - 1]);
                    assert(r[j] == s[j - 1]);
                }
            }
        }
        assert forall|p: Seq<char>| #[trigger] has_path(r, p) implies has_path(s, p) || p
            == d.path by {
            let i = choose|i: int| 0 <= i < r.len() && r[i].path == p;
            if i > 0 {
                assert(r[i] == s[i - 1]);
                assert(has_path(s, p)) by {
                    assert(s[i - 1].path == p);
                }
            }
        }
        assert forall|p: Seq<char>| has_path(s, p) || p == d.path implies #[trigger] has_path(
            r,
            p,
        ) by {
            if has_path(s, p) {
                let i = choose|i: int| 0 <= i < s.len() && s[i].path == p;
                assert(r[i + 1] == s[i]);
                assert(r[i + 1].path == p);
            } else {
                assert(r[0].path == p);
            }
        }
        assert forall|e: DescModel| s.contains(e) implies #[trigger] r.contains(e) by {
            let i = choose|i: int| 0 <= i < s.len() && s[i] == e;
            assert(r[i + 1] == e);
        }
        assert forall|e: DescModel| #[trigger] r.contains(e) implies s.contains(e) || e == d by {
            let i = choose|i: int| 0 <= i < r.len() && r[i] == e;
            if i > 0 {
                assert(s[i - 1] == e);
            }
        }
        assert(r.contains(d)) by {
            assert(r[0] == d);
        }
        assert(!has_path(s, d.path)) by {
            if has_path(s, d.path) {
                let i = choose|i: int| 0 <= i < s.len() && s[i].path == d.path;
                if i == 0 {
                } else {
                    assert(str_lt(s[0].path, s[i].path));
                    lemma_str_lt_trans(d.path, s[0].path, s[i].path);
                    lemma_str_lt_irrefl(d.path);
                }
            }
        }
    } else {
        let tail = s.drop_first();
        assert(desc_sorted(tail)) by {
            assert forall|i: int, j: int| 0 <= i < j < tail.len() implies str_lt(
                tail[i].path,
                tail[j].path,
            ) by {
                assert(tail[i] == s[i + 1]);
                assert(tail[j] == s[j + 1]);
            }
        }
        lemma_insert_desc(d, tail);
        let rt = insert_desc(d, tail);
        assert(r == seq![s[0]].add(rt));
        lemma_str_lt_connex(d.path, s[0].path);
        assert(str_lt(s[0].path, d.path));
        assert(desc_sorted(r)) by {
            assert forall|i: int, j: int| 0 <= i < j < r.len() implies str_lt(
                r[i].path,
                r[j].path,
            ) by {
                if i == 0 {
                    assert(r[j] == rt[j - 1]);
                    assert(rt.contains(rt[j - 1]));
                    if tail.contains(rt[j - 1]) {
                        let k = choose|k: int| 0 <= k < tail.len() && tail[k] == rt[j - 1];
                        assert(tail[k] == s[k + 1]);
                        assert(str_lt(s[0].path, s[k + 1].path));
                    } else {
                        assert(rt[j - 1] == d);
                    }
                } else {
                    assert(r[i] == rt[i - 1]);
                    assert(r[j] == rt[j - 1]);
                }
            }
        }
        assert forall|p: Seq<char>| #[trigger] has_path(r, p) implies has_path(s, p) || p
            == d.path by {
            let i = choose|i: int| 0 <= i < r.len() && r[i].path == p;
            if i == 0 {
                assert(s[0].path == p);
            } else {
                assert(r[i] == rt[i - 1]);
                assert(has_path(rt, p)) by {
                    assert(rt[i - 1].path == p);
                }
                if has_path(tail, p) {
                    let k = choose|k: int| 0 <= k < tail.len() && tail[k].path == p;
                    assert(s[k + 1].path == p);
                }
            }
        }
        assert forall|p: Seq<char>| has_path(s, p) || p == d.path implies #[trigger] has_path(
            r,
            p,
        ) by {
            if has_path(s, p) {
                let i = choose|i: int| 0 <= i < s.len() && s[i].path == p;
                if i == 0 {
                    assert(r[0].path == p);
                } else {
                    assert(tail[i - 1].path == p);
                    assert(has_path(tail, p));
                    assert(has_path(rt, p));
                    let k = choose|k: int| 0 <= k < rt.len() && rt[k].path == p;
                    assert(r[k + 1].path == p);
                }
            } else {
                assert(has_path(rt, p));
                let k = choose|k: int| 0 <= k < rt.len() && rt[k].path == p;
                assert(r[k + 1].path == p);
            }
        }
        assert forall|e: DescModel| s.contains(e) implies #[trigger] r.contains(e) by {
            let i = choose|i: int| 0 <= i < s.len() && s[i] == e;
            if i == 0 {
                assert(r[0] == e);
            } else {
                assert(tail[i - 1] == e);
                assert(tail.contains(e));
                assert(rt.contains(e));
                let k = choose|k: int| 0 <= k < rt.len() && rt[k] == e;
                assert(r[k + 1] == e);
            }
        }
        assert forall|e: DescModel| #[trigger] r.contains(e) implies s.contains(e) || e == d by {
            let i = choose|i: int| 0 <= i < r.len() && r[i] == e;
            if i == 0 {
                assert(s[0] == e);
            } else {
                assert(rt[i - 1] == e);
                assert(rt.contains(e));
                if tail.contains(e) {
                    let k = choose|k: int| 0 <= k < tail.len() && tail[k] == e;
                    assert(s[k + 1] == e);
                }
            }
        }
        if !has_path(s, d.path) {
            assert(!has_path(tail, d.path)) by {
                if has_path(tail, d.path) {
                    let k = choose|k: int| 0 <= k < tail.len() && tail[k].path == d.path;
                    assert(s[k + 1].path == d.path);
                }
            }
            assert(rt.contains(d));
            let k = choose|k: int| 0 <= k < rt.len() && rt[k] == d;
            assert(r.contains(d)) by {
                assert(r[k + 1] == d);
            }
        }
        if has_path(s, d.path) {
            assert(has_path(tail, d.path)) by {
                let i = choose|i: int| 0 <= i < s.len() && s[i].path == d.path;
                assert(i != 0);
                assert(tail[i - 1].path == d.path);
            }
            assert(rt == tail);
            assert(r =~= s);
        }
    }
}

/// Inserting a descriptor whose path lies beyond every present path
/// appends it.
pub proof fn lemma_insert_desc_at_end(d: DescModel, s: Seq<DescModel>)
    requires
        desc_sorted(s),
        forall|i: int| 0 <= i < s.len() ==> str_lt((#[trigger] s[i]).path, d.path),
    ensures
        insert_desc(d, s) == s.push(d),
    decreases s.len(),
{
    if s.len() == 0 {
        assert(insert_desc(d, s) =~= s.push(d));
    } else {
        assert(s[0].path != d.path) by {
            lemma_str_lt_irrefl(d.path);
            if s[0].path == d.path {
                assert(str_lt(s[0].path, d.path));
            }
        }
        assert(!str_lt(d.path, s[0].path)) by {
            if str_lt(d.path, s[0].path) {
                lemma_str_lt_trans(d.path, s[0].path, d.path);
                lemma_str_lt_irrefl(d.path);
            }
        }
        let tail = s.drop_first();
        assert(desc_sorted(tail)) by {
            assert forall|i: int, j: int| 0 <= i < j < tail.len() implies str_lt(
                tail[i].path,
                tail[j].path,
            ) by {
                assert(tail[i] == s[i + 1]);
                assert(tail[j] == s[j + 1]);
            }
        }
        assert(forall|i: int| 0 <= i < tail.len() ==> (#[trigger] tail[i]) == s[i + 1]);
        lemma_insert_desc_at_end(d, tail);
        assert(insert_desc(d, s) =~= s.push(d));
    }
}

/// Sorting an already sorted list changes nothing.
pub proof fn lemma_sort_descs_sorted_id(s: Seq<DescModel>)
    requires
        desc_sorted(s),
    ensures
        sort_descs(s) == s,
    decreases s.len(),
{
    if s.len() > 0 {
        let pre = s.drop_last();
        assert(desc_sorted(pre)) by {
            assert(forall|i: int| 0 <= i < pre.len() ==> (#[trigger] pre[i]) == s[i]);
        }
        lemma_sort_descs_sorted_id(pre);
        assert(forall|i: int| 0 <= i < pre.len() ==> str_lt((#[trigger] pre[i]).path, s.last().path));
        lemma_insert_desc_at_end(s.last(), pre);
        assert(pre.push(s.last()) =~= s);
    }
}

/// Sorting yields a sorted list holding exactly the input's paths.
pub proof fn lemma_sort_descs(s: Seq<DescModel>)
    ensures
        desc_sorted(sort_descs(s)),
        forall|p: Seq<char>|
            #[trigger] has_path(sort_descs(s), p) <==> has_path(s, p),
    decreases s.len(),
{
    if s.len() == 0 {
        assert forall|p: Seq<char>| !has_path(sort_descs(s), p) && !has_path(s, p) by {}
    } else {
        let pre = s.drop_last();
        lemma_sort_descs(pre);
        lemma_insert_desc(s.last(), sort_descs(pre));
        assert forall|p: Seq<char>| #[trigger] has_path(sort_descs(s), p) <==> has_path(s, p) by {
            if has_path(sort_descs(s), p) {
                if has_path(pre, p) {
                    let i = choose|i: int| 0 <= i < pre.len() && pre[i].path == p;
                    assert(s[i].path == p);
                } else {
                    assert(p == s.last().path);
                    assert(s[s.len() - 1].path == p);
                }
            }
            if has_path(s, p) {
                let i = choose|i: int| 0 <= i < s.len() && s[i].path == p;
                if i < s.len() - 1 {
                    assert(pre[i].path == p);
                    assert(has_path(pre, p));
                }
            }
        }
    }
}


// ---------------------------------------------------------------------
// Legacy merge
// ---------------------------------------------------------------------

/// Legacy path-only entries folded into a sorted descriptor list: each
/// path that has no descriptor yet gets the next fresh identifier and
/// is placed at its sorted position; paths already present, and
/// repeated legacy paths, are dropped.
pub open spec fn merge_legacy(
    base: Seq<DescModel>,
    legacy: Seq<Seq<char>>,
    ids: Seq<u128>,
) -> Seq<DescModel>
    decreases legacy.len(),
{
    if legacy.len() == 0 {
        base
    } else if has_path(base, legacy[0]) {
        merge_legacy(base, legacy.drop_first(), ids)
    } else {
        merge_legacy(
            insert_desc(DescModel { id: ids[0], path: legacy[0] }, base),
            legacy.drop_first(),
            ids.drop_first(),
        )
    }
}

pub proof fn lemma_merge_legacy(base: Seq<DescModel>, legacy: Seq<Seq<char>>, ids: Seq<u128>)
    requires
        desc_sorted(base),
        ids.len() >= legacy.len(),
    ensures
        desc_sorted(merge_legacy(base, legacy, ids)),
        forall|p: Seq<char>|
            #[trigger] has_path(merge_legacy(base, legacy, ids), p) <==> has_path(base, p)
                || legacy.contains(p),
        forall|e: DescModel|
            base.contains(e) ==> #[trigger] merge_legacy(base, legacy, ids).contains(e),
        forall|e: DescModel|
            #[trigger] merge_legacy(base, legacy, ids).contains(e) ==> base.contains(e) || (
            legacy.contains(e.path) && exists|m: int| 0 <= m < ids.len() && e.id == ids[m]),
    decreases legacy.len(),
{
    let r = merge_legacy(base, legacy, ids);
    if legacy.len() == 0 {
    } else if has_path(base, legacy[0]) {
        lemma_merge_legacy(base, legacy.drop_first(), ids);
        assert forall|p: Seq<char>| #[trigger] has_path(r, p) <==> has_path(base, p)
            || legacy.contains(p) by {
            if has_path(r, p) {
                if legacy.drop_first().contains(p) {
                    let k = choose|k: int|
                        0 <= k < legacy.drop_first().len() && legacy.drop_first()[k] == p;
                    assert(legacy[k + 1] == p);
                }
            }
            if legacy.contains(p) {
                let k = choose|k: int| 0 <= k < legacy.len() && legacy[k] == p;
                if k == 0 {
                    assert(has_path(base, p));
                } else {
                    assert(legacy.drop_first()[k - 1] == p);
                    assert(legacy.drop_first().contains(p));
                }
            }
        }
        assert forall|e: DescModel| #[trigger] r.contains(e) implies base.contains(e) || (
        legacy.contains(e.path) && exists|m: int| 0 <= m < ids.len() && e.id == ids[m]) by {
            if !base.contains(e) {
                assert(legacy.drop_first().contains(e.path));
                let k = choose|k: int|
                    0 <= k < legacy.drop_first().len() && legacy.drop_first()[k] == e.path;
                assert(legacy[k + 1] == e.path);
            }
        }
    } else {
        let d = DescModel { id: ids[0], path: legacy[0] };
        lemma_insert_desc(d, base);
        let base1 = insert_desc(d, base);
        lemma_merge_legacy(base1, legacy.drop_first(), ids.drop_first());
        assert forall|p: Seq<char>| #[trigger] has_path(r, p) <==> has_path(base, p)
            || legacy.contains(p) by {
            if has_path(r, p) {
                if has_path(base1, p) {
                    if !has_path(base, p) {
                        assert(p == d.path);
                        assert(legacy[0] == p);
                    }
                } else {
                    assert(legacy.drop_first().contains(p));
                    let k = choose|k: int|
                        0 <= k < legacy.drop_first().len() && legacy.drop_first()[k] == p;
                    assert(legacy[k + 1] == p);
                }
            }
            if has_path(base, p) || legacy.contains(p) {
                if has_path(base, p) {
                    assert(has_path(base1, p));
                } else {
                    let k = choose|k: int| 0 <= k < legacy.len() && legacy[k] == p;
                    if k == 0 {
                        assert(has_path(base1, p));
                    } else {
                        assert(legacy.drop_first()[k - 1] == p);
                        assert(legacy.drop_first().contains(p));
                    }
                }
            }
        }
        assert forall|e: DescModel| base.contains(e) implies #[trigger] r.contains(e) by {
            assert(base1.contains(e));
        }
        assert forall|e: DescModel| #[trigger] r.contains(e) implies base.contains(e) || (
        legacy.contains(e.path) && exists|m: int| 0 <= m < ids.len() && e.id == ids[m]) by {
            if base1.contains(e) {
                if !base.contains(e) {
                    assert(e == d);
                    assert(legacy[0] == e.path);
                    assert(ids[0] == e.id);
                }
            } else {
                assert(legacy.drop_first().contains(e.path) && exists|m: int|
                    0 <= m < ids.drop_first().len() && e.id == ids.drop_first()[m]);
                let k = choose|k: int|
                    0 <= k < legacy.drop_first().len() && legacy.drop_first()[k] == e.path;
                assert(legacy[k + 1] == e.path);
                let m = choose|m: int|
                    0 <= m < ids.drop_first().len() && e.id == ids.drop_first()[m];
                assert(ids[m + 1] == e.id);
            }
        }
    }
}

// ---------------------------------------------------------------------
// Loading and saving
// ---------------------------------------------------------------------

/// A catalog is valid when its descriptors stand in strictly ascending
/// path order; no two descriptors then share a path.
pub open spec fn catalog_wf(c: CatalogModel) -> bool {
    desc_sorted(c.containers)
}

/// What loading a document yields: the current-shape descriptors
/// brought into sorted order, the legacy paths merged in with fresh
/// identifiers drawn from `fresh_ids` in order, absent optional fields
/// as empty.
pub open spec fn spec_load(doc: DocModel, fresh_ids: Seq<u128>) -> CatalogModel {
    let v2 = match doc.containersv2 {
        Some(v) => v,
        None => seq![],
    };
    let legacy = match doc.containers {
        Some(v) => v,
        None => seq![],
    };
    CatalogModel {
        containers: merge_legacy(sort_descs(v2), legacy, fresh_ids),
        last_selected_container_dir: doc.last_selected_container_dir,
        recent_protocols: match doc.recent_protocols {
            Some(v) => v,
            None => seq![],
        },
        archived_protocols: match doc.archived_protocols {
            Some(v) => v,
            None => seq![],
        },
    }
}

/// What saving a catalog writes: always the current shape, never the
/// legacy list.
pub open spec fn spec_save(c: CatalogModel) -> DocModel {
    DocModel {
        containers: None,
        containersv2: Some(c.containers),
        last_selected_container_dir: c.last_selected_container_dir,
        recent_protocols: Some(c.recent_protocols),
        archived_protocols: Some(c.archived_protocols),
    }
}

/// A document holding only the legacy path-only container list.
pub open spec fn legacy_only_doc(ps: Seq<Seq<char>>) -> DocModel {
    DocModel {
        containers: Some(ps),
        containersv2: None,
        last_selected_container_dir: None,
        recent_protocols: None,
        archived_protocols: None,
    }
}

/// Catalog round trip: saving a valid catalog and loading the document
/// back yields that catalog again, whatever identifiers the loader had
/// on hand — none are consumed.
pub proof fn lemma_catalog_round_trip(c: CatalogModel, ids: Seq<u128>)
    requires
        catalog_wf(c),
    ensures
        spec_load(spec_save(c), ids) == c,
{
    lemma_sort_descs_sorted_id(c.containers);
    assert(spec_load(spec_save(c), ids) =~= c);
}

/// Legacy merge: loading a document holding only the legacy path-only
/// list yields a valid catalog with exactly one descriptor per listed
/// path, every identifier freshly drawn from the supply; saving and
/// loading again reproduces those identifiers.
pub proof fn lemma_catalog_legacy_merge(ps: Seq<Seq<char>>, ids: Seq<u128>, ids2: Seq<u128>)
    requires
        ids.len() >= ps.len(),
    ensures
        catalog_wf(spec_load(legacy_only_doc(ps), ids)),
        forall|p: Seq<char>|
            #[trigger] has_path(spec_load(legacy_only_doc(ps), ids).containers, p) <==> ps.contains(
                p,
            ),
        forall|i: int, j: int|
            0 <= i < j < spec_load(legacy_only_doc(ps), ids).containers.len() ==> spec_load(
                legacy_only_doc(ps),
                ids,
            ).containers[i].path != spec_load(legacy_only_doc(ps), ids).containers[j].path,
        forall|e: DescModel|
            #[trigger] spec_load(legacy_only_doc(ps), ids).containers.contains(e) ==> ps.contains(
                e.path,
            ) && exists|m: int| 0 <= m < ids.len() && e.id == ids[m],
        spec_load(spec_save(spec_load(legacy_only_doc(ps), ids)), ids2) == spec_load(
            legacy_only_doc(ps),
            ids,
        ),
{
    let c = spec_load(legacy_only_doc(ps), ids);
    assert(sort_descs(seq![]) =~= Seq::<DescModel>::empty());
    lemma_merge_legacy(Seq::<DescModel>::empty(), ps, ids);
    assert(c.containers == merge_legacy(Seq::<DescModel>::empty(), ps, ids));
    assert forall|i: int, j: int|
        0 <= i < j < c.containers.len() implies c.containers[i].path != c.containers[j].path by {
        assert(str_lt(c.containers[i].path, c.containers[j].path));
        if c.containers[i].path == c.containers[j].path {
            lemma_str_lt_irrefl(c.containers[i].path);
        }
    }
    assert forall|e: DescModel| #[trigger] c.containers.contains(e) implies ps.contains(e.path)
        && exists|m: int| 0 <= m < ids.len() && e.id == ids[m] by {
        assert(!Seq::<DescModel>::empty().contains(e));
    }
    lemma_catalog_round_trip(c, ids2);
}

// ---------------------------------------------------------------------
// Executable loading, saving, updating
// ---------------------------------------------------------------------

/// Whether some descriptor carries the path.
pub fn has_path_exec(v: &Vec<BackendContainerDescription>, p: &String) -> (r: bool)
    ensures
        r == has_path(v.deep_view(), p@),
{
    let n = v.len();
    let mut i: usize = 0;
    while i < n
        invariant
            i <= n,
            n == v.deep_view().len(),
            forall|j: int| 0 <= j < i ==> (#[trigger] v.deep_view()[j]).path != p@,
        decreases n - i,
    {
        if str_eq(&v[i].path, p) {
            proof {
                assert(v.deep_view()[i as int].path == p@);
            }
            return true;
        }
        i += 1;
    }
    false
}

/// Where a descriptor belongs in a sorted list, and what insertion
/// yields there.
proof fn lemma_insert_desc_split(d: DescModel, s: Seq<DescModel>, k: int)
    requires
        0 <= k <= s.len(),
        forall|j: int|
            0 <= j < k ==> (#[trigger] s[j]).path != d.path && !str_lt(d.path, s[j].path),
        k < s.len() ==> (d.path == s[k].path || str_lt(d.path, s[k].path)),
    ensures
        k < s.len() && d.path == s[k].path ==> insert_desc(d, s) == s,
        !(k < s.len() && d.path == s[k].path) ==> insert_desc(d, s) == s.subrange(0, k).add(
            seq![d],
        ).add(s.subrange(k, s.len() as int)),
    decreases s.len(),
{
    if s.len() == 0 {
        assert(insert_desc(d, s) =~= s.subrange(0, 0).add(seq![d]).add(s.subrange(0, 0)));
    } else if k == 0 {
        if d.path == s[0].path {
        } else if str_lt(d.path, s[0].path) {
            assert(insert_desc(d, s) =~= s.subrange(0, 0).add(seq![d]).add(
                s.subrange(0, s.len() as int),
            ));
        } else {
        }
    } else {
        assert(s[0].path != d.path && !str_lt(d.path, s[0].path));
        let tail = s.drop_first();
        assert(forall|i: int| 0 <= i < tail.len() ==> (#[trigger] tail[i]) == s[i + 1]);
        lemma_insert_desc_split(d, tail, k - 1);
        if k < s.len() && d.path == s[k].path {
            assert(tail[k - 1] == s[k]);
            assert(insert_desc(d, tail) == tail);
            assert(insert_desc(d, s) =~= s);
        } else {
            assert(insert_desc(d, s) =~= s.subrange(0, k).add(seq![d]).add(
                s.subrange(k, s.len() as int),
            ));
        }
    }
}

/// The position a descriptor's path takes in the sorted list: the
/// first entry whose path is not below it.
fn find_insert_pos(d: &BackendContainerDescription, v: &Vec<BackendContainerDescription>) -> (k:
    usize)
    ensures
        k <= v.deep_view().len(),
        forall|j: int|
            0 <= j < k ==> (#[trigger] v.deep_view()[j]).path != d@.path && !str_lt(
                d@.path,
                v.deep_view()[j].path,
            ),
        k < v.deep_view().len() ==> (d@.path == v.deep_view()[k as int].path || str_lt(
            d@.path,
            v.deep_view()[k as int].path,
        )),
{
    let n = v.len();
    let mut k: usize = 0;
    while k < n
        invariant
            k <= n,
            n == v.deep_view().len(),
            forall|j: int|
                0 <= j < k ==> (#[trigger] v.deep_view()[j]).path != d@.path && !str_lt(
                    d@.path,
                    v.deep_view()[j].path,
                ),
        decreases n - k,
    {
        if str_eq(&v[k].path, &d.path) {
            return k;
        }
        if str_less(&d.path, &v[k].path) {
            return k;
        }
        k += 1;
    }
    k
}

/// A copy of part of a descriptor list.
fn clone_descs_range(v: &Vec<BackendContainerDescription>, from: usize, to: usize) -> (out: Vec<
    BackendContainerDescription,
>)
    requires
        from <= to <= v.deep_view().len(),
    ensures
        out.deep_view() == v.deep_view().subrange(from as int, to as int),
{
    let mut out: Vec<BackendContainerDescription> = Vec::new();
    let mut i: usize = from;
    proof {
        assert(out.deep_view() =~= v.deep_view().subrange(from as int, from as int));
    }
    while i < to
        invariant
            from <= i <= to <= v.deep_view().len(),
            out.deep_view() =~= v.deep_view().subrange(from as int, i as int),
        decreases to - i,
    {
        let ghost dv0 = out.deep_view();
        let e = v[i].duplicate();
        out.push(e);
        proof {
            assert(out.deep_view() =~= dv0.push(v.deep_view()[i as int]));
            assert(dv0.push(v.deep_view()[i as int]) =~= v.deep_view().subrange(
                from as int,
                i as int + 1,
            ));
        }
        i += 1;
    }
    out
}

/// A copy of a descriptor list.
pub fn clone_descs(v: &Vec<BackendContainerDescription>) -> (out: Vec<
    BackendContainerDescription,
>)
    ensures
        out.deep_view() == v.deep_view(),
{
    let out = clone_descs_range(v, 0, v.len());
    proof {
        assert(v.deep_view().subrange(0, v.deep_view().len() as int) =~= v.deep_view());
    }
    out
}

/// The descriptor placed into the sorted list, as `insert_desc` says.
pub fn insert_desc_exec(
    d: BackendContainerDescription,
    v: &Vec<BackendContainerDescription>,
) -> (out: Vec<BackendContainerDescription>)
    ensures
        out.deep_view() == insert_desc(d@, v.deep_view()),
{
    let n = v.len();
    let k = find_insert_pos(&d, v);
    proof {
        lemma_insert_desc_split(d@, v.deep_view(), k as int);
    }
    if k < n && str_eq(&v[k].path, &d.path) {
        clone_descs(v)
    } else {
        let mut out = clone_descs_range(v, 0, k);
        let ghost dv0 = out.deep_view();
        out.push(d);
        proof {
            assert(out.deep_view() =~= dv0.push(d@));
            assert(dv0.push(d@) =~= v.deep_view().subrange(0, k as int).add(seq![d@]));
        }
        let ghost mid = out.deep_view();
        let mut tail = clone_descs_range(v, k, n);
        let mut i: usize = 0;
        let nt = tail.len();
        proof {
            assert(tail.deep_view().subrange(0, 0) =~= Seq::<DescModel>::empty());
            assert(out.deep_view() =~= mid.add(tail.deep_view().subrange(0, 0)));
        }
        while i < nt
            invariant
                i <= nt,
                nt == tail.deep_view().len(),
                out.deep_view() =~= mid.add(tail.deep_view().subrange(0, i as int)),
            decreases nt - i,
        {
            let ghost dv1 = out.deep_view();
            let e = tail[i].duplicate();
            out.push(e);
            proof {
                assert(out.deep_view() =~= dv1.push(tail.deep_view()[i as int]));
                assert(dv1.push(tail.deep_view()[i as int]) =~= mid.add(
                    tail.deep_view().subrange(0, i as int + 1),
                ));
            }
            i += 1;
        }
        proof {
            assert(tail.deep_view().subrange(0, nt as int) =~= tail.deep_view());
            assert(out.deep_view() =~= v.deep_view().subrange(0, k as int).add(seq![d@]).add(
                v.deep_view().subrange(k as int, n as int),
            ));
        }
        out
    }
}

/// The list brought into sorted order, as `sort_descs` says.
pub fn sort_descs_exec(v: &Vec<BackendContainerDescription>) -> (out: Vec<
    BackendContainerDescription,
>)
    ensures
        out.deep_view() == sort_descs(v.deep_view()),
{
    let n = v.len();
    let mut out: Vec<BackendContainerDescription> = Vec::new();
    let mut i: usize = 0;
    proof {
        assert(v.deep_view().subrange(0, 0) =~= Seq::<DescModel>::empty());
    }
    while i < n
        invariant
            i <= n,
            n == v.deep_view().len(),
            out.deep_view() == sort_descs(v.deep_view().subrange(0, i as int)),
        decreases n - i,
    {
        let d = v[i].duplicate();
        let next = insert_desc_exec(d, &out);
        proof {
            let sub1 = v.deep_view().subrange(0, i as int + 1);
            assert(sub1.drop_last() =~= v.deep_view().subrange(0, i as int));
            assert(sub1.last() == v.deep_view()[i as int]);
        }
        out = next;
        i += 1;
    }
    proof {
        assert(v.deep_view().subrange(0, n as int) =~= v.deep_view());
    }
    out
}

impl PersistentState {
    /// The empty catalog, as a start with no persistent file yields it.
    pub fn empty() -> (out: PersistentState)
        ensures
            out@.containers == Seq::<DescModel>::empty(),
            out@.last_selected_container_dir is None,
            out@.recent_protocols == Seq::<Seq<char>>::empty(),
            out@.archived_protocols == Seq::<Seq<char>>::empty(),
            catalog_wf(out@),
    {
        let out = PersistentState {
            containers: Vec::new(),
            last_selected_container_dir: None,
            recent_protocols: Vec::new(),
            archived_protocols: Vec::new(),
        };
        proof {
            assert(out@.containers =~= Seq::<DescModel>::empty());
            assert(out@.recent_protocols =~= Seq::<Seq<char>>::empty());
            assert(out@.archived_protocols =~= Seq::<Seq<char>>::empty());
        }
        out
    }

    /// A deserialized document normalized into a catalog: the current
    /// shape taken over in sorted order, each legacy path without a
    /// descriptor given a freshly drawn identifier.
    pub fn from_document(doc: PersistentStateDeserialzed) -> (out: PersistentState)
        ensures
            exists|ids: Seq<u128>| out@ == spec_load(doc@, ids),
            catalog_wf(out@),
    {
        let ghost doc_view = doc@;
        let PersistentStateDeserialzed {
            containers,
            containersv2,
            last_selected_container_dir,
            recent_protocols,
            archived_protocols,
        } = doc;
        let v2: Vec<BackendContainerDescription> = match containersv2 {
            Some(v) => v,
            None => Vec::new(),
        };
        let legacy: Vec<String> = match containers {
            Some(v) => v,
            None => Vec::new(),
        };
        proof {
            assert(match doc_view.containersv2 {
                Some(v) => v,
                None => seq![],
            } =~= v2.deep_view());
            assert(match doc_view.containers {
                Some(v) => v,
                None => seq![],
            } =~= legacy.deep_view());
        }
        let mut base = sort_descs_exec(&v2);
        let ghost base0 = base.deep_view();
        let ghost legacy_view = legacy.deep_view();
        let ghost ids_done: Seq<u128> = Seq::empty();
        let mut ids_done_v: Ghost<Seq<u128>> = Ghost(ids_done);
        let n = legacy.len();
        let mut i: usize = 0;
        proof {
            assert(legacy_view.skip(0) =~= legacy_view);
            assert forall|fut: Seq<u128>|
                #[trigger] merge_legacy(base0, legacy_view, ids_done_v@.add(fut)) == merge_legacy(
                    base.deep_view(),
                    legacy_view.skip(0),
                    fut,
                ) by {
                assert(ids_done_v@.add(fut) =~= fut);
            }
        }
        while i < n
            invariant
                i <= n,
                n == legacy_view.len(),
                legacy.deep_view() == legacy_view,
                forall|fut: Seq<u128>|
                    #[trigger] merge_legacy(base0, legacy_view, ids_done_v@.add(fut))
                        == merge_legacy(base.deep_view(), legacy_view.skip(i as int), fut),
            decreases n - i,
        {
            let ghost pre = base.deep_view();
            let ghost pre_ids = ids_done_v@;
            let p = clone_string(&legacy[i]);
            if !has_path_exec(&base, &p) {
                let d = BackendContainerDescription::from_path(p);
                let ghost did = d@.id;
                let next = insert_desc_exec(d, &base);
                base = next;
                ids_done_v = Ghost(pre_ids.push(did));
                proof {
                    assert forall|fut: Seq<u128>|
                        #[trigger] merge_legacy(base0, legacy_view, ids_done_v@.add(fut))
                            == merge_legacy(
                            base.deep_view(),
                            legacy_view.skip(i as int + 1),
                            fut,
                        ) by {
                        let withid = seq![did].add(fut);
                        assert(merge_legacy(base0, legacy_view, pre_ids.add(withid))
                            == merge_legacy(pre, legacy_view.skip(i as int), withid));
                        assert(pre_ids.add(withid) =~= ids_done_v@.add(fut));
                        let rem = legacy_view.skip(i as int);
                        assert(rem[0] == legacy_view[i as int]);
                        assert(rem.drop_first() =~= legacy_view.skip(i as int + 1));
                        assert(!has_path(pre, rem[0]));
                        assert(withid[0] == did);
                        assert(withid.drop_first() =~= fut);
                        assert(merge_legacy(pre, rem, withid) == merge_legacy(
                            insert_desc(DescModel { id: did, path: rem[0] }, pre),
                            rem.drop_first(),
                            fut,
                        ));
                        assert(base.deep_view() == insert_desc(
                            DescModel { id: did, path: legacy_view[i as int] },
                            pre,
                        ));
                    }
                }
            } else {
                proof {
                    assert forall|fut: Seq<u128>|
                        #[trigger] merge_legacy(base0, legacy_view, ids_done_v@.add(fut))
                            == merge_legacy(
                            base.deep_view(),
                            legacy_view.skip(i as int + 1),
                            fut,
                        ) by {
                        let rem = legacy_view.skip(i as int);
                        assert(rem[0] == legacy_view[i as int]);
                        assert(rem.drop_first() =~= legacy_view.skip(i as int + 1));
                        assert(has_path(pre, rem[0]));
                        assert(merge_legacy(base0, legacy_view, ids_done_v@.add(fut))
                            == merge_legacy(pre, rem, fut));
                    }
                }
            }
            i += 1;
        }
        let out = PersistentState {
            containers: base,
            last_selected_container_dir,
            recent_protocols: match recent_protocols {
                Some(v) => v,
                None => Vec::new(),
            },
            archived_protocols: match archived_protocols {
                Some(v) => v,
                None => Vec::new(),
            },
        };
        proof {
            let ids = ids_done_v@;
            assert(ids.add(Seq::<u128>::empty()) =~= ids);
            assert(legacy_view.skip(n as int).len() == 0);
            assert(merge_legacy(out.containers.deep_view(), legacy_view.skip(n as int), Seq::<
                u128,
            >::empty()) == out.containers.deep_view());
            assert(merge_legacy(base0, legacy_view, ids) == out.containers.deep_view());
            assert(out@ =~= spec_load(doc_view, ids)) by {
                assert(match doc_view.recent_protocols {
                    Some(v) => v,
                    None => seq![],
                } =~= out@.recent_protocols);
                assert(match doc_view.archived_protocols {
                    Some(v) => v,
                    None => seq![],
                } =~= out@.archived_protocols);
            }
            assert(catalog_wf(out@)) by {
                lemma_sort_descs(v2.deep_view());
                lemma_merge_legacy(base0, legacy_view, ids.add(legacy_view.map_values(|p| 0u128)));
                assert(merge_legacy(base0, legacy_view, ids) == merge_legacy(
                    base.deep_view(),
                    legacy_view.skip(n as int),
                    Seq::<u128>::empty(),
                ));
            }
        }
        out
    }

    /// A copy of the catalog, equal in content.
    pub fn duplicate(&self) -> (out: PersistentState)
        ensures
            out@ == self@,
    {
        let out = PersistentState {
            containers: clone_descs(&self.containers),
            last_selected_container_dir: match self.last_selected_container_dir {
                Some(ref p) => Some(clone_string(p)),
                None => None,
            },
            recent_protocols: clone_strings(&self.recent_protocols),
            archived_protocols: clone_strings(&self.archived_protocols),
        };
        proof {
            assert(out@ =~= self@);
        }
        out
    }

    /// The catalog as a document in the current shape, ready to be
    /// serialized: never the legacy list, every optional field present.
    pub fn save_document(&self) -> (doc: PersistentStateDeserialzed)
        ensures
            doc@ == spec_save(self@),
    {
        let cs = clone_descs(&self.containers);
        let doc = PersistentStateDeserialzed {
            containers: None,
            containersv2: Some(cs),
            last_selected_container_dir: match self.last_selected_container_dir {
                Some(ref p) => Some(clone_string(p)),
                None => None,
            },
            recent_protocols: Some(clone_strings(&self.recent_protocols)),
            archived_protocols: Some(clone_strings(&self.archived_protocols)),
        };
        proof {
            assert(doc@ =~= spec_save(self@));
        }
        doc
    }
}

/// Where the catalog file lives: the configuration file's name under
/// the persistence directory, or nowhere when no directory could be
/// resolved.
pub fn config_path(exe_dir: Option<String>) -> (out: Option<String>)
    ensures
        exe_dir matches Some(d) ==> out matches Some(p) && p@ == d@.add(
            "/colony_launcher_configuration.json"@,
        ),
        exe_dir is None ==> out is None,
{
    match exe_dir {
        Some(d) => {
            let mut p = d;
            vstd::string::StringExecFns::append(&mut p, "/colony_launcher_configuration.json");
            Some(p)
        },
        None => None,
    }
}

/// A copy of a list of strings.
pub fn clone_strings(v: &Vec<String>) -> (out: Vec<String>)
    ensures
        out.deep_view() == v.deep_view(),
{
    let n = v.len();
    let mut out: Vec<String> = Vec::new();
    let mut i: usize = 0;
    proof {
        assert(out.deep_view() =~= v.deep_view().subrange(0, 0));
    }
    while i < n
        invariant
            i <= n,
            n == v.deep_view().len(),
            out.deep_view() =~= v.deep_view().subrange(0, i as int),
        decreases n - i,
    {
        let ghost dv0 = out.deep_view();
        let e = clone_string(&v[i]);
        out.push(e);
        proof {
            assert(out.deep_view() =~= dv0.push(v.deep_view()[i as int]));
            assert(dv0.push(v.deep_view()[i as int]) =~= v.deep_view().subrange(0, i as int + 1));
        }
        i += 1;
    }
    proof {
        assert(v.deep_view().subrange(0, n as int) =~= v.deep_view());
    }
    out
}


// ---------------------------------------------------------------------
// Updates
// ---------------------------------------------------------------------

/// An update to the persistent catalog, as the front-end requests it.
#[derive(Debug)]
pub enum PersistentStateUpdate {
    AddContainer(String),
    RemoveContainerByPath(String),
    RemoveContainer(u128),
    SetlastSelectedContainerDir(Option<String>),
}

/// The list without the descriptors bearing the path.
pub open spec fn remove_desc_by_path(s: Seq<DescModel>, p: Seq<char>) -> Seq<DescModel>
    decreases s.len(),
{
    if s.len() == 0 {
        seq![]
    } else if s[0].path == p {
        remove_desc_by_path(s.drop_first(), p)
    } else {
        seq![s[0]].add(remove_desc_by_path(s.drop_first(), p))
    }
}

/// The list without the descriptors bearing the identifier.
pub open spec fn remove_desc_by_id(s: Seq<DescModel>, id: u128) -> Seq<DescModel>
    decreases s.len(),
{
    if s.len() == 0 {
        seq![]
    } else if s[0].id == id {
        remove_desc_by_id(s.drop_first(), id)
    } else {
        seq![s[0]].add(remove_desc_by_id(s.drop_first(), id))
    }
}

/// Removal keeps exactly the other descriptors, in order; a sorted
/// list stays sorted.
pub proof fn lemma_remove_desc_by_path(s: Seq<DescModel>, p: Seq<char>)
    requires
        desc_sorted(s),
    ensures
        desc_sorted(remove_desc_by_path(s, p)),
        forall|e: DescModel|
            #[trigger] remove_desc_by_path(s, p).contains(e) <==> s.contains(e) && e.path != p,
        !has_path(remove_desc_by_path(s, p), p),
    decreases s.len(),
{
    let r = remove_desc_by_path(s, p);
    if s.len() == 0 {
        assert forall|e: DescModel| !r.contains(e) && !s.contains(e) by {}
        assert(!has_path(r, p)) by {
            if has_path(r, p) {
                let i = choose|i: int| 0 <= i < r.len() && r[i].path == p;
            }
        }
    } else {
        let tail = s.drop_first();
        assert(desc_sorted(tail)) by {
            assert(forall|i: int| 0 <= i < tail.len() ==> (#[trigger] tail[i]) == s[i + 1]);
        }
        lemma_remove_desc_by_path(tail, p);
        let rt = remove_desc_by_path(tail, p);
        assert forall|e: DescModel| tail.contains(e) implies s.contains(e) by {
            let i = choose|i: int| 0 <= i < tail.len() && tail[i] == e;
            assert(s[i + 1] == e);
        }
        if s[0].path == p {
            assert forall|e: DescModel| #[trigger] r.contains(e) <==> s.contains(e) && e.path
                != p by {
                if s.contains(e) && e.path != p {
                    let i = choose|i: int| 0 <= i < s.len() && s[i] == e;
                    assert(i != 0);
                    assert(tail[i - 1] == e);
                    assert(tail.contains(e));
                }
            }
        } else {
            assert(r == seq![s[0]].add(rt));
            assert forall|e: DescModel| #[trigger] r.contains(e) <==> s.contains(e) && e.path
                != p by {
                if r.contains(e) {
                    let i = choose|i: int| 0 <= i < r.len() && r[i] == e;
                    if i == 0 {
                        assert(s[0] == e);
                    } else {
                        assert(rt[i - 1] == e);
                        assert(rt.contains(e));
                    }
                }
                if s.contains(e) && e.path != p {
                    let i = choose|i: int| 0 <= i < s.len() && s[i] == e;
                    if i == 0 {
                        assert(r[0] == e);
                    } else {
                        assert(tail[i - 1] == e);
                        assert(tail.contains(e));
                        assert(rt.contains(e));
                        let k = choose|k: int| 0 <= k < rt.len() && rt[k] == e;
                        assert(r[k + 1] == e);
                    }
                }
            }
            assert(desc_sorted(r)) by {
                assert forall|i: int, j: int| 0 <= i < j < r.len() implies str_lt(
                    r[i].path,
                    r[j].path,
                ) by {
                    if i == 0 {
                        assert(rt.contains(rt[j - 1]));
                        assert(tail.contains(rt[j - 1]));
                        let k = choose|k: int| 0 <= k < tail.len() && tail[k] == rt[j - 1];
                        assert(tail[k] == s[k + 1]);
                    } else {
                        assert(r[i] == rt[i - 1]);
                        assert(r[j] == rt[j - 1]);
                    }
                }
            }
        }
        assert(!has_path(r, p)) by {
            if has_path(r, p) {
                let i = choose|i: int| 0 <= i < r.len() && r[i].path == p;
                assert(r.contains(r[i]));
            }
        }
    }
}

pub proof fn lemma_remove_desc_by_id(s: Seq<DescModel>, id: u128)
    requires
        desc_sorted(s),
    ensures
        desc_sorted(remove_desc_by_id(s, id)),
        forall|e: DescModel|
            #[trigger] remove_desc_by_id(s, id).contains(e) <==> s.contains(e) && e.id != id,
    decreases s.len(),
{
    let r = remove_desc_by_id(s, id);
    if s.len() == 0 {
        assert forall|e: DescModel| !r.contains(e) && !s.contains(e) by {}
    } else {
        let tail = s.drop_first();
        assert(desc_sorted(tail)) by {
            assert(forall|i: int| 0 <= i < tail.len() ==> (#[trigger] tail[i]) == s[i + 1]);
        }
        lemma_remove_desc_by_id(tail, id);
        let rt = remove_desc_by_id(tail, id);
        assert forall|e: DescModel| tail.contains(e) implies s.contains(e) by {
            let i = choose|i: int| 0 <= i < tail.len() && tail[i] == e;
            assert(s[i + 1] == e);
        }
        if s[0].id == id {
            assert forall|e: DescModel| #[trigger] r.contains(e) <==> s.contains(e) && e.id
                != id by {
                if s.contains(e) && e.id != id {
                    let i = choose|i: int| 0 <= i < s.len() && s[i] == e;
                    assert(i != 0);
                    assert(tail[i - 1] == e);
                    assert(tail.contains(e));
                }
            }
        } else {
            assert(r == seq![s[0]].add(rt));
            assert forall|e: DescModel| #[trigger] r.contains(e) <==> s.contains(e) && e.id
                != id by {
                if r.contains(e) {
                    let i = choose|i: int| 0 <= i < r.len() && r[i] == e;
                    if i == 0 {
                        assert(s[0] == e);
                    } else {
                        assert(rt[i - 1] == e);
                        assert(rt.contains(e));
                    }
                }
                if s.contains(e) && e.id != id {
                    let i = choose|i: int| 0 <= i < s.len() && s[i] == e;
                    if i == 0 {
                        assert(r[0] == e);
                    } else {
                        assert(tail[i - 1] == e);
                        assert(tail.contains(e));
                        assert(rt.contains(e));
                        let k = choose|k: int| 0 <= k < rt.len() && rt[k] == e;
                        assert(r[k + 1] == e);
                    }
                }
            }
            assert(desc_sorted(r)) by {
                assert forall|i: int, j: int| 0 <= i < j < r.len() implies str_lt(
                    r[i].path,
                    r[j].path,
                ) by {
                    if i == 0 {
                        assert(rt.contains(rt[j - 1]));
                        assert(tail.contains(rt[j - 1]));
                        let k = choose|k: int| 0 <= k < tail.len() && tail[k] == rt[j - 1];
                        assert(tail[k] == s[k + 1]);
                    } else {
                        assert(r[i] == rt[i - 1]);
                        assert(r[j] == rt[j - 1]);
                    }
                }
            }
        }
    }
}

/// The descriptors without those bearing the path.
fn remove_by_path_exec(v: &Vec<BackendContainerDescription>, p: &String) -> (out: Vec<
    BackendContainerDescription,
>)
    ensures
        out.deep_view() == remove_desc_by_path(v.deep_view(), p@),
{
    let n = v.len();
    let mut out: Vec<BackendContainerDescription> = Vec::new();
    let mut i: usize = 0;
    proof {
        assert(v.deep_view().skip(0) =~= v.deep_view());
        assert(out.deep_view().add(remove_desc_by_path(v.deep_view(), p@)) =~= remove_desc_by_path(
            v.deep_view(),
            p@,
        ));
    }
    while i < n
        invariant
            i <= n,
            n == v.deep_view().len(),
            remove_desc_by_path(v.deep_view(), p@) =~= out.deep_view().add(
                remove_desc_by_path(v.deep_view().skip(i as int), p@),
            ),
        decreases n - i,
    {
        proof {
            let rem = v.deep_view().skip(i as int);
            assert(rem[0] == v.deep_view()[i as int]);
            assert(rem.drop_first() =~= v.deep_view().skip(i as int + 1));
        }
        if !str_eq(&v[i].path, p) {
            let ghost dv0 = out.deep_view();
            let e = v[i].duplicate();
            out.push(e);
            proof {
                assert(out.deep_view() =~= dv0.push(v.deep_view()[i as int]));
                assert(dv0.push(v.deep_view()[i as int]).add(
                    remove_desc_by_path(v.deep_view().skip(i as int + 1), p@),
                ) =~= dv0.add(seq![v.deep_view()[i as int]].add(
                    remove_desc_by_path(v.deep_view().skip(i as int + 1), p@),
                )));
            }
        }
        i += 1;
    }
    proof {
        assert(v.deep_view().skip(n as int).len() == 0);
        assert(out.deep_view().add(remove_desc_by_path(v.deep_view().skip(n as int), p@))
            =~= out.deep_view());
    }
    out
}

/// The descriptors without those bearing the identifier.
fn remove_by_id_exec(v: &Vec<BackendContainerDescription>, id: u128) -> (out: Vec<
    BackendContainerDescription,
>)
    ensures
        out.deep_view() == remove_desc_by_id(v.deep_view(), id),
{
    let n = v.len();
    let mut out: Vec<BackendContainerDescription> = Vec::new();
    let mut i: usize = 0;
    proof {
        assert(v.deep_view().skip(0) =~= v.deep_view());
        assert(out.deep_view().add(remove_desc_by_id(v.deep_view(), id)) =~= remove_desc_by_id(
            v.deep_view(),
            id,
        ));
    }
    while i < n
        invariant
            i <= n,
            n == v.deep_view().len(),
            remove_desc_by_id(v.deep_view(), id) =~= out.deep_view().add(
                remove_desc_by_id(v.deep_view().skip(i as int), id),
            ),
        decreases n - i,
    {
        proof {
            let rem = v.deep_view().skip(i as int);
            assert(rem[0] == v.deep_view()[i as int]);
            assert(rem.drop_first() =~= v.deep_view().skip(i as int + 1));
        }
        if !(v[i].id == id) {
            let ghost dv0 = out.deep_view();
            let e = v[i].duplicate();
            out.push(e);
            proof {
                assert(out.deep_view() =~= dv0.push(v.deep_view()[i as int]));
                assert(dv0.push(v.deep_view()[i as int]).add(
                    remove_desc_by_id(v.deep_view().skip(i as int + 1), id),
                ) =~= dv0.add(seq![v.deep_view()[i as int]].add(
                    remove_desc_by_id(v.deep_view().skip(i as int + 1), id),
                )));
            }
        }
        i += 1;
    }
    proof {
        assert(v.deep_view().skip(n as int).len() == 0);
        assert(out.deep_view().add(remove_desc_by_id(v.deep_view().skip(n as int), id))
            =~= out.deep_view());
    }
    out
}

impl PersistentState {
    /// Apply one front-end update. Adding a path that has no descriptor
    /// yet registers it under a freshly drawn identifier and announces
    /// the new descriptor; adding a present path changes nothing and
    /// announces nothing. Removals drop exactly the matching
    /// descriptors. The catalog stays sorted with unique paths.
    pub fn apply_update(&mut self, update: PersistentStateUpdate) -> (announced: Option<
        BackendContainerDescription,
    >)
        requires
            catalog_wf(old(self)@),
        ensures
            catalog_wf(final(self)@),
            match update {
                PersistentStateUpdate::AddContainer(p) => {
                    &&& (announced is Some <==> !has_path(old(self)@.containers, p@))
                    &&& match announced {
                        Some(d) => d@.path == p@ && final(self)@.containers == insert_desc(
                            d@,
                            old(self)@.containers,
                        ),
                        None => final(self)@ == old(self)@,
                    }
                    &&& final(self)@.last_selected_container_dir
                        == old(self)@.last_selected_container_dir
                    &&& final(self)@.recent_protocols == old(self)@.recent_protocols
                    &&& final(self)@.archived_protocols == old(self)@.archived_protocols
                },
                PersistentStateUpdate::RemoveContainerByPath(p) => {
                    &&& announced is None
                    &&& final(self)@ == (CatalogModel {
                        containers: remove_desc_by_path(old(self)@.containers, p@),
                        ..old(self)@
                    })
                },
                PersistentStateUpdate::RemoveContainer(id) => {
                    &&& announced is None
                    &&& final(self)@ == (CatalogModel {
                        containers: remove_desc_by_id(old(self)@.containers, id),
                        ..old(self)@
                    })
                },
                PersistentStateUpdate::SetlastSelectedContainerDir(p) => {
                    &&& announced is None
                    &&& final(self)@ == (CatalogModel {
                        last_selected_container_dir: match p {
                            Some(q) => Some(q@),
                            None => None,
                        },
                        ..old(self)@
                    })
                },
            },
    {
        match update {
            PersistentStateUpdate::AddContainer(p) => {
                if has_path_exec(&self.containers, &p) {
                    proof {
                        assert(self@ =~= old(self)@);
                    }
                    None
                } else {
                    let d = BackendContainerDescription::from_path(p);
                    let dup = d.duplicate();
                    let next = insert_desc_exec(dup, &self.containers);
                    self.containers = next;
                    proof {
                        lemma_insert_desc(d@, old(self)@.containers);
                    }
                    Some(d)
                }
            },
            PersistentStateUpdate::RemoveContainerByPath(p) => {
                let next = remove_by_path_exec(&self.containers, &p);
                self.containers = next;
                proof {
                    lemma_remove_desc_by_path(old(self)@.containers, p@);
                    assert(self@ =~= (CatalogModel {
                        containers: remove_desc_by_path(old(self)@.containers, p@),
                        ..old(self)@
                    }));
                }
                None
            },
            PersistentStateUpdate::RemoveContainer(id) => {
                let next = remove_by_id_exec(&self.containers, id);
                self.containers = next;
                proof {
                    lemma_remove_desc_by_id(old(self)@.containers, id);
                    assert(self@ =~= (CatalogModel {
                        containers: remove_desc_by_id(old(self)@.containers, id),
                        ..old(self)@
                    }));
                }
                None
            },
            PersistentStateUpdate::SetlastSelectedContainerDir(p) => {
                self.last_selected_container_dir = p;
                proof {
                    assert(self@ =~= (CatalogModel {
                        last_selected_container_dir: self@.last_selected_container_dir,
                        ..old(self)@
                    }));
                }
                None
            },
        }
    }
}

} // verus!
