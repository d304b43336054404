//! What the in-memory directory keeps across its operations, and what a base search finds.
use vstd::prelude::*;
use super::backend::{
    add_spec, delete_spec, dir_insert, key_index_from, modify_spec, search_spec, search_view, selected,
    DirectoryModel,
};
use super::dn::normalize_dn_spec;
use super::directory::apply_changes_spec;
use super::matching::{all_match, filter_matches};
use super::model::{AddRequestModel, EntryModel, FilterModel, ModifyRequestModel, SearchRequestModel, SearchScope};

verus! {

/// A directory in which every entry is stored under the normal form of its own DN, and
/// no normal DN names two entries.
pub open spec fn dir_wf(s: DirectoryModel) -> bool {
    &&& forall|i: int| 0 <= i < s.len() ==> (#[trigger] s[i]).0 == normalize_dn_spec(s[i].1.dn)
    &&& forall|i: int, j: int| 0 <= i < j < s.len() ==> (#[trigger] s[i]).0 != (#[trigger] s[j]).0
}

proof fn lemma_key_index_from(s: DirectoryModel, k: Seq<char>, i: int)
    requires
        0 <= i,
    ensures
        match key_index_from(s, k, i) {
            Some(j) => i <= j < s.len() && s[j].0 == k,
            None => forall|j: int| i <= j < s.len() ==> (#[trigger] s[j]).0 != k,
        },
    decreases s.len() - i,
{
    if i < s.len() && s[i].0 != k {
        lemma_key_index_from(s, k, i + 1);
    }
}

/// Storing an entry under the normal form of its DN keeps the directory well formed.
pub proof fn lemma_insert_keeps_wf(s: DirectoryModel, e: EntryModel)
    requires
        dir_wf(s),
    ensures
        dir_wf(dir_insert(s, normalize_dn_spec(e.dn), e)),
{
    lemma_key_index_from(s, normalize_dn_spec(e.dn), 0);
}

/// An add keeps the directory well formed.
pub proof fn lemma_add_keeps_wf(s: DirectoryModel, req: AddRequestModel)
    requires
        dir_wf(s),
    ensures
        dir_wf(add_spec(s, req).0),
{
    lemma_key_index_from(s, normalize_dn_spec(req.dn), 0);
}

/// A modify keeps the directory well formed.
pub proof fn lemma_modify_keeps_wf(s: DirectoryModel, req: ModifyRequestModel)
    requires
        dir_wf(s),
    ensures
        modify_spec(s, req) matches Some(t) ==> dir_wf(t),
{
    lemma_key_index_from(s, normalize_dn_spec(req.dn), 0);
}

/// A delete keeps the directory well formed.
pub proof fn lemma_delete_keeps_wf(s: DirectoryModel, dn: Seq<char>)
    requires
        dir_wf(s),
    ensures
        dir_wf(delete_spec(s, dn).0),
{
    let k = normalize_dn_spec(dn);
    lemma_key_index_from(s, k, 0);
    if let Some(i) = key_index_from(s, k, 0) {
        let t = s.remove(i);
        assert forall|a: int| 0 <= a < t.len() implies t[a] == s[if a < i { a } else { a + 1 }] by {}
        assert forall|a: int, b: int| 0 <= a < b < t.len() implies (#[trigger] t[a]).0 != (#[trigger] t[b]).0 by {
            let a2 = if a < i { a } else { a + 1 };
            let b2 = if b < i { b } else { b + 1 };
            assert(t[a] == s[a2] && t[b] == s[b2] && a2 < b2);
        }
        assert forall|a: int| 0 <= a < t.len() implies (#[trigger] t[a]).0 == normalize_dn_spec(t[a].1.dn) by {
            let a2 = if a < i { a } else { a + 1 };
            assert(t[a] == s[a2]);
        }
    }
}

/// When exactly the entry at `idx` is selected, a search returns that entry alone; when
/// none is, it returns nothing.
proof fn lemma_search_single(s: DirectoryModel, req: SearchRequestModel, idx: int)
    requires
        forall|j: int| 0 <= j < s.len() ==> (selected(#[trigger] s[j].1, req) <==> j == idx),
    ensures
        search_spec(s, req) == if 0 <= idx < s.len() { seq![search_view(s[idx].1, req)] } else { Seq::empty() },
    decreases s.len(),
{
    if s.len() > 0 {
        let r = s.drop_last();
        assert forall|j: int| 0 <= j < r.len() implies (selected(#[trigger] r[j].1, req) <==> j == idx) by {
            assert(r[j] == s[j]);
        }
        assert(selected(s[s.len() - 1].1, req) <==> s.len() - 1 == idx);
        if idx == s.len() - 1 {
            lemma_search_single(r, req, -1);
        } else {
            lemma_search_single(r, req, idx);
            if 0 <= idx < r.len() {
                assert(r[idx] == s[idx]);
            }
        }
    }
}

/// In a well-formed directory, an entry stored with `with_entry` is what a base search
/// at its DN (in any letter case and spacing that normalizes the same) returns, alone
/// and whole, when the search matches everything and asks for all attributes.
pub proof fn lemma_with_entry_base_search(s: DirectoryModel, e: EntryModel, req: SearchRequestModel)
    requires
        dir_wf(s),
        normalize_dn_spec(req.base_dn) == normalize_dn_spec(e.dn),
        req.scope == SearchScope::Base,
        req.filter == FilterModel::And(Seq::empty()),
        !req.types_only,
        req.attributes.len() == 0,
    ensures
        search_spec(dir_insert(s, normalize_dn_spec(e.dn), e), req) == seq![e],
{
    let k = normalize_dn_spec(e.dn);
    let t = dir_insert(s, k, e);
    lemma_insert_keeps_wf(s, e);
    lemma_key_index_from(s, k, 0);
    let idx = match key_index_from(s, k, 0) {
        Some(i) => i,
        None => s.len() as int,
    };
    assert(t[idx] == (k, e));
    assert forall|j: int| 0 <= j < t.len() implies (selected(#[trigger] t[j].1, req) <==> j == idx) by {
        assert(all_match(Seq::empty(), t[j].1));
        assert(filter_matches(req.filter, t[j].1));
        assert(t[j].0 == normalize_dn_spec(t[j].1.dn));
        if j != idx {
            assert(t[j].0 != t[idx].0);
        }
    }
    lemma_search_single(t, req, idx);
}

} // verus!
