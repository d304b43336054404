//! The in-memory directory and the dispatch of requests to a directory.
use vstd::prelude::*;
use vstd::utf8::encode_utf8;
use crate::error::{ProtoError, ProtoResult};
use crate::text::{str_eq, chars_of, eq_ignore_ascii_case, eq_ignore_case, string_from_chars};
use crate::wire::bytes_eq;
use super::directory::{apply_change, apply_change_spec, apply_changes_spec, filter_attributes, ldap_success, select_attributes, success_model};
use super::dn::{in_scope, match_scope, normalize_dn, normalize_dn_spec};
use super::matching::{filter_match, filter_matches, values_equal, values_equal_exec};
use super::model::{AddRequest, AddRequestModel, Attribute, AttributeModel, BindAuth, BindAuthModel, BindRequest, BindRequestModel, BindResponse, CompareModel, CompareRequest, EntryModel, ExtendedRequest, ExtendedRequestModel, ExtendedResponse, ExtendedResponseModel, LdapMessage, LdapResult, LdapResultModel, MessageModel, ModifyDnRequest, ModifyRequest, ModifyRequestModel, OpModel, ProtocolOp, ResultCode, SearchRequest, SearchRequestModel, SearchResultEntry, attributes_model, strings_model, values_model};
use super::codec::changes_model;
use super::store_laws::{dir_wf, lemma_add_keeps_wf, lemma_delete_keeps_wf, lemma_insert_keeps_wf, lemma_modify_keeps_wf, lemma_with_entry_base_search};
use super::model::{FilterModel, SearchScope};

verus! {

/// A result as values.
pub open spec fn result_of(r: ProtoResult<LdapResult>) -> Result<LdapResultModel, ProtoError> {
    match r {
        Ok(v) => Ok(v@),
        Err(e) => Err(e),
    }
}

/// Search entries as values.
pub open spec fn entries_of(r: ProtoResult<Vec<SearchResultEntry>>) -> Result<Seq<EntryModel>, ProtoError> {
    match r {
        Ok(v) => Ok(v@.map_values(|e: SearchResultEntry| e@)),
        Err(e) => Err(e),
    }
}

/// An extended response as values.
pub open spec fn extended_of(r: ProtoResult<ExtendedResponse>) -> Result<ExtendedResponseModel, ProtoError> {
    match r {
        Ok(v) => Ok(v@),
        Err(e) => Err(e),
    }
}

/// What a directory does with each request. Each implementation says, through a value
/// of its state, what it answers to each request and, for the requests that change it,
/// what state it is left in.
pub trait LdapBackend {
    /// The directory's content as a value.
    type State;

    /// The state the directory is in.
    spec fn state(&self) -> Self::State;

    /// What a bind answers in state `s`.
    spec fn bind_outcome(s: Self::State, req: BindRequestModel) -> Result<LdapResultModel, ProtoError>;

    /// The entries a search finds in state `s`.
    spec fn search_outcome(s: Self::State, req: SearchRequestModel) -> Result<Seq<EntryModel>, ProtoError>;

    /// What an add answers in state `s`.
    spec fn add_outcome(s: Self::State, req: AddRequestModel) -> Result<LdapResultModel, ProtoError>;

    /// The state an add leaves, from state `s`.
    spec fn after_add(s: Self::State, req: AddRequestModel) -> Self::State;

    /// What a modify answers in state `s`.
    spec fn modify_outcome(s: Self::State, req: ModifyRequestModel) -> Result<LdapResultModel, ProtoError>;

    /// The state a modify leaves, from state `s`.
    spec fn after_modify(s: Self::State, req: ModifyRequestModel) -> Self::State;

    /// What a delete of the entry at `dn` answers in state `s`.
    spec fn delete_outcome(s: Self::State, dn: Seq<char>) -> Result<LdapResultModel, ProtoError>;

    /// The state a delete of the entry at `dn` leaves, from state `s`.
    spec fn after_delete(s: Self::State, dn: Seq<char>) -> Self::State;

    /// What a compare answers in state `s`.
    spec fn compare_outcome(s: Self::State, req: CompareModel) -> Result<LdapResultModel, ProtoError>;

    /// What an extended request answers in state `s`.
    spec fn extended_outcome(s: Self::State, req: ExtendedRequestModel) -> Result<ExtendedResponseModel, ProtoError>;

    fn bind(&self, req: &BindRequest) -> (r: ProtoResult<LdapResult>)
        ensures
            result_of(r) == Self::bind_outcome(self.state(), req@),
    ;

    fn search(&self, req: &SearchRequest) -> (r: ProtoResult<Vec<SearchResultEntry>>)
        ensures
            entries_of(r) == Self::search_outcome(self.state(), req@),
    ;

    fn add(&mut self, req: &AddRequest) -> (r: ProtoResult<LdapResult>)
        ensures
            result_of(r) == Self::add_outcome(old(self).state(), req@),
            final(self).state() == Self::after_add(old(self).state(), req@),
    ;

    fn modify(&mut self, req: &ModifyRequest) -> (r: ProtoResult<LdapResult>)
        ensures
            result_of(r) == Self::modify_outcome(old(self).state(), req@),
            final(self).state() == Self::after_modify(old(self).state(), req@),
    ;

    fn delete(&mut self, dn: &str) -> (r: ProtoResult<LdapResult>)
        ensures
            result_of(r) == Self::delete_outcome(old(self).state(), dn@),
            final(self).state() == Self::after_delete(old(self).state(), dn@),
    ;

    fn compare(&self, req: &CompareRequest) -> (r: ProtoResult<LdapResult>)
        ensures
            result_of(r) == Self::compare_outcome(self.state(), req@),
    ;

    fn extended(&self, req: &ExtendedRequest) -> (r: ProtoResult<ExtendedResponse>)
        ensures
            extended_of(r) == Self::extended_outcome(self.state(), req@),
    ;
}

/// A directory held in memory: each entry under the normal form of its own DN, no normal
/// DN twice.
pub struct InMemoryBackend {
    entries: Vec<(String, SearchResultEntry)>,
    allow_anonymous: bool,
}

/// The content of the directory: each normal DN and its entry, in insertion order.
pub type DirectoryModel = Seq<(Seq<char>, EntryModel)>;

pub open spec fn entries_model(s: Seq<(String, SearchResultEntry)>) -> DirectoryModel {
    s.map_values(|p: (String, SearchResultEntry)| (p.0@, p.1@))
}

/// Where the entry of normal DN `k` stands, from `i` on.
pub open spec fn key_index_from(s: DirectoryModel, k: Seq<char>, i: int) -> Option<int>
    decreases s.len() - i,
{
    if i < 0 || i >= s.len() {
        None
    } else if s[i].0 == k {
        Some(i)
    } else {
        key_index_from(s, k, i + 1)
    }
}

/// The directory with `e` stored under `k`, replacing what was there.
pub open spec fn dir_insert(s: DirectoryModel, k: Seq<char>, e: EntryModel) -> DirectoryModel {
    match key_index_from(s, k, 0) {
        Some(i) => s.update(i, (k, e)),
        None => s.push((k, e)),
    }
}

/// The entry of normal DN `k`.
pub open spec fn dir_get(s: DirectoryModel, k: Seq<char>) -> Option<EntryModel> {
    match key_index_from(s, k, 0) {
        Some(i) => Some(s[i].1),
        None => None,
    }
}

/// Whether an entry carries `secret` as a `userPassword` value.
pub open spec fn password_matches(e: EntryModel, secret: Seq<u8>) -> bool {
    exists|i: int, j: int|
        0 <= i < e.attributes.len() && eq_ignore_case(e.attributes[i].name, "userpassword"@) && 0 <= j
            < e.attributes[i].values.len() && #[trigger] e.attributes[i].values[j] == secret
}

/// The answer to a bind: anonymous binds succeed, simple binds succeed with the stored
/// password, fail with invalid credentials otherwise, and fail outright for an unknown DN;
/// SASL is not supported.
pub open spec fn bind_spec(s: DirectoryModel, req: BindRequestModel) -> Option<LdapResultModel> {
    match req.auth {
        BindAuthModel::Simple(secret) => if req.name.len() == 0 {
            Some(success_model())
        } else {
            match dir_get(s, normalize_dn_spec(req.name)) {
                None => None,
                Some(e) => if password_matches(e, secret) {
                    Some(success_model())
                } else {
                    Some(LdapResultModel { code: ResultCode::InvalidCredentials, matched_dn: req.name, message: "invalid credentials"@, referrals: Seq::empty() })
                },
            }
        },
        BindAuthModel::Sasl { .. } => Some(LdapResultModel { code: ResultCode::AuthMethodNotSupported, matched_dn: req.name, message: "sasl not supported"@, referrals: Seq::empty() }),
    }
}

/// An entry as a search returns it: without values when only types are asked for, else
/// with the requested attributes when any are named.
pub open spec fn search_view(e: EntryModel, req: SearchRequestModel) -> EntryModel {
    if req.types_only {
        EntryModel { dn: e.dn, attributes: e.attributes.map_values(|a: AttributeModel| AttributeModel { name: a.name, values: Seq::empty() }) }
    } else if req.attributes.len() > 0 {
        EntryModel { dn: e.dn, attributes: select_attributes(e.attributes, req.attributes) }
    } else {
        e
    }
}

/// Whether a stored entry is selected by a search.
pub open spec fn selected(e: EntryModel, req: SearchRequestModel) -> bool {
    in_scope(normalize_dn_spec(req.base_dn), normalize_dn_spec(e.dn), req.scope) && filter_matches(req.filter, e)
}

/// The entries a search returns, in the directory's order.
pub open spec fn search_spec(s: DirectoryModel, req: SearchRequestModel) -> Seq<EntryModel>
    decreases s.len(),
{
    if s.len() == 0 {
        Seq::empty()
    } else {
        let rest = search_spec(s.drop_last(), req);
        if selected(s.last().1, req) {
            rest.push(search_view(s.last().1, req))
        } else {
            rest
        }
    }
}

/// The directory after an add, and the answer: an existing DN is refused.
pub open spec fn add_spec(s: DirectoryModel, req: AddRequestModel) -> (DirectoryModel, LdapResultModel) {
    let k = normalize_dn_spec(req.dn);
    match key_index_from(s, k, 0) {
        Some(_) => (s, LdapResultModel { code: ResultCode::EntryAlreadyExists, matched_dn: req.dn, message: "entry exists"@, referrals: Seq::empty() }),
        None => (s.push((k, EntryModel { dn: req.dn, attributes: req.attributes })), success_model()),
    }
}

/// The directory after a modify; `None` for an unknown DN.
pub open spec fn modify_spec(s: DirectoryModel, req: ModifyRequestModel) -> Option<DirectoryModel> {
    let k = normalize_dn_spec(req.dn);
    match key_index_from(s, k, 0) {
        Some(i) => Some(s.update(i, (k, EntryModel { dn: s[i].1.dn, attributes: apply_changes_spec(s[i].1.attributes, req.changes) }))),
        None => None,
    }
}

/// The directory after a delete, and the answer.
pub open spec fn delete_spec(s: DirectoryModel, dn: Seq<char>) -> (DirectoryModel, LdapResultModel) {
    match key_index_from(s, normalize_dn_spec(dn), 0) {
        Some(i) => (s.remove(i), success_model()),
        None => (s, LdapResultModel { code: ResultCode::NoSuchObject, matched_dn: dn, message: "no such object"@, referrals: Seq::empty() }),
    }
}

/// The answer to a compare; `None` for an unknown DN.
pub open spec fn compare_spec(s: DirectoryModel, req: CompareModel) -> Option<LdapResultModel> {
    match dir_get(s, normalize_dn_spec(req.dn)) {
        None => None,
        Some(e) => Some(LdapResultModel {
            code: if super::matching::has_equal_value(e, req.ava.attribute, req.ava.value) {
                ResultCode::CompareTrue
            } else {
                ResultCode::CompareFalse
            },
            matched_dn: req.dn,
            message: Seq::empty(),
            referrals: Seq::empty(),
        }),
    }
}

impl View for InMemoryBackend {
    type V = (DirectoryModel, bool);

    closed spec fn view(&self) -> (DirectoryModel, bool) {
        (entries_model(self.entries@), self.allow_anonymous)
    }
}

proof fn lemma_key_index(s: DirectoryModel, k: Seq<char>, i: int)
    requires
        0 <= i,
    ensures
        key_index_from(s, k, i) matches Some(j) ==> i <= j < s.len() && s[j].0 == k,
    decreases s.len() - i,
{
    if i < s.len() && s[i].0 != k {
        lemma_key_index(s, k, i + 1);
    }
}

impl InMemoryBackend {
    #[verifier::type_invariant]
    spec fn keys_are_normal_dns(self) -> bool {
        dir_wf(entries_model(self.entries@))
    }

    /// An empty directory that allows anonymous binds.
    pub fn new() -> (r: InMemoryBackend)
        ensures
            r@ == (Seq::<(Seq<char>, EntryModel)>::empty(), true),
            dir_wf(r@.0),
    {
        let r = InMemoryBackend { entries: Vec::new(), allow_anonymous: true };
        assert(entries_model(r.entries@) =~= Seq::<(Seq<char>, EntryModel)>::empty());
        r
    }

    fn index_of(&self, key: &str) -> (r: Option<usize>)
        ensures
            r matches Some(i) ==> i < self.entries.len(),
            match r {
                Some(i) => key_index_from(self@.0, key@, 0) == Some(i as int),
                None => key_index_from(self@.0, key@, 0) is None,
            },
    {
        let ghost m = self@.0;
        let mut i: usize = 0;
        while i < self.entries.len()
            invariant
                i <= self.entries.len(),
                m == entries_model(self.entries@),
                key_index_from(m, key@, 0) == key_index_from(m, key@, i as int),
            decreases self.entries.len() - i,
        {
            assert(m[i as int].0 == self.entries@[i as int].0@);
            if str_eq(self.entries[i].0.as_str(), key) {
                return Some(i);
            }
            i = i + 1;
        }
        None
    }

    /// The directory with `entry` stored under its normal DN, replacing what was stored
    /// there; a base search at that DN (letter case and spacing aside) that matches
    /// everything and asks for all attributes then finds that entry alone.
    pub fn with_entry(self, entry: SearchResultEntry) -> (r: InMemoryBackend)
        ensures
            r@ == (dir_insert(self@.0, normalize_dn_spec(entry@.dn), entry@), self@.1),
            dir_wf(r@.0),
            forall|req: SearchRequestModel|
                normalize_dn_spec(req.base_dn) == normalize_dn_spec(entry@.dn) && req.scope == SearchScope::Base
                    && req.filter == FilterModel::And(Seq::empty()) && !req.types_only && req.attributes.len() == 0
                    ==> #[trigger] search_spec(r@.0, req) == seq![entry@],
    {
        proof {
            use_type_invariant(&self);
        }
        let key = normalize_dn(entry.dn.as_str());
        let ghost m = self@.0;
        let ghost ev = entry@;
        let idx = self.index_of(key.as_str());
        let InMemoryBackend { entries, allow_anonymous } = self;
        let mut entries = entries;
        let ghost kv = key@;
        match idx {
            Some(i) => {
                entries.set(i, (key, entry));
                assert(entries_model(entries@) =~= m.update(i as int, (kv, ev)));
            },
            None => {
                entries.push((key, entry));
                assert(entries_model(entries@) =~= m.push((kv, ev)));
            },
        }
        proof {
            lemma_insert_keeps_wf(m, ev);
            assert forall|req: SearchRequestModel|
                normalize_dn_spec(req.base_dn) == normalize_dn_spec(ev.dn) && req.scope == SearchScope::Base
                    && req.filter == FilterModel::And(Seq::empty()) && !req.types_only && req.attributes.len() == 0
                    implies #[trigger] search_spec(entries_model(entries@), req) == seq![ev] by {
                lemma_with_entry_base_search(m, ev, req);
            }
        }
        InMemoryBackend { entries, allow_anonymous }
    }

    /// The directory with anonymous binds allowed or not.
    pub fn allow_anonymous(self, allow: bool) -> (r: InMemoryBackend)
        ensures
            r@ == (self@.0, allow),
            dir_wf(r@.0),
    {
        proof {
            use_type_invariant(&self);
        }
        let InMemoryBackend { entries, allow_anonymous: _ } = self;
        InMemoryBackend { entries, allow_anonymous: allow }
    }

    /// Answers a bind.
    pub fn bind(&self, req: &BindRequest) -> (r: ProtoResult<LdapResult>)
        ensures
            match r {
                Ok(v) => bind_spec(self@.0, req@) == Some(v@),
                Err(e) => bind_spec(self@.0, req@) is None && e == ProtoError::Message("no such object"),
            },
    {
        match &req.auth {
            BindAuth::Simple(secret) => {
                if chars_of(req.name.as_str()).len() == 0 {
                    return Ok(ldap_success());
                }
                let key = normalize_dn(req.name.as_str());
                let i = match self.index_of(key.as_str()) {
                    Some(i) => i,
                    None => return Err(ProtoError::Message("no such object")),
                };
                let entry = &self.entries[i].1;
                let ghost e = self@.0[i as int].1;
                assert(e == entry@);
                let mut ok = false;
                let mut a: usize = 0;
                while a < entry.attributes.len()
                    invariant
                        a <= entry.attributes.len(),
                        e == entry@,
                        ok == (exists|x: int, y: int|
                            0 <= x < a && eq_ignore_case(e.attributes[x].name, "userpassword"@) && 0 <= y
                                < e.attributes[x].values.len() && #[trigger] e.attributes[x].values[y] == secret@),
                    decreases entry.attributes.len() - a,
                {
                    let attr = &entry.attributes[a];
                    assert(e.attributes[a as int] == attr@);
                    if eq_ignore_ascii_case(attr.name.as_str(), "userpassword") {
                        let mut v: usize = 0;
                        while v < attr.values.len()
                            invariant
                                v <= attr.values.len(),
                                a < entry.attributes.len(),
                                e == entry@,
                                e.attributes[a as int] == attr@,
                                eq_ignore_case(attr@.name, "userpassword"@),
                                ok ==> (exists|x: int, y: int|
                                    0 <= x <= a && eq_ignore_case(e.attributes[x].name, "userpassword"@) && 0 <= y
                                        < e.attributes[x].values.len() && #[trigger] e.attributes[x].values[y] == secret@),
                                !ok ==> (forall|x: int, y: int|
                                    0 <= x < a && eq_ignore_case(e.attributes[x].name, "userpassword"@) && 0 <= y
                                        < e.attributes[x].values.len() ==> #[trigger] e.attributes[x].values[y] != secret@),
                                !ok ==> (forall|y: int| 0 <= y < v ==> attr@.values[y] != secret@),
                            decreases attr.values.len() - v,
                        {
                            if bytes_eq(attr.values[v].as_slice(), secret.as_slice()) {
                                assert(e.attributes[a as int].values[v as int] == secret@);
                                ok = true;
                            }
                            v = v + 1;
                        }
                    }
                    a = a + 1;
                }
                if ok {
                    Ok(ldap_success())
                } else {
                    Ok(result_text(ResultCode::InvalidCredentials, req.name.clone(), "invalid credentials"))
                }
            },
            BindAuth::Sasl { .. } => Ok(result_text(ResultCode::AuthMethodNotSupported, req.name.clone(), "sasl not supported")),
        }
    }
}

fn result_text(code: ResultCode, matched_dn: String, message: &str) -> (r: LdapResult)
    ensures
        r@ == (LdapResultModel { code, matched_dn: matched_dn@, message: message@, referrals: Seq::empty() }),
{
    let cs = chars_of(message);
    let referrals: Vec<String> = Vec::new();
    assert(strings_model(referrals@) =~= Seq::<Seq<char>>::empty());
    LdapResult { code, matched_dn, message: string_from_chars(cs.as_slice()), referrals }
}

fn clear_values(attrs: &Vec<Attribute>) -> (r: Vec<Attribute>)
    ensures
        attributes_model(r@) == attributes_model(attrs@).map_values(|a: AttributeModel| AttributeModel { name: a.name, values: Seq::empty() }),
{
    let mut out: Vec<Attribute> = Vec::new();
    let mut i: usize = 0;
    while i < attrs.len()
        invariant
            i <= attrs.len(),
            attributes_model(out@) == attributes_model(attrs@.subrange(0, i as int)).map_values(
                |a: AttributeModel| AttributeModel { name: a.name, values: Seq::empty() },
            ),
        decreases attrs.len() - i,
    {
        let values: Vec<Vec<u8>> = Vec::new();
        assert(values_model(values@) =~= Seq::<Seq<u8>>::empty());
        let a = Attribute { name: attrs[i].name.clone(), values };
        let ghost before = attributes_model(out@);
        let ghost av = a@;
        assert(av == AttributeModel { name: attrs@[i as int]@.name, values: Seq::empty() });
        out.push(a);
        assert(attributes_model(out@) =~= before.push(av));
        assert(attrs@.subrange(0, i + 1) =~= attrs@.subrange(0, i as int).push(attrs@[i as int]));
        assert(attributes_model(attrs@.subrange(0, i + 1)) =~= attributes_model(attrs@.subrange(0, i as int)).push(attrs@[i as int]@));
        i = i + 1;
        assert(attributes_model(out@) =~= attributes_model(attrs@.subrange(0, i as int)).map_values(
            |a: AttributeModel| AttributeModel { name: a.name, values: Seq::empty() },
        ));
    }
    assert(attrs@.subrange(0, i as int) =~= attrs@);
    out
}

fn copy_entry(e: &SearchResultEntry) -> (r: SearchResultEntry)
    ensures
        r@ == e@,
{
    proof {
        reveal_strlit("*");
    }
    let mut star: Vec<String> = Vec::new();
    star.push(String::from_str("*"));
    assert(strings_model(star@).contains("*"@)) by {
        assert(strings_model(star@)[0] == "*"@);
    }
    let attrs = filter_attributes(&e.attributes, &star);
    SearchResultEntry { dn: e.dn.clone(), attributes: attrs }
}

impl InMemoryBackend {
    /// The entries a search selects, as it returns them.
    pub fn search(&self, req: &SearchRequest) -> (r: ProtoResult<Vec<SearchResultEntry>>)
        ensures
            r matches Ok(v) && v@.map_values(|e: SearchResultEntry| e@) == search_spec(self@.0, req@),
    {
        let base = normalize_dn(req.base_dn.as_str());
        let ghost m = self@.0;
        let mut out: Vec<SearchResultEntry> = Vec::new();
        let mut i: usize = 0;
        while i < self.entries.len()
            invariant
                i <= self.entries.len(),
                m == entries_model(self.entries@),
                base@ == normalize_dn_spec(req.base_dn@),
                out@.map_values(|e: SearchResultEntry| e@) == search_spec(m.subrange(0, i as int), req@),
            decreases self.entries.len() - i,
        {
            let entry = &self.entries[i].1;
            proof {
                assert(m.subrange(0, i + 1).drop_last() =~= m.subrange(0, i as int));
                assert(m.subrange(0, i + 1).last().1 == entry@);
            }
            let dn = normalize_dn(entry.dn.as_str());
            if match_scope(base.as_str(), dn.as_str(), req.scope) && filter_match(&req.filter, entry) {
                let mut e = copy_entry(entry);
                if req.types_only {
                    e.attributes = clear_values(&entry.attributes);
                } else if req.attributes.len() > 0 {
                    e.attributes = filter_attributes(&entry.attributes, &req.attributes);
                }
                let ghost before = out@.map_values(|e: SearchResultEntry| e@);
                let ghost ev = e@;
                out.push(e);
                assert(out@.map_values(|e: SearchResultEntry| e@) =~= before.push(ev));
            }
            i = i + 1;
        }
        assert(m.subrange(0, i as int) =~= m);
        Ok(out)
    }

    /// Stores a new entry; an existing DN is refused.
    pub fn add(&mut self, req: &AddRequest) -> (r: ProtoResult<LdapResult>)
        ensures
            r matches Ok(v) && (final(self)@.0, v@) == add_spec(old(self)@.0, req@) && final(self)@.1 == old(self)@.1,
            dir_wf(final(self)@.0),
    {
        proof {
            use_type_invariant(&*self);
        }
        let key = normalize_dn(req.dn.as_str());
        match self.index_of(key.as_str()) {
            Some(_) => Ok(result_text(ResultCode::EntryAlreadyExists, req.dn.clone(), "entry exists")),
            None => {
                let ghost m = self@.0;
                let entry = SearchResultEntry { dn: req.dn.clone(), attributes: super::directory::clone_attributes_pub(&req.attributes) };
                let ghost kv = key@;
                let ghost ev = entry@;
                let mut entries: Vec<(String, SearchResultEntry)> = Vec::new();
                std::mem::swap(&mut entries, &mut self.entries);
                entries.push((key, entry));
                assert(entries_model(entries@) =~= m.push((kv, ev)));
                proof {
                    lemma_add_keeps_wf(m, req@);
                }
                self.entries = entries;
                Ok(ldap_success())
            },
        }
    }

    /// Applies the changes to an entry; an unknown DN is an error.
    pub fn modify(&mut self, req: &ModifyRequest) -> (r: ProtoResult<LdapResult>)
        ensures
            final(self)@.1 == old(self)@.1,
            match r {
                Ok(v) => modify_spec(old(self)@.0, req@) == Some(final(self)@.0) && v@ == success_model(),
                Err(e) => modify_spec(old(self)@.0, req@) is None && e == ProtoError::Message("no such object") && final(self)@ == old(self)@,
            },
            dir_wf(final(self)@.0),
    {
        proof {
            use_type_invariant(&*self);
        }
        let key = normalize_dn(req.dn.as_str());
        let i = match self.index_of(key.as_str()) {
            Some(i) => i,
            None => return Err(ProtoError::Message("no such object")),
        };
        let ghost m = self@.0;
        let mut entry = copy_entry(&self.entries[i].1);
        let ghost e0 = entry@;
        let mut k: usize = 0;
        assert(changes_model(req.changes@).subrange(0, req.changes@.len() as int) =~= changes_model(req.changes@));
        while k < req.changes.len()
            invariant
                k <= req.changes.len(),
                entry@.dn == e0.dn,
                apply_changes_spec(e0.attributes, changes_model(req.changes@)) == apply_changes_spec(
                    entry@.attributes,
                    changes_model(req.changes@).subrange(k as int, req.changes@.len() as int),
                ),
            decreases req.changes.len() - k,
        {
            proof {
                let rest = changes_model(req.changes@).subrange(k as int, req.changes@.len() as int);
                assert(rest[0] == req.changes@[k as int]@);
                assert(rest.drop_first() =~= changes_model(req.changes@).subrange(k + 1, req.changes@.len() as int));
            }
            apply_change(&mut entry, &req.changes[k]);
            k = k + 1;
        }
        proof {
            assert(changes_model(req.changes@).subrange(0, req.changes@.len() as int) =~= changes_model(req.changes@));
            assert(changes_model(req.changes@).subrange(k as int, req.changes@.len() as int) =~= Seq::<super::model::ChangeModel>::empty());
        }
        let ghost kv = key@;
        let ghost ev = entry@;
        proof {
            lemma_key_index(m, kv, 0);
        }
        assert(m[i as int].0 == kv);
        let mut entries: Vec<(String, SearchResultEntry)> = Vec::new();
        std::mem::swap(&mut entries, &mut self.entries);
        entries.set(i, (key, entry));
        assert(entries_model(entries@) =~= m.update(i as int, (kv, ev)));
        proof {
            lemma_modify_keeps_wf(m, req@);
        }
        self.entries = entries;
        Ok(ldap_success())
    }

    /// Removes an entry; an unknown DN is answered with "no such object".
    pub fn delete(&mut self, dn: &str) -> (r: ProtoResult<LdapResult>)
        ensures
            r matches Ok(v) && (final(self)@.0, v@) == delete_spec(old(self)@.0, dn@) && final(self)@.1 == old(self)@.1,
            dir_wf(final(self)@.0),
    {
        proof {
            use_type_invariant(&*self);
        }
        let key = normalize_dn(dn);
        match self.index_of(key.as_str()) {
            Some(i) => {
                let ghost m = self@.0;
                let mut entries: Vec<(String, SearchResultEntry)> = Vec::new();
                std::mem::swap(&mut entries, &mut self.entries);
                entries.remove(i);
                assert(entries_model(entries@) =~= m.remove(i as int));
                proof {
                    lemma_delete_keeps_wf(m, dn@);
                }
                self.entries = entries;
                Ok(ldap_success())
            },
            None => {
                let cs = chars_of(dn);
                Ok(result_text(ResultCode::NoSuchObject, string_from_chars(cs.as_slice()), "no such object"))
            },
        }
    }

    /// Answers a compare; an unknown DN is an error.
    pub fn compare(&self, req: &CompareRequest) -> (r: ProtoResult<LdapResult>)
        ensures
            match r {
                Ok(v) => compare_spec(self@.0, req@) == Some(v@),
                Err(e) => compare_spec(self@.0, req@) is None && e == ProtoError::Message("no such object"),
            },
    {
        let key = normalize_dn(req.dn.as_str());
        let i = match self.index_of(key.as_str()) {
            Some(i) => i,
            None => return Err(ProtoError::Message("no such object")),
        };
        let entry = &self.entries[i].1;
        let matched = super::matching::attr_equal_pub(entry, req.ava.attribute.as_str(), &req.ava.value);
        let code = if matched { ResultCode::CompareTrue } else { ResultCode::CompareFalse };
        let referrals: Vec<String> = Vec::new();
        assert(strings_model(referrals@) =~= Seq::<Seq<char>>::empty());
        let r = LdapResult { code, matched_dn: req.dn.clone(), message: String::new(), referrals };
        Ok(r)
    }

    /// Answers an extended request: none is supported.
    pub fn extended(&self, req: &ExtendedRequest) -> (r: ProtoResult<ExtendedResponse>)
        ensures
            r matches Ok(v) && v@ == (ExtendedResponseModel {
                result: LdapResultModel {
                    code: ResultCode::UnavailableCriticalExtension,
                    matched_dn: Seq::empty(),
                    message: "unsupported extended request "@ + req@.name,
                    referrals: Seq::empty(),
                },
                name: None,
                value: None,
            }),
    {
        let mut msg = chars_of("unsupported extended request ");
        let name = chars_of(req.name.as_str());
        let ghost m0 = msg@;
        let mut j: usize = 0;
        while j < name.len()
            invariant
                j <= name.len(),
                msg@ == m0 + name@.subrange(0, j as int),
            decreases name.len() - j,
        {
            msg.push(name[j]);
            j = j + 1;
            assert(msg@ =~= m0 + name@.subrange(0, j as int));
        }
        assert(name@.subrange(0, j as int) =~= name@);
        let result = result_text(ResultCode::UnavailableCriticalExtension, String::new(), "");
        let result = LdapResult { message: string_from_chars(msg.as_slice()), ..result };
        Ok(ExtendedResponse { result, name: None, value: None })
    }
}

impl LdapBackend for InMemoryBackend {
    type State = (DirectoryModel, bool);

    open spec fn state(&self) -> (DirectoryModel, bool) {
        self@
    }

    open spec fn bind_outcome(s: (DirectoryModel, bool), req: BindRequestModel) -> Result<LdapResultModel, ProtoError> {
        match bind_spec(s.0, req) {
            Some(v) => Ok(v),
            None => Err(ProtoError::Message("no such object")),
        }
    }

    open spec fn search_outcome(s: (DirectoryModel, bool), req: SearchRequestModel) -> Result<Seq<EntryModel>, ProtoError> {
        Ok(search_spec(s.0, req))
    }

    open spec fn add_outcome(s: (DirectoryModel, bool), req: AddRequestModel) -> Result<LdapResultModel, ProtoError> {
        Ok(add_spec(s.0, req).1)
    }

    open spec fn after_add(s: (DirectoryModel, bool), req: AddRequestModel) -> (DirectoryModel, bool) {
        (add_spec(s.0, req).0, s.1)
    }

    open spec fn modify_outcome(s: (DirectoryModel, bool), req: ModifyRequestModel) -> Result<LdapResultModel, ProtoError> {
        match modify_spec(s.0, req) {
            Some(_) => Ok(success_model()),
            None => Err(ProtoError::Message("no such object")),
        }
    }

    open spec fn after_modify(s: (DirectoryModel, bool), req: ModifyRequestModel) -> (DirectoryModel, bool) {
        match modify_spec(s.0, req) {
            Some(t) => (t, s.1),
            None => s,
        }
    }

    open spec fn delete_outcome(s: (DirectoryModel, bool), dn: Seq<char>) -> Result<LdapResultModel, ProtoError> {
        Ok(delete_spec(s.0, dn).1)
    }

    open spec fn after_delete(s: (DirectoryModel, bool), dn: Seq<char>) -> (DirectoryModel, bool) {
        (delete_spec(s.0, dn).0, s.1)
    }

    open spec fn compare_outcome(s: (DirectoryModel, bool), req: CompareModel) -> Result<LdapResultModel, ProtoError> {
        match compare_spec(s.0, req) {
            Some(v) => Ok(v),
            None => Err(ProtoError::Message("no such object")),
        }
    }

    open spec fn extended_outcome(s: (DirectoryModel, bool), req: ExtendedRequestModel) -> Result<ExtendedResponseModel, ProtoError> {
        Ok(
            ExtendedResponseModel {
                result: LdapResultModel {
                    code: ResultCode::UnavailableCriticalExtension,
                    matched_dn: Seq::empty(),
                    message: "unsupported extended request "@ + req.name,
                    referrals: Seq::empty(),
                },
                name: None,
                value: None,
            },
        )
    }

    fn bind(&self, req: &BindRequest) -> (r: ProtoResult<LdapResult>)
        ensures
            match r {
                Ok(v) => bind_spec(self@.0, req@) == Some(v@),
                Err(e) => bind_spec(self@.0, req@) is None && e == ProtoError::Message("no such object"),
            },
    {
        InMemoryBackend::bind(self, req)
    }

    fn search(&self, req: &SearchRequest) -> (r: ProtoResult<Vec<SearchResultEntry>>)
        ensures
            r matches Ok(v) && v@.map_values(|e: SearchResultEntry| e@) == search_spec(self@.0, req@),
    {
        InMemoryBackend::search(self, req)
    }

    fn add(&mut self, req: &AddRequest) -> (r: ProtoResult<LdapResult>)
        ensures
            r matches Ok(v) && (final(self)@.0, v@) == add_spec(old(self)@.0, req@) && final(self)@.1 == old(self)@.1,
    {
        InMemoryBackend::add(self, req)
    }

    fn modify(&mut self, req: &ModifyRequest) -> (r: ProtoResult<LdapResult>)
        ensures
            final(self)@.1 == old(self)@.1,
            match r {
                Ok(v) => modify_spec(old(self)@.0, req@) == Some(final(self)@.0) && v@ == success_model(),
                Err(e) => modify_spec(old(self)@.0, req@) is None && e == ProtoError::Message("no such object") && final(self)@ == old(self)@,
            },
    {
        InMemoryBackend::modify(self, req)
    }

    fn delete(&mut self, dn: &str) -> (r: ProtoResult<LdapResult>)
        ensures
            r matches Ok(v) && (final(self)@.0, v@) == delete_spec(old(self)@.0, dn@) && final(self)@.1 == old(self)@.1,
    {
        InMemoryBackend::delete(self, dn)
    }

    fn compare(&self, req: &CompareRequest) -> (r: ProtoResult<LdapResult>)
        ensures
            match r {
                Ok(v) => compare_spec(self@.0, req@) == Some(v@),
                Err(e) => compare_spec(self@.0, req@) is None && e == ProtoError::Message("no such object"),
            },
    {
        InMemoryBackend::compare(self, req)
    }

    fn extended(&self, req: &ExtendedRequest) -> (r: ProtoResult<ExtendedResponse>)
        ensures
            r matches Ok(v) && v@ == (ExtendedResponseModel {
                result: LdapResultModel {
                    code: ResultCode::UnavailableCriticalExtension,
                    matched_dn: Seq::empty(),
                    message: "unsupported extended request "@ + req@.name,
                    referrals: Seq::empty(),
                },
                name: None,
                value: None,
            }),
    {
        InMemoryBackend::extended(self, req)
    }
}

/// A reply to message `id` without controls.
pub open spec fn reply(id: i32, op: OpModel) -> MessageModel {
    MessageModel { message_id: id, op, controls: Seq::empty() }
}

/// The answer to a request the server does not serve.
pub open spec fn unsupported_reply(id: i32) -> MessageModel {
    reply(
        id,
        OpModel::BindResponse(super::model::BindResponseModel {
            result: LdapResultModel { code: ResultCode::ProtocolError, matched_dn: Seq::empty(), message: "unsupported request"@, referrals: Seq::empty() },
            server_sasl_creds: None,
        }),
    )
}

/// The replies the server sends to a request, by the request's kind: one response of the
/// matching kind for each operation; for a search, one entry message per entry found and
/// a final success; nothing for unbind and abandon; a protocol error otherwise.
pub open spec fn replies_fit(m: MessageModel, out: Seq<MessageModel>) -> bool {
    let id = m.message_id;
    let one = |p: spec_fn(OpModel) -> bool| out.len() == 1 && out[0].message_id == id && out[0].controls.len() == 0 && p(out[0].op);
    match m.op {
        OpModel::BindRequest(_) => one(|o: OpModel| o matches OpModel::BindResponse(b) && b.server_sasl_creds is None),
        OpModel::SearchRequest(_) => out.len() >= 1 && out.last() == reply(id, OpModel::SearchResultDone(success_model()))
            && forall|k: int| 0 <= k < out.len() - 1 ==> (#[trigger] out[k]).message_id == id && out[k].controls.len() == 0
                && out[k].op is SearchResultEntry,
        OpModel::AddRequest(_) => one(|o: OpModel| o is AddResponse),
        OpModel::ModifyRequest(_) => one(|o: OpModel| o is ModifyResponse),
        OpModel::DelRequest(_) => one(|o: OpModel| o is DelResponse),
        OpModel::ModifyDnRequest(_) => one(|o: OpModel| o is ModifyDnResponse),
        OpModel::CompareRequest(_) => one(|o: OpModel| o is CompareResponse),
        OpModel::ExtendedRequest(_) => one(|o: OpModel| o is ExtendedResponse),
        OpModel::UnbindRequest => out.len() == 0,
        OpModel::AbandonRequest(_) => out.len() == 0,
        _ => out == seq![unsupported_reply(id)],
    }
}

pub open spec fn messages_model(s: Seq<LdapMessage>) -> Seq<MessageModel> {
    s.map_values(|m: LdapMessage| m@)
}

fn reply_msg(id: i32, op: ProtocolOp) -> (r: LdapMessage)
    ensures
        r@ == reply(id, op@),
{
    let controls: Vec<super::model::Control> = Vec::new();
    let r = LdapMessage { message_id: id, op, controls };
    assert(r@.controls =~= Seq::<super::model::ControlModel>::empty());
    r
}

fn one_reply(id: i32, op: ProtocolOp) -> (r: Vec<LdapMessage>)
    ensures
        messages_model(r@) == seq![reply(id, op@)],
{
    let mut v: Vec<LdapMessage> = Vec::new();
    v.push(reply_msg(id, op));
    assert(messages_model(v@) =~= seq![v@[0]@]);
    v
}

/// The name a renamed entry gets: the new RDN, under the new superior when one is given.
pub open spec fn new_dn_spec(rdn: Seq<char>, superior: Option<Seq<char>>) -> Seq<char> {
    match superior {
        Some(s) => rdn.push(',') + s,
        None => rdn,
    }
}

fn new_dn(req: &ModifyDnRequest) -> (r: String)
    ensures
        r@ == new_dn_spec(req@.new_rdn, req@.new_superior),
{
    match &req.new_superior {
        Some(sup) => {
            let mut cs = chars_of(req.new_rdn.as_str());
            cs.push(',');
            let sc = chars_of(sup.as_str());
            let ghost c0 = cs@;
            let mut j: usize = 0;
            while j < sc.len()
                invariant
                    j <= sc.len(),
                    cs@ == c0 + sc@.subrange(0, j as int),
                decreases sc.len() - j,
            {
                cs.push(sc[j]);
                j = j + 1;
                assert(cs@ =~= c0 + sc@.subrange(0, j as int));
            }
            assert(sc@.subrange(0, j as int) =~= sc@);
            string_from_chars(cs.as_slice())
        },
        None => req.new_rdn.clone(),
    }
}

/// Whether answering a request takes the directory: binds, searches, changes, compares and
/// extended requests do; unbind, abandon and anything that is not a request do not.
pub open spec fn uses_backend(op: OpModel) -> bool {
    ||| op is BindRequest
    ||| op is SearchRequest
    ||| op is AddRequest
    ||| op is ModifyRequest
    ||| op is DelRequest
    ||| op is ModifyDnRequest
    ||| op is CompareRequest
    ||| op is ExtendedRequest
}

/// The response a request that the directory answers with a result gets.
#[derive(Debug, Clone, Copy, PartialEq, Eq, Structural)]
pub enum ResponseKind {
    Bind,
    Add,
    Modify,
    Delete,
    ModifyDn,
    Compare,
}

/// The response of kind `k` that carries `res`.
pub open spec fn response_op(k: ResponseKind, res: LdapResultModel) -> OpModel {
    match k {
        ResponseKind::Bind => OpModel::BindResponse(super::model::BindResponseModel { result: res, server_sasl_creds: None }),
        ResponseKind::Add => OpModel::AddResponse(res),
        ResponseKind::Modify => OpModel::ModifyResponse(res),
        ResponseKind::Delete => OpModel::DelResponse(res),
        ResponseKind::ModifyDn => OpModel::ModifyDnResponse(res),
        ResponseKind::Compare => OpModel::CompareResponse(res),
    }
}

/// Messages to send back, or the error that ends the exchange, as values.
pub open spec fn answers(r: ProtoResult<Vec<LdapMessage>>) -> Result<Seq<MessageModel>, ProtoError> {
    match r {
        Ok(v) => Ok(messages_model(v@)),
        Err(e) => Err(e),
    }
}

/// The answer to message `id` when the directory gave `o`: one response of kind `k` with
/// the directory's result, or the directory's error.
pub open spec fn result_answer(id: i32, k: ResponseKind, o: Result<LdapResultModel, ProtoError>) -> Result<Seq<MessageModel>, ProtoError> {
    match o {
        Ok(res) => Ok(seq![reply(id, response_op(k, res))]),
        Err(e) => Err(e),
    }
}

/// The answer to search `id` when the directory found `o`: one entry message per entry,
/// in order, then a successful done message; or the directory's error.
pub open spec fn search_answer(id: i32, o: Result<Seq<EntryModel>, ProtoError>) -> Result<Seq<MessageModel>, ProtoError> {
    match o {
        Ok(es) => Ok(es.map_values(|e: EntryModel| reply(id, OpModel::SearchResultEntry(e))).push(
            reply(id, OpModel::SearchResultDone(success_model())),
        )),
        Err(e) => Err(e),
    }
}

/// The answer to extended request `id` when the directory gave `o`.
pub open spec fn extended_answer(id: i32, o: Result<ExtendedResponseModel, ProtoError>) -> Result<Seq<MessageModel>, ProtoError> {
    match o {
        Ok(x) => Ok(seq![reply(id, OpModel::ExtendedResponse(x))]),
        Err(e) => Err(e),
    }
}

/// The messages that answer request `id` when the directory gave `outcome`.
pub fn result_replies(id: i32, kind: ResponseKind, outcome: ProtoResult<LdapResult>) -> (r: ProtoResult<Vec<LdapMessage>>)
    ensures
        answers(r) == result_answer(id, kind, result_of(outcome)),
{
    match outcome {
        Ok(result) => {
            let op = match kind {
                ResponseKind::Bind => ProtocolOp::BindResponse(BindResponse { result, server_sasl_creds: None }),
                ResponseKind::Add => ProtocolOp::AddResponse(result),
                ResponseKind::Modify => ProtocolOp::ModifyResponse(result),
                ResponseKind::Delete => ProtocolOp::DelResponse(result),
                ResponseKind::ModifyDn => ProtocolOp::ModifyDnResponse(result),
                ResponseKind::Compare => ProtocolOp::CompareResponse(result),
            };
            Ok(one_reply(id, op))
        },
        Err(e) => Err(e),
    }
}

/// The messages that answer search `id` when the directory found `outcome`.
pub fn search_replies(id: i32, outcome: ProtoResult<Vec<SearchResultEntry>>) -> (r: ProtoResult<Vec<LdapMessage>>)
    ensures
        answers(r) == search_answer(id, entries_of(outcome)),
{
    match outcome {
        Err(e) => Err(e),
        Ok(entries) => {
            let ghost es = entries@.map_values(|e: SearchResultEntry| e@);
            let ghost f = |e: EntryModel| reply(id, OpModel::SearchResultEntry(e));
            let mut entries = entries;
            let mut out: Vec<LdapMessage> = Vec::new();
            let ghost n = es.len();
            while entries.len() > 0
                invariant
                    entries@.map_values(|e: SearchResultEntry| e@) == es.subrange(n - entries@.len(), n as int),
                    entries@.len() <= n,
                    n == es.len(),
                    f == (|e: EntryModel| reply(id, OpModel::SearchResultEntry(e))),
                    messages_model(out@) == es.subrange(0, n - entries@.len()).map_values(f),
                decreases entries.len(),
            {
                let ghost k = n - entries@.len();
                let ghost before = messages_model(out@);
                let ghost pre = entries@;
                let e = entries.remove(0);
                proof {
                    assert(pre.map_values(|e: SearchResultEntry| e@)[0] == es.subrange(k, n as int)[0]);
                    assert(e@ == es[k]);
                    assert(entries@ =~= pre.subrange(1, pre.len() as int));
                    assert forall|j: int| 0 <= j < entries@.len() implies #[trigger] entries@[j]@ == es[k + 1 + j] by {
                        assert(entries@[j] == pre[j + 1]);
                        assert(pre.map_values(|e: SearchResultEntry| e@)[j + 1] == es.subrange(k, n as int)[j + 1]);
                    }
                    assert(entries@.map_values(|e: SearchResultEntry| e@) =~= es.subrange(k + 1, n as int));
                }
                out.push(reply_msg(id, ProtocolOp::SearchResultEntry(e)));
                proof {
                    assert(messages_model(out@) =~= before.push(f(es[k])));
                    assert(es.subrange(0, k + 1).map_values(f) =~= es.subrange(0, k).map_values(f).push(f(es[k])));
                }
            }
            let ghost before = messages_model(out@);
            out.push(reply_msg(id, ProtocolOp::SearchResultDone(ldap_success())));
            proof {
                assert(es.subrange(0, n as int) =~= es);
                assert(messages_model(out@) =~= before.push(reply(id, OpModel::SearchResultDone(success_model()))));
            }
            Ok(out)
        },
    }
}

/// The messages that answer extended request `id` when the directory gave `outcome`.
pub fn extended_replies(id: i32, outcome: ProtoResult<ExtendedResponse>) -> (r: ProtoResult<Vec<LdapMessage>>)
    ensures
        answers(r) == extended_answer(id, extended_of(outcome)),
{
    match outcome {
        Ok(x) => Ok(one_reply(id, ProtocolOp::ExtendedResponse(x))),
        Err(e) => Err(e),
    }
}

/// The entry a rename adds: the new DN, without attributes.
pub open spec fn renamed_entry(q: super::model::ModifyDnModel) -> AddRequestModel {
    AddRequestModel { dn: new_dn_spec(q.new_rdn, q.new_superior), attributes: Seq::empty() }
}

/// Answers one request with the messages to send back. Each request that the directory
/// answers is handed to it as it came (a rename as a delete of the old DN and, when that
/// succeeds, an add of the new one), and the answer carries exactly what the directory
/// gave back; a directory error ends the exchange. Unbind and abandon get no answer, and
/// anything that is not a request gets a protocol error.
pub fn handle_message<B: LdapBackend>(backend: &mut B, message: LdapMessage) -> (r: ProtoResult<Vec<LdapMessage>>)
    ensures
        r matches Ok(v) ==> replies_fit(message@, messages_model(v@)),
        !uses_backend(message@.op) ==> r is Ok,
        ({
            let id = message@.message_id;
            let s = old(backend).state();
            match message@.op {
                OpModel::BindRequest(q) => answers(r) == result_answer(id, ResponseKind::Bind, B::bind_outcome(s, q))
                    && *final(backend) == *old(backend),
                OpModel::SearchRequest(q) => answers(r) == search_answer(id, B::search_outcome(s, q))
                    && *final(backend) == *old(backend),
                OpModel::AddRequest(q) => answers(r) == result_answer(id, ResponseKind::Add, B::add_outcome(s, q))
                    && final(backend).state() == B::after_add(s, q),
                OpModel::ModifyRequest(q) => answers(r) == result_answer(id, ResponseKind::Modify, B::modify_outcome(s, q))
                    && final(backend).state() == B::after_modify(s, q),
                OpModel::DelRequest(dn) => answers(r) == result_answer(id, ResponseKind::Delete, B::delete_outcome(s, dn))
                    && final(backend).state() == B::after_delete(s, dn),
                OpModel::CompareRequest(q) => answers(r) == result_answer(id, ResponseKind::Compare, B::compare_outcome(s, q))
                    && *final(backend) == *old(backend),
                OpModel::ExtendedRequest(q) => answers(r) == extended_answer(id, B::extended_outcome(s, q))
                    && *final(backend) == *old(backend),
                OpModel::ModifyDnRequest(q) => {
                    let s1 = B::after_delete(s, q.dn);
                    match B::delete_outcome(s, q.dn) {
                        Err(e) => r == Err::<Vec<LdapMessage>, ProtoError>(e) && final(backend).state() == s1,
                        Ok(d) => if d.code == ResultCode::Success {
                            &&& answers(r) == result_answer(id, ResponseKind::ModifyDn, B::add_outcome(s1, renamed_entry(q)))
                            &&& final(backend).state() == B::after_add(s1, renamed_entry(q))
                        } else {
                            &&& answers(r) == Ok::<Seq<MessageModel>, ProtoError>(seq![reply(id, OpModel::ModifyDnResponse(d))])
                            &&& final(backend).state() == s1
                        },
                    }
                },
                OpModel::UnbindRequest => answers(r) == Ok::<Seq<MessageModel>, ProtoError>(Seq::empty())
                    && *final(backend) == *old(backend),
                OpModel::AbandonRequest(_) => answers(r) == Ok::<Seq<MessageModel>, ProtoError>(Seq::empty())
                    && *final(backend) == *old(backend),
                _ => answers(r) == Ok::<Seq<MessageModel>, ProtoError>(seq![unsupported_reply(id)])
                    && *final(backend) == *old(backend),
            }
        }),
{
    let msg_id = message.message_id;
    match message.op {
        ProtocolOp::BindRequest(req) => result_replies(msg_id, ResponseKind::Bind, backend.bind(&req)),
        ProtocolOp::SearchRequest(req) => {
            let r = search_replies(msg_id, backend.search(&req));
            r
        },
        ProtocolOp::AddRequest(req) => result_replies(msg_id, ResponseKind::Add, backend.add(&req)),
        ProtocolOp::ModifyRequest(req) => result_replies(msg_id, ResponseKind::Modify, backend.modify(&req)),
        ProtocolOp::DelRequest(dn) => result_replies(msg_id, ResponseKind::Delete, backend.delete(dn.as_str())),
        ProtocolOp::ModifyDnRequest(req) => {
            match backend.delete(req.dn.as_str()) {
                Err(e) => Err(e),
                Ok(result) => {
                    if matches!(result.code, ResultCode::Success) {
                        let dn = new_dn(&req);
                        let attributes: Vec<Attribute> = Vec::new();
                        let add = AddRequest { dn, attributes };
                        proof {
                            assert(attributes_model(add.attributes@) =~= Seq::<AttributeModel>::empty());
                            assert(add@ == renamed_entry(req@));
                        }
                        result_replies(msg_id, ResponseKind::ModifyDn, backend.add(&add))
                    } else {
                        result_replies(msg_id, ResponseKind::ModifyDn, Ok(result))
                    }
                },
            }
        },
        ProtocolOp::CompareRequest(req) => result_replies(msg_id, ResponseKind::Compare, backend.compare(&req)),
        ProtocolOp::ExtendedRequest(req) => extended_replies(msg_id, backend.extended(&req)),
        ProtocolOp::UnbindRequest => {
            let v: Vec<LdapMessage> = Vec::new();
            assert(messages_model(v@) =~= Seq::<MessageModel>::empty());
            Ok(v)
        },
        ProtocolOp::AbandonRequest(_) => {
            let v: Vec<LdapMessage> = Vec::new();
            assert(messages_model(v@) =~= Seq::<MessageModel>::empty());
            Ok(v)
        },
        _ => {
            let result = result_text(ResultCode::ProtocolError, String::new(), "unsupported request");
            let v = one_reply(msg_id, ProtocolOp::BindResponse(BindResponse { result, server_sasl_creds: None }));
            Ok(v)
        },
    }
}

} // verus!