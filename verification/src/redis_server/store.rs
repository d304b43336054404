//! The keyspace of a Redis server: numbered databases of strings and hashes.
use vstd::prelude::*;
use crate::ascii::{int_text, parse_i64, parse_i64_spec, push_int};
use crate::error::{ProtoError, ProtoResult};
use crate::wire::bytes_eq;

verus! {

/// A stored value: a string, or a hash of fields to values.
pub enum RedisValue {
    String(Vec<u8>),
    Hash(Vec<(Vec<u8>, Vec<u8>)>),
}

/// A hash as a value: its fields and values, in the order they were first set.
pub type HashModel = Seq<(Seq<u8>, Seq<u8>)>;

/// A stored value as a value.
pub enum ValueModel {
    Str(Seq<u8>),
    Hash(HashModel),
}

/// The pairs of a hash as byte sequences.
pub open spec fn pairs_view(h: Seq<(Vec<u8>, Vec<u8>)>) -> HashModel {
    h.map_values(|p: (Vec<u8>, Vec<u8>)| (p.0@, p.1@))
}

impl View for RedisValue {
    type V = ValueModel;

    open spec fn view(&self) -> ValueModel {
        match self {
            RedisValue::String(v) => ValueModel::Str(v@),
            RedisValue::Hash(h) => ValueModel::Hash(pairs_view(h@)),
        }
    }
}

/// A database as a value: its keys with their values, in the order they were first set.
pub type DbModel = Seq<(Seq<u8>, ValueModel)>;

/// The keyspace as a value: its databases, by number.
pub type StoreModel = Seq<DbModel>;

/// The position of `k` among the first components of `s` from `i` on.
pub open spec fn key_index_from<V>(s: Seq<(Seq<u8>, V)>, k: Seq<u8>, i: int) -> Option<int>
    decreases s.len() - i,
{
    if i < 0 || i >= s.len() {
        None
    } else if s[i].0 == k {
        Some(i)
    } else {
        key_index_from(s, k, i + 1)
    }
}

/// The value of `k` in an association list.
pub open spec fn assoc_get<V>(s: Seq<(Seq<u8>, V)>, k: Seq<u8>) -> Option<V> {
    match key_index_from(s, k, 0) {
        Some(i) => Some(s[i].1),
        None => None,
    }
}

/// The list with `k` set to `v`: in place when present, else at the end.
pub open spec fn assoc_insert<V>(s: Seq<(Seq<u8>, V)>, k: Seq<u8>, v: V) -> Seq<(Seq<u8>, V)> {
    match key_index_from(s, k, 0) {
        Some(i) => s.update(i, (k, v)),
        None => s.push((k, v)),
    }
}

/// The list without `k`.
pub open spec fn assoc_remove<V>(s: Seq<(Seq<u8>, V)>, k: Seq<u8>) -> Seq<(Seq<u8>, V)> {
    match key_index_from(s, k, 0) {
        Some(i) => s.remove(i),
        None => s,
    }
}

/// No key occurs twice.
pub open spec fn assoc_wf<V>(s: Seq<(Seq<u8>, V)>) -> bool {
    forall|i: int, j: int| 0 <= i < j < s.len() ==> (#[trigger] s[i]).0 != (#[trigger] s[j]).0
}

/// Every database and every hash has unique keys.
pub open spec fn store_wf(s: StoreModel) -> bool {
    forall|d: int| 0 <= d < s.len() ==> db_wf(#[trigger] s[d])
}

/// A database and each of its hashes have unique keys.
pub open spec fn db_wf(db: DbModel) -> bool {
    &&& assoc_wf(db)
    &&& forall|i: int| 0 <= i < db.len() ==> ((#[trigger] db[i]).1 matches ValueModel::Hash(h) ==> assoc_wf(h))
}

/// The keyspace.
pub struct RedisStore {
    dbs: Vec<Vec<(Vec<u8>, RedisValue)>>,
}

/// A database as a value.
pub open spec fn db_view(db: Seq<(Vec<u8>, RedisValue)>) -> DbModel {
    db.map_values(|e: (Vec<u8>, RedisValue)| (e.0@, e.1@))
}

impl View for RedisStore {
    type V = StoreModel;

    closed spec fn view(&self) -> StoreModel {
        self.dbs@.map_values(|db: Vec<(Vec<u8>, RedisValue)>| db_view(db@))
    }
}

impl RedisStore {
    /// Each database, and each hash in it, holds every key once.
    #[verifier::type_invariant]
    pub open spec fn keys_distinct(self) -> bool {
        store_wf(self@)
    }
}

/// The error for a database number out of range.
pub open spec fn invalid_db() -> ProtoError {
    ProtoError::Message("invalid database")
}

/// The error for an operation on a value of the other kind.
pub open spec fn wrong_type() -> ProtoError {
    ProtoError::Message("WRONGTYPE")
}

pub proof fn lemma_key_index<V>(s: Seq<(Seq<u8>, V)>, k: Seq<u8>, i: int)
    requires
        0 <= i,
    ensures
        key_index_from(s, k, i) matches Some(j) ==> i <= j < s.len() && s[j].0 == k,
        key_index_from(s, k, i) is None ==> forall|j: int| i <= j < s.len() ==> s[j].0 != k,
    decreases s.len() - i,
{
    if i < s.len() && s[i].0 != k {
        lemma_key_index(s, k, i + 1);
    }
}

/// Setting a key keeps keys unique, and reading it back gives the value set; other keys
/// keep their values. Removing a key keeps keys unique, the key reads as absent, and other
/// keys keep their values.
pub proof fn lemma_assoc_laws<V>(s: Seq<(Seq<u8>, V)>, k: Seq<u8>, v: V, other: Seq<u8>)
    requires
        assoc_wf(s),
    ensures
        assoc_wf(assoc_insert(s, k, v)),
        assoc_get(assoc_insert(s, k, v), k) == Some(v),
        other != k ==> assoc_get(assoc_insert(s, k, v), other) == assoc_get(s, other),
        assoc_wf(assoc_remove(s, k)),
        assoc_get(assoc_remove(s, k), k) is None,
        other != k ==> assoc_get(assoc_remove(s, k), other) == assoc_get(s, other),
{
    lemma_key_index(s, k, 0);
    lemma_key_index(s, other, 0);
    let a = assoc_insert(s, k, v);
    let r = assoc_remove(s, k);
    lemma_key_index(a, k, 0);
    lemma_key_index(a, other, 0);
    lemma_key_index(r, k, 0);
    lemma_key_index(r, other, 0);
    match key_index_from(s, k, 0) {
        Some(m) => {
            assert(a[m].0 == k);
            assert forall|x: int, y: int| 0 <= x < y < a.len() implies (#[trigger] a[x]).0 != (#[trigger] a[y]).0 by {
                assert(a[x].0 == s[x].0 && a[y].0 == s[y].0);
            }
            assert forall|x: int, y: int| 0 <= x < y < r.len() implies (#[trigger] r[x]).0 != (#[trigger] r[y]).0 by {
                let p = if x < m { x } else { x + 1 };
                let q = if y < m { y } else { y + 1 };
                assert(r[x] == s[p] && r[y] == s[q]);
            }
            assert forall|j: int| 0 <= j < r.len() implies r[j].0 != k by {
                let p = if j < m { j } else { j + 1 };
                assert(r[j] == s[p]);
                if p != m {
                    assert(s[p].0 != s[m].0);
                }
            }
            if other != k {
                match key_index_from(s, other, 0) {
                    Some(n) => {
                        assert(a[n] == s[n]);
                        assert(key_index_from(a, other, 0) == Some(n));
                        let p = if n < m { n } else { n - 1 };
                        assert(r[p] == s[n]);
                        assert(key_index_from(r, other, 0) == Some(p));
                    },
                    None => {
                        assert forall|j: int| 0 <= j < r.len() implies r[j].0 != other by {
                            let p = if j < m { j } else { j + 1 };
                            assert(r[j] == s[p]);
                        }
                    },
                }
            }
        },
        None => {
            assert(a[s.len() as int] == (k, v));
            assert forall|x: int, y: int| 0 <= x < y < a.len() implies (#[trigger] a[x]).0 != (#[trigger] a[y]).0 by {
                if y < s.len() {
                    assert(a[x] == s[x] && a[y] == s[y]);
                }
            }
            if other != k {
                match key_index_from(s, other, 0) {
                    Some(n) => {
                        assert(a[n] == s[n]);
                        assert(key_index_from(a, other, 0) == Some(n));
                    },
                    None => {},
                }
            }
        },
    }
}

fn find_key(db: &Vec<(Vec<u8>, RedisValue)>, k: &[u8]) -> (r: Option<usize>)
    ensures
        r matches Some(i) ==> key_index_from(db_view(db@), k@, 0) == Some(i as int) && i < db@.len(),
        r is None ==> key_index_from(db_view(db@), k@, 0) is None,
{
    proof {
        lemma_key_index(db_view(db@), k@, 0);
    }
    let mut i: usize = 0;
    while i < db.len()
        invariant
            i <= db.len(),
            key_index_from(db_view(db@), k@, 0) == key_index_from(db_view(db@), k@, i as int),
        decreases db.len() - i,
    {
        assert(db_view(db@)[i as int].0 == db@[i as int].0@);
        if bytes_eq(db[i].0.as_slice(), k) {
            return Some(i);
        }
        i = i + 1;
    }
    None
}

fn find_field(h: &Vec<(Vec<u8>, Vec<u8>)>, f: &[u8]) -> (r: Option<usize>)
    ensures
        r matches Some(i) ==> key_index_from(pairs_view(h@), f@, 0) == Some(i as int) && i < h@.len(),
        r is None ==> key_index_from(pairs_view(h@), f@, 0) is None,
{
    proof {
        lemma_key_index(pairs_view(h@), f@, 0);
    }
    let mut i: usize = 0;
    while i < h.len()
        invariant
            i <= h.len(),
            key_index_from(pairs_view(h@), f@, 0) == key_index_from(pairs_view(h@), f@, i as int),
        decreases h.len() - i,
    {
        assert(pairs_view(h@)[i as int].0 == h@[i as int].0@);
        if bytes_eq(h[i].0.as_slice(), f) {
            return Some(i);
        }
        i = i + 1;
    }
    None
}

fn copy_bytes(b: &Vec<u8>) -> (r: Vec<u8>)
    ensures
        r@ == b@,
{
    let r = crate::wire::copy_range(b.as_slice(), 0, b.len());
    assert(r@ =~= b@);
    r
}

/// The value of `k` in database `d`.
pub open spec fn store_get(s: StoreModel, d: int, k: Seq<u8>) -> Option<ValueModel> {
    assoc_get(s[d], k)
}

/// The keyspace with `k` set to `v` in database `d`.
pub open spec fn store_set(s: StoreModel, d: int, k: Seq<u8>, v: ValueModel) -> StoreModel {
    s.update(d, assoc_insert(s[d], k, v))
}

/// The keyspace without `k` in database `d`.
pub open spec fn store_remove(s: StoreModel, d: int, k: Seq<u8>) -> StoreModel {
    s.update(d, assoc_remove(s[d], k))
}

/// The string value of `k`: none for a missing key or a hash.
pub open spec fn string_of(v: Option<ValueModel>) -> Option<Seq<u8>> {
    match v {
        Some(ValueModel::Str(b)) => Some(b),
        _ => None,
    }
}

/// Removing `keys` one after the other: the keyspace after, and how many were present.
pub open spec fn del_spec(s: StoreModel, d: int, keys: Seq<Seq<u8>>) -> (StoreModel, nat)
    decreases keys.len(),
{
    if keys.len() == 0 {
        (s, 0)
    } else {
        let (t, c) = del_spec(s, d, keys.drop_last());
        if store_get(t, d, keys.last()) is Some {
            (store_remove(t, d, keys.last()), c + 1)
        } else {
            (t, c)
        }
    }
}

/// How many of `keys` are present, a key listed twice counting twice.
pub open spec fn exists_spec(s: StoreModel, d: int, keys: Seq<Seq<u8>>) -> nat
    decreases keys.len(),
{
    if keys.len() == 0 {
        0
    } else {
        exists_spec(s, d, keys.drop_last()) + if store_get(s, d, keys.last()) is Some { 1nat } else { 0 }
    }
}

/// Setting `pairs` in hash `h` one after the other: the hash after, and how many fields
/// were new.
pub open spec fn hset_spec(h: HashModel, pairs: Seq<(Seq<u8>, Seq<u8>)>) -> (HashModel, nat)
    decreases pairs.len(),
{
    if pairs.len() == 0 {
        (h, 0)
    } else {
        let (g, c) = hset_spec(h, pairs.drop_last());
        let (f, v) = pairs.last();
        (assoc_insert(g, f, v), c + if assoc_get(g, f) is None { 1nat } else { 0 })
    }
}

/// Removing `fields` from hash `h` one after the other: the hash after, and how many were
/// present.
pub open spec fn hdel_spec(h: HashModel, fields: Seq<Seq<u8>>) -> (HashModel, nat)
    decreases fields.len(),
{
    if fields.len() == 0 {
        (h, 0)
    } else {
        let (g, c) = hdel_spec(h, fields.drop_last());
        if assoc_get(g, fields.last()) is Some {
            (assoc_remove(g, fields.last()), c + 1)
        } else {
            (g, c)
        }
    }
}

/// The keys of a list, as byte sequences.
pub open spec fn keys_view(keys: Seq<Vec<u8>>) -> Seq<Seq<u8>> {
    keys.map_values(|k: Vec<u8>| k@)
}

proof fn lemma_store_set_wf(s: StoreModel, d: int, k: Seq<u8>, v: ValueModel)
    requires
        store_wf(s),
        0 <= d < s.len(),
        v matches ValueModel::Hash(h) ==> assoc_wf(h),
    ensures
        store_wf(store_set(s, d, k, v)),
        store_wf(store_remove(s, d, k)),
        db_wf(assoc_insert(s[d], k, v)),
        db_wf(assoc_remove(s[d], k)),
{
    lemma_assoc_laws(s[d], k, v, k);
    let db = s[d];
    let a = assoc_insert(db, k, v);
    let r = assoc_remove(db, k);
    lemma_key_index(db, k, 0);
    assert forall|i: int| 0 <= i < a.len() implies ((#[trigger] a[i]).1 matches ValueModel::Hash(h) ==> assoc_wf(h)) by {
        match key_index_from(db, k, 0) {
            Some(m) => {
                if i != m {
                    assert(a[i] == db[i]);
                }
            },
            None => {
                if i < db.len() {
                    assert(a[i] == db[i]);
                }
            },
        }
    }
    assert forall|i: int| 0 <= i < r.len() implies ((#[trigger] r[i]).1 matches ValueModel::Hash(h) ==> assoc_wf(h)) by {
        match key_index_from(db, k, 0) {
            Some(m) => {
                let p = if i < m { i } else { i + 1 };
                assert(r[i] == db[p]);
            },
            None => {},
        }
    }
    let s2 = store_set(s, d, k, v);
    assert forall|e: int| 0 <= e < s2.len() implies db_wf(#[trigger] s2[e]) by {
        if e != d {
            assert(s2[e] == s[e]);
        }
    }
    let s3 = store_remove(s, d, k);
    assert forall|e: int| 0 <= e < s3.len() implies db_wf(#[trigger] s3[e]) by {
        if e != d {
            assert(s3[e] == s[e]);
        }
    }
}

fn apply_pairs(h: &mut Vec<(Vec<u8>, Vec<u8>)>, pairs: &[(Vec<u8>, Vec<u8>)]) -> (added: i64)
    requires
        assoc_wf(pairs_view(old(h)@)),
        pairs@.len() <= i64::MAX,
    ensures
        assoc_wf(pairs_view(final(h)@)),
        added >= 0,
        (pairs_view(final(h)@), added as nat) == hset_spec(pairs_view(old(h)@), pairs_view(pairs@)),
{
    let ghost h0 = pairs_view(h@);
    let ghost pv = pairs_view(pairs@);
    let mut added: i64 = 0;
    let mut i: usize = 0;
    while i < pairs.len()
        invariant
            i <= pairs.len(),
            pairs@.len() <= i64::MAX,
            pv == pairs_view(pairs@),
            assoc_wf(pairs_view(h@)),
            (pairs_view(h@), added as nat) == hset_spec(h0, pv.subrange(0, i as int)),
            0 <= added <= i,
        decreases pairs.len() - i,
    {
        let (f, v) = &pairs[i];
        let ghost g = pairs_view(h@);
        proof {
            let pre = pv.subrange(0, i + 1);
            assert(pre.drop_last() =~= pv.subrange(0, i as int));
            assert(pre.last() == (f@, v@));
            lemma_assoc_laws(g, f@, v@, f@);
        }
        match find_field(h, f.as_slice()) {
            Some(k) => {
                h.set(k, (copy_bytes(f), copy_bytes(v)));
                assert(pairs_view(h@) =~= assoc_insert(g, f@, v@));
            },
            None => {
                h.push((copy_bytes(f), copy_bytes(v)));
                added = added + 1;
                assert(pairs_view(h@) =~= assoc_insert(g, f@, v@));
            },
        }
        i = i + 1;
    }
    assert(pv.subrange(0, i as int) =~= pv);
    added
}

fn remove_fields(h: &mut Vec<(Vec<u8>, Vec<u8>)>, fields: &[Vec<u8>]) -> (removed: i64)
    requires
        assoc_wf(pairs_view(old(h)@)),
        fields@.len() <= i64::MAX,
    ensures
        assoc_wf(pairs_view(final(h)@)),
        removed >= 0,
        (pairs_view(final(h)@), removed as nat) == hdel_spec(pairs_view(old(h)@), keys_view(fields@)),
{
    let ghost h0 = pairs_view(h@);
    let ghost fv = keys_view(fields@);
    let mut removed: i64 = 0;
    let mut i: usize = 0;
    while i < fields.len()
        invariant
            i <= fields.len(),
            fields@.len() <= i64::MAX,
            fv == keys_view(fields@),
            assoc_wf(pairs_view(h@)),
            (pairs_view(h@), removed as nat) == hdel_spec(h0, fv.subrange(0, i as int)),
            0 <= removed <= i,
        decreases fields.len() - i,
    {
        let ghost g = pairs_view(h@);
        proof {
            let pre = fv.subrange(0, i + 1);
            assert(pre.drop_last() =~= fv.subrange(0, i as int));
            assert(pre.last() == fields@[i as int]@);
            lemma_assoc_laws(g, fields@[i as int]@, Seq::<u8>::empty(), fields@[i as int]@);
        }
        match find_field(h, fields[i].as_slice()) {
            Some(k) => {
                h.remove(k);
                removed = removed + 1;
                assert(pairs_view(h@) =~= assoc_remove(g, fields@[i as int]@));
            },
            None => {},
        }
        i = i + 1;
    }
    assert(fv.subrange(0, i as int) =~= fv);
    removed
}

impl RedisStore {
    /// A keyspace of `databases` empty databases, at least one.
    pub fn new(databases: usize) -> (s: RedisStore)
        ensures
            s@.len() == if databases == 0 { 1 } else { databases },
            forall|d: int| 0 <= d < s@.len() ==> (#[trigger] s@[d]).len() == 0,
            store_wf(s@),
    {
        let n = if databases == 0 { 1 } else { databases };
        let mut dbs: Vec<Vec<(Vec<u8>, RedisValue)>> = Vec::new();
        let mut i: usize = 0;
        while i < n
            invariant
                i <= n,
                dbs@.len() == i,
                forall|d: int| 0 <= d < i ==> (#[trigger] dbs@[d])@.len() == 0,
            decreases n - i,
        {
            dbs.push(Vec::new());
            i = i + 1;
        }
        let s = RedisStore { dbs };
        assert forall|d: int| 0 <= d < s@.len() implies db_wf(#[trigger] s@[d]) by {
            assert(s@[d].len() == 0);
        }
        s
    }

    fn take_db(&mut self, d: usize) -> (db: Vec<(Vec<u8>, RedisValue)>)
        requires
            d < old(self).dbs.len(),
        ensures
            db_view(db@) == old(self)@[d as int],
            final(self).dbs@ == old(self).dbs@.remove(d as int),
    {
        proof {
            use_type_invariant(&*self);
        }
        let ghost before = self@;
        let mut dbs: Vec<Vec<(Vec<u8>, RedisValue)>> = Vec::new();
        std::mem::swap(&mut dbs, &mut self.dbs);
        let db = dbs.remove(d);
        proof {
            let after = dbs@.map_values(|x: Vec<(Vec<u8>, RedisValue)>| db_view(x@));
            assert(after =~= before.remove(d as int));
            assert forall|e: int| 0 <= e < after.len() implies db_wf(#[trigger] after[e]) by {
                let p = if e < d { e } else { e + 1 };
                assert(after[e] == before[p]);
            }
        }
        self.dbs = dbs;
        db
    }

    fn put_db(&mut self, d: usize, db: Vec<(Vec<u8>, RedisValue)>)
        requires
            d <= old(self).dbs.len(),
            db_wf(db_view(db@)),
        ensures
            final(self).dbs@ == old(self).dbs@.insert(d as int, db),
    {
        proof {
            use_type_invariant(&*self);
        }
        let ghost before = self@;
        let ghost dv = db_view(db@);
        let mut dbs: Vec<Vec<(Vec<u8>, RedisValue)>> = Vec::new();
        std::mem::swap(&mut dbs, &mut self.dbs);
        dbs.insert(d, db);
        proof {
            let after = dbs@.map_values(|x: Vec<(Vec<u8>, RedisValue)>| db_view(x@));
            assert(after =~= before.insert(d as int, dv));
            assert forall|e: int| 0 <= e < after.len() implies db_wf(#[trigger] after[e]) by {
                if e < d {
                    assert(after[e] == before[e]);
                } else if e > d {
                    assert(after[e] == before[e - 1]);
                }
            }
        }
        self.dbs = dbs;
    }

    /// Sets `key` to the string `value` in database `db`.
    pub fn set_string(&mut self, db: usize, key: Vec<u8>, value: Vec<u8>) -> (r: ProtoResult<()>)
        ensures
            store_wf(final(self)@),
            db >= old(self)@.len() ==> r == Err::<(), ProtoError>(invalid_db()) && final(self)@ == old(self)@,
            db < old(self)@.len() ==> r is Ok && final(self)@ == store_set(
                old(self)@,
                db as int,
                key@,
                ValueModel::Str(value@),
            ),
    {
        proof {
            use_type_invariant(&*self);
        }
        if db >= self.dbs.len() {
            return Err(ProtoError::Message("invalid database"));
        }
        let ghost before = self@;
        proof {
            lemma_store_set_wf(before, db as int, key@, ValueModel::Str(value@));
        }
        let mut d = self.take_db(db);
        let ghost kv = key@;
        let ghost vv = value@;
        match find_key(&d, key.as_slice()) {
            Some(i) => {
                d.set(i, (key, RedisValue::String(value)));
                assert(db_view(d@) =~= assoc_insert(before[db as int], kv, ValueModel::Str(vv)));
            },
            None => {
                d.push((key, RedisValue::String(value)));
                assert(db_view(d@) =~= assoc_insert(before[db as int], kv, ValueModel::Str(vv)));
            },
        }
        self.put_db(db, d);
        assert(self@ =~= store_set(before, db as int, kv, ValueModel::Str(vv)));
        Ok(())
    }

    fn lookup(&self, db: usize, key: &[u8]) -> (r: Option<&RedisValue>)
        requires
            db < self@.len(),
        ensures
            match r {
                Some(v) => store_get(self@, db as int, key@) == Some(v@),
                None => store_get(self@, db as int, key@) is None,
            },
    {
        let d = &self.dbs[db];
        assert(db_view(d@) == self@[db as int]);
        match find_key(d, key) {
            Some(i) => {
                assert(db_view(d@)[i as int] == (d@[i as int].0@, d@[i as int].1@));
                Some(&d[i].1)
            },
            None => None,
        }
    }

    /// The string value of `key` in database `db`: none for a missing key or a hash.
    pub fn get_string(&self, db: usize, key: &[u8]) -> (r: ProtoResult<Option<Vec<u8>>>)
        ensures
            db >= self@.len() ==> r == Err::<Option<Vec<u8>>, ProtoError>(invalid_db()),
            db < self@.len() ==> (r matches Ok(v) && match v {
                Some(b) => string_of(store_get(self@, db as int, key@)) == Some(b@),
                None => string_of(store_get(self@, db as int, key@)) is None,
            }),
    {
        if db >= self.dbs.len() {
            return Err(ProtoError::Message("invalid database"));
        }
        match self.lookup(db, key) {
            Some(RedisValue::String(v)) => Ok(Some(copy_bytes(v))),
            _ => Ok(None),
        }
    }

    /// Whether `key` is present in database `db`.
    pub fn contains(&self, db: usize, key: &[u8]) -> (r: bool)
        requires
            db < self@.len(),
        ensures
            r == (store_get(self@, db as int, key@) is Some),
    {
        self.lookup(db, key).is_some()
    }

    fn remove_key(&mut self, db: usize, key: &[u8]) -> (removed: bool)
        requires
            db < old(self)@.len(),
        ensures
            store_wf(final(self)@),
            removed == (store_get(old(self)@, db as int, key@) is Some),
            final(self)@ == store_remove(old(self)@, db as int, key@),
    {
        proof {
            use_type_invariant(&*self);
        }
        let ghost before = self@;
        proof {
            lemma_store_set_wf(before, db as int, key@, ValueModel::Str(Seq::empty()));
        }
        let mut d = self.take_db(db);
        let found = find_key(&d, key);
        let removed = match found {
            Some(i) => {
                d.remove(i);
                assert(db_view(d@) =~= assoc_remove(before[db as int], key@));
                true
            },
            None => {
                assert(db_view(d@) =~= assoc_remove(before[db as int], key@));
                false
            },
        };
        self.put_db(db, d);
        assert(self@ =~= store_remove(before, db as int, key@));
        removed
    }

    /// Removes `keys` from database `db`, one after the other, and counts those present.
    pub fn del_keys(&mut self, db: usize, keys: &[Vec<u8>]) -> (r: ProtoResult<i64>)
        requires
            keys@.len() <= i64::MAX,
        ensures
            store_wf(final(self)@),
            db >= old(self)@.len() ==> r == Err::<i64, ProtoError>(invalid_db()) && final(self)@ == old(self)@,
            db < old(self)@.len() ==> ({
                let (t, c) = del_spec(old(self)@, db as int, keys_view(keys@));
                r == Ok::<i64, ProtoError>(c as i64) && final(self)@ == t
            }),
    {
        proof {
            use_type_invariant(&*self);
        }
        if db >= self.dbs.len() {
            return Err(ProtoError::Message("invalid database"));
        }
        let ghost start = self@;
        let ghost ks = keys_view(keys@);
        let mut removed: i64 = 0;
        let mut i: usize = 0;
        while i < keys.len()
            invariant
                i <= keys.len(),
                keys@.len() <= i64::MAX,
                db < self@.len(),
                ks == keys_view(keys@),
                store_wf(self@),
                self@.len() == start.len(),
                (self@, removed as nat) == del_spec(start, db as int, ks.subrange(0, i as int)),
                0 <= removed <= i,
            decreases keys.len() - i,
        {
            proof {
                let pre = ks.subrange(0, i + 1);
                assert(pre.drop_last() =~= ks.subrange(0, i as int));
                assert(pre.last() == keys@[i as int]@);
            }
            if self.remove_key(db, keys[i].as_slice()) {
                removed = removed + 1;
            }
            i = i + 1;
        }
        assert(ks.subrange(0, i as int) =~= ks);
        Ok(removed)
    }

    /// How many of `keys` are present in database `db`.
    pub fn count_existing(&self, db: usize, keys: &[Vec<u8>]) -> (r: ProtoResult<i64>)
        requires
            keys@.len() <= i64::MAX,
        ensures
            db >= self@.len() ==> r == Err::<i64, ProtoError>(invalid_db()),
            db < self@.len() ==> r == Ok::<i64, ProtoError>(exists_spec(self@, db as int, keys_view(keys@)) as i64),
    {
        if db >= self.dbs.len() {
            return Err(ProtoError::Message("invalid database"));
        }
        let ghost ks = keys_view(keys@);
        let mut count: i64 = 0;
        let mut i: usize = 0;
        while i < keys.len()
            invariant
                i <= keys.len(),
                keys@.len() <= i64::MAX,
                db < self@.len(),
                ks == keys_view(keys@),
                count as nat == exists_spec(self@, db as int, ks.subrange(0, i as int)),
                0 <= count <= i,
            decreases keys.len() - i,
        {
            proof {
                let pre = ks.subrange(0, i + 1);
                assert(pre.drop_last() =~= ks.subrange(0, i as int));
                assert(pre.last() == keys@[i as int]@);
            }
            if self.contains(db, keys[i].as_slice()) {
                count = count + 1;
            }
            i = i + 1;
        }
        assert(ks.subrange(0, i as int) =~= ks);
        Ok(count)
    }

    /// Adds `delta` to the integer that `key` holds in database `db` (0 when missing) and
    /// stores the sum as text: a hash, text that is not an integer, or a sum out of range is
    /// an error that changes nothing.
    pub fn incr_by(&mut self, db: usize, key: Vec<u8>, delta: i64) -> (r: ProtoResult<i64>)
        ensures
            store_wf(final(self)@),
            db >= old(self)@.len() ==> r == Err::<i64, ProtoError>(invalid_db()) && final(self)@ == old(self)@,
            db < old(self)@.len() ==> match store_get(old(self)@, db as int, key@) {
                Some(ValueModel::Hash(_)) => r == Err::<i64, ProtoError>(wrong_type()) && final(self)@ == old(self)@,
                Some(ValueModel::Str(t)) if parse_i64_spec(t) is None => r == Err::<i64, ProtoError>(
                    ProtoError::Parse("invalid number"),
                ) && final(self)@ == old(self)@,
                v => {
                    let cur: int = match v {
                        Some(ValueModel::Str(t)) => parse_i64_spec(t)->0 as int,
                        _ => 0,
                    };
                    if cur + delta < i64::MIN || cur + delta > i64::MAX {
                        r == Err::<i64, ProtoError>(ProtoError::Message("overflow")) && final(self)@ == old(self)@
                    } else {
                        r == Ok::<i64, ProtoError>((cur + delta) as i64) && final(self)@ == store_set(
                            old(self)@,
                            db as int,
                            key@,
                            ValueModel::Str(int_text(cur + delta)),
                        )
                    }
                },
            },
    {
        proof {
            use_type_invariant(&*self);
        }
        if db >= self.dbs.len() {
            return Err(ProtoError::Message("invalid database"));
        }
        let current: i64 = match self.lookup(db, key.as_slice()) {
            Some(RedisValue::String(v)) => match parse_i64(v.as_slice()) {
                Some(x) => x,
                None => {
                    return Err(ProtoError::Parse("invalid number"));
                },
            },
            Some(RedisValue::Hash(_)) => {
                return Err(ProtoError::Message("WRONGTYPE"));
            },
            None => 0,
        };
        let sum = match current.checked_add(delta) {
            Some(x) => x,
            None => {
                return Err(ProtoError::Message("overflow"));
            },
        };
        let mut text: Vec<u8> = Vec::new();
        push_int(&mut text, sum);
        assert(text@ =~= int_text(sum as int));
        let res = self.set_string(db, key, text);
        Ok(sum)
    }

    /// Sets `pairs` in the hash that `key` holds in database `db`, one after the other, and
    /// counts the fields that were new; a missing key starts an empty hash, a string is an
    /// error that changes nothing.
    pub fn hset(&mut self, db: usize, key: Vec<u8>, pairs: &[(Vec<u8>, Vec<u8>)]) -> (r: ProtoResult<i64>)
        requires
            pairs@.len() <= i64::MAX,
        ensures
            store_wf(final(self)@),
            db >= old(self)@.len() ==> r == Err::<i64, ProtoError>(invalid_db()) && final(self)@ == old(self)@,
            db < old(self)@.len() ==> match store_get(old(self)@, db as int, key@) {
                Some(ValueModel::Str(_)) => r == Err::<i64, ProtoError>(wrong_type()) && final(self)@ == old(self)@,
                v => {
                    let h: HashModel = match v {
                        Some(ValueModel::Hash(h)) => h,
                        _ => Seq::empty(),
                    };
                    let (h2, c) = hset_spec(h, pairs_view(pairs@));
                    r == Ok::<i64, ProtoError>(c as i64) && final(self)@ == store_set(
                        old(self)@,
                        db as int,
                        key@,
                        ValueModel::Hash(h2),
                    )
                },
            },
    {
        proof {
            use_type_invariant(&*self);
        }
        if db >= self.dbs.len() {
            return Err(ProtoError::Message("invalid database"));
        }
        let ghost before = self@;
        let ghost kv = key@;
        let ghost old_db = before[db as int];
        proof {
            assert(db_wf(old_db));
            lemma_key_index(old_db, kv, 0);
        }
        let mut d = self.take_db(db);
        match find_key(&d, key.as_slice()) {
            Some(i) => {
                let (k, v) = d.remove(i);
                match v {
                    RedisValue::String(t) => {
                        d.insert(i, (k, RedisValue::String(t)));
                        assert(db_view(d@) =~= old_db);
                        self.put_db(db, d);
                        assert(self@ =~= before);
                        return Err(ProtoError::Message("WRONGTYPE"));
                    },
                    RedisValue::Hash(h) => {
                        let mut h = h;
                        assert(old_db[i as int].1 == ValueModel::Hash(pairs_view(h@)));
                        let added = apply_pairs(&mut h, pairs);
                        let ghost hv = pairs_view(h@);
                        proof {
                            lemma_store_set_wf(before, db as int, kv, ValueModel::Hash(hv));
                        }
                        d.insert(i, (key, RedisValue::Hash(h)));
                        assert(db_view(d@) =~= assoc_insert(old_db, kv, ValueModel::Hash(hv)));
                        self.put_db(db, d);
                        assert(self@ =~= store_set(before, db as int, kv, ValueModel::Hash(hv)));
                        Ok(added)
                    },
                }
            },
            None => {
                let mut h: Vec<(Vec<u8>, Vec<u8>)> = Vec::new();
                assert(pairs_view(h@) =~= Seq::<(Seq<u8>, Seq<u8>)>::empty());
                let added = apply_pairs(&mut h, pairs);
                let ghost hv = pairs_view(h@);
                proof {
                    lemma_store_set_wf(before, db as int, kv, ValueModel::Hash(hv));
                }
                d.push((key, RedisValue::Hash(h)));
                assert(db_view(d@) =~= assoc_insert(old_db, kv, ValueModel::Hash(hv)));
                self.put_db(db, d);
                assert(self@ =~= store_set(before, db as int, kv, ValueModel::Hash(hv)));
                Ok(added)
            },
        }
    }

    /// The value of `field` in the hash that `key` holds in database `db`: none for a missing
    /// key or field; a string is an error.
    pub fn hget(&self, db: usize, key: &[u8], field: &[u8]) -> (r: ProtoResult<Option<Vec<u8>>>)
        ensures
            db >= self@.len() ==> r == Err::<Option<Vec<u8>>, ProtoError>(invalid_db()),
            db < self@.len() ==> match store_get(self@, db as int, key@) {
                Some(ValueModel::Str(_)) => r == Err::<Option<Vec<u8>>, ProtoError>(wrong_type()),
                Some(ValueModel::Hash(h)) => (r matches Ok(v) && match v {
                    Some(b) => assoc_get(h, field@) == Some(b@),
                    None => assoc_get(h, field@) is None,
                }),
                None => r matches Ok(None),
            },
    {
        if db >= self.dbs.len() {
            return Err(ProtoError::Message("invalid database"));
        }
        match self.lookup(db, key) {
            Some(RedisValue::String(_)) => Err(ProtoError::Message("WRONGTYPE")),
            Some(RedisValue::Hash(h)) => {
                proof {
                    lemma_key_index(pairs_view(h@), field@, 0);
                }
                match find_field(h, field) {
                    Some(i) => {
                        assert(pairs_view(h@)[i as int].1 == h@[i as int].1@);
                        Ok(Some(copy_bytes(&h[i].1)))
                    },
                    None => Ok(None),
                }
            },
            None => Ok(None),
        }
    }

    /// Removes `fields` from the hash that `key` holds in database `db`, one after the
    /// other, and counts those present; a missing key counts 0, a string is an error.
    pub fn hdel(&mut self, db: usize, key: &[u8], fields: &[Vec<u8>]) -> (r: ProtoResult<i64>)
        requires
            fields@.len() <= i64::MAX,
        ensures
            store_wf(final(self)@),
            db >= old(self)@.len() ==> r == Err::<i64, ProtoError>(invalid_db()) && final(self)@ == old(self)@,
            db < old(self)@.len() ==> match store_get(old(self)@, db as int, key@) {
                Some(ValueModel::Str(_)) => r == Err::<i64, ProtoError>(wrong_type()) && final(self)@ == old(self)@,
                Some(ValueModel::Hash(h)) => {
                    let (h2, c) = hdel_spec(h, keys_view(fields@));
                    r == Ok::<i64, ProtoError>(c as i64) && final(self)@ == store_set(
                        old(self)@,
                        db as int,
                        key@,
                        ValueModel::Hash(h2),
                    )
                },
                None => r == Ok::<i64, ProtoError>(0) && final(self)@ == old(self)@,
            },
    {
        proof {
            use_type_invariant(&*self);
        }
        if db >= self.dbs.len() {
            return Err(ProtoError::Message("invalid database"));
        }
        let ghost before = self@;
        let ghost kv = key@;
        let ghost old_db = before[db as int];
        proof {
            assert(db_wf(old_db));
            lemma_key_index(old_db, kv, 0);
        }
        let mut d = self.take_db(db);
        match find_key(&d, key) {
            Some(i) => {
                let (k, v) = d.remove(i);
                match v {
                    RedisValue::String(t) => {
                        d.insert(i, (k, RedisValue::String(t)));
                        assert(db_view(d@) =~= old_db);
                        self.put_db(db, d);
                        assert(self@ =~= before);
                        Err(ProtoError::Message("WRONGTYPE"))
                    },
                    RedisValue::Hash(h) => {
                        let mut h = h;
                        assert(old_db[i as int].1 == ValueModel::Hash(pairs_view(h@)));
                        assert(k@ == kv);
                        let removed = remove_fields(&mut h, fields);
                        let ghost hv = pairs_view(h@);
                        proof {
                            lemma_store_set_wf(before, db as int, kv, ValueModel::Hash(hv));
                        }
                        d.insert(i, (k, RedisValue::Hash(h)));
                        assert(db_view(d@) =~= assoc_insert(old_db, kv, ValueModel::Hash(hv)));
                        self.put_db(db, d);
                        assert(self@ =~= store_set(before, db as int, kv, ValueModel::Hash(hv)));
                        Ok(removed)
                    },
                }
            },
            None => {
                self.put_db(db, d);
                assert(self@ =~= before);
                Ok(0)
            },
        }
    }

    /// The fields and values of the hash that `key` holds in database `db`, in the order
    /// the fields were first set; none for a missing key; a string is an error.
    pub fn hgetall(&self, db: usize, key: &[u8]) -> (r: ProtoResult<Vec<(Vec<u8>, Vec<u8>)>>)
        ensures
            db >= self@.len() ==> r is Err && r == Err::<Vec<(Vec<u8>, Vec<u8>)>, ProtoError>(invalid_db()),
            db < self@.len() ==> match store_get(self@, db as int, key@) {
                Some(ValueModel::Str(_)) => r == Err::<Vec<(Vec<u8>, Vec<u8>)>, ProtoError>(wrong_type()),
                Some(ValueModel::Hash(h)) => (r matches Ok(v) && pairs_view(v@) == h),
                None => (r matches Ok(v) && v@.len() == 0),
            },
    {
        if db >= self.dbs.len() {
            return Err(ProtoError::Message("invalid database"));
        }
        match self.lookup(db, key) {
            Some(RedisValue::String(_)) => Err(ProtoError::Message("WRONGTYPE")),
            Some(RedisValue::Hash(h)) => {
                let mut out: Vec<(Vec<u8>, Vec<u8>)> = Vec::new();
                let mut i: usize = 0;
                while i < h.len()
                    invariant
                        i <= h.len(),
                        pairs_view(out@) == pairs_view(h@).subrange(0, i as int),
                    decreases h.len() - i,
                {
                    let ghost before = pairs_view(out@);
                    let a = copy_bytes(&h[i].0);
                    let b = copy_bytes(&h[i].1);
                    let ghost e = (a@, b@);
                    out.push((a, b));
                    assert(pairs_view(out@) =~= before.push(e));
                    assert(pairs_view(h@)[i as int] == e);
                    assert(pairs_view(out@) =~= pairs_view(h@).subrange(0, i + 1));
                    i = i + 1;
                }
                assert(pairs_view(h@).subrange(0, i as int) =~= pairs_view(h@));
                Ok(out)
            },
            None => Ok(Vec::new()),
        }
    }
}

/// Reading a key back after setting it gives the value set, and after removing it gives
/// nothing; other keys, and other databases, keep their values.
pub proof fn lemma_get_after_set(s: StoreModel, d: int, k: Seq<u8>, v: ValueModel, e: int, other: Seq<u8>)
    requires
        store_wf(s),
        0 <= d < s.len(),
        0 <= e < s.len(),
    ensures
        store_get(store_set(s, d, k, v), d, k) == Some(v),
        store_get(store_remove(s, d, k), d, k) is None,
        (e != d || other != k) ==> store_get(store_set(s, d, k, v), e, other) == store_get(s, e, other),
        (e != d || other != k) ==> store_get(store_remove(s, d, k), e, other) == store_get(s, e, other),
{
    assert(db_wf(s[d]));
    lemma_assoc_laws(s[d], k, v, other);
}

/// HSET reports exactly the fields it adds: the hash grows by the count it returns, so a
/// field that was already set counts nothing.
pub proof fn lemma_hset_counts_new_fields(h: HashModel, pairs: Seq<(Seq<u8>, Seq<u8>)>)
    ensures
        hset_spec(h, pairs).0.len() == h.len() + hset_spec(h, pairs).1,
        forall|f: Seq<u8>, v: Seq<u8>| assoc_get(h, f) is Some ==> #[trigger] hset_spec(h, seq![(f, v)]).1 == 0,
    decreases pairs.len(),
{
    if pairs.len() > 0 {
        lemma_hset_counts_new_fields(h, pairs.drop_last());
        let (g, c) = hset_spec(h, pairs.drop_last());
        lemma_key_index(g, pairs.last().0, 0);
    }
    assert forall|f: Seq<u8>, v: Seq<u8>| assoc_get(h, f) is Some implies #[trigger] hset_spec(h, seq![(f, v)]).1 == 0 by {
        let one = seq![(f, v)];
        assert(one.drop_last() =~= Seq::<(Seq<u8>, Seq<u8>)>::empty());
        assert(hset_spec(h, one.drop_last()) == (h, 0nat));
    }
}

/// HDEL reports exactly the fields it removes: the hash shrinks by the count it returns.
pub proof fn lemma_hdel_counts_removed_fields(h: HashModel, fields: Seq<Seq<u8>>)
    ensures
        hdel_spec(h, fields).0.len() + hdel_spec(h, fields).1 == h.len(),
    decreases fields.len(),
{
    if fields.len() > 0 {
        lemma_hdel_counts_removed_fields(h, fields.drop_last());
        let (g, c) = hdel_spec(h, fields.drop_last());
        lemma_key_index(g, fields.last(), 0);
    }
}

/// HSET keeps the fields of a hash distinct.
proof fn lemma_hset_wf(h: HashModel, pairs: Seq<(Seq<u8>, Seq<u8>)>)
    requires
        assoc_wf(h),
    ensures
        assoc_wf(hset_spec(h, pairs).0),
    decreases pairs.len(),
{
    if pairs.len() > 0 {
        lemma_hset_wf(h, pairs.drop_last());
        let g = hset_spec(h, pairs.drop_last()).0;
        lemma_assoc_laws(g, pairs.last().0, pairs.last().1, pairs.last().0);
    }
}

/// After HSET on a hash whose fields are distinct, the last field it was given reads back
/// the value given with it, and a field it was not given keeps its value.
pub proof fn lemma_hset_reads_back(h: HashModel, pairs: Seq<(Seq<u8>, Seq<u8>)>, other: Seq<u8>)
    requires
        assoc_wf(h),
        pairs.len() > 0,
    ensures
        assoc_get(hset_spec(h, pairs).0, pairs.last().0) == Some(pairs.last().1),
        (forall|i: int| 0 <= i < pairs.len() ==> (#[trigger] pairs[i]).0 != other) ==> assoc_get(
            hset_spec(h, pairs).0,
            other,
        ) == assoc_get(h, other),
    decreases pairs.len(),
{
    let init = pairs.drop_last();
    lemma_hset_wf(h, init);
    let g = hset_spec(h, init).0;
    lemma_assoc_laws(g, pairs.last().0, pairs.last().1, other);
    lemma_assoc_laws(g, pairs.last().0, pairs.last().1, pairs.last().0);
    if forall|i: int| 0 <= i < pairs.len() ==> (#[trigger] pairs[i]).0 != other {
        if init.len() > 0 {
            assert forall|i: int| 0 <= i < init.len() implies (#[trigger] init[i]).0 != other by {
                assert(init[i] == pairs[i]);
            }
            lemma_hset_reads_back(h, init, other);
        }
        assert(pairs[pairs.len() - 1].0 != other);
    }
}

} // verus!
