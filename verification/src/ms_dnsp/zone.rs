//! The zone store of an MS-DNSP server and the answers it gives.
use vstd::prelude::*;
use crate::ms_dnsp::codec::{MsDnspEntry, MsDnspMessage, MsDnspOpcode, MsDnspRData, MsDnspRecord, MsDnspRecordType, RecordModel, entries_view};
use crate::text::str_eq;

verus! {

/// The records of `rs` of type `t`, in order.
pub open spec fn of_type(rs: Seq<RecordModel>, t: MsDnspRecordType) -> Seq<RecordModel>
    decreases rs.len(),
{
    if rs.len() == 0 {
        Seq::empty()
    } else if rs.last().record_type == t {
        of_type(rs.drop_last(), t).push(rs.last())
    } else {
        of_type(rs.drop_last(), t)
    }
}

/// The records of `rs` not of type `t`, in order.
pub open spec fn without_type(rs: Seq<RecordModel>, t: MsDnspRecordType) -> Seq<RecordModel>
    decreases rs.len(),
{
    if rs.len() == 0 {
        Seq::empty()
    } else if rs.last().record_type == t {
        without_type(rs.drop_last(), t)
    } else {
        without_type(rs.drop_last(), t).push(rs.last())
    }
}

/// A zone as a value: each name with its records.
pub type ZoneModel = Seq<(Seq<char>, Seq<RecordModel>)>;

/// The position of `name` in a zone.
pub open spec fn name_index_from(z: ZoneModel, name: Seq<char>, i: int) -> Option<int>
    decreases z.len() - i,
{
    if i < 0 || i >= z.len() {
        None
    } else if z[i].0 == name {
        Some(i)
    } else {
        name_index_from(z, name, i + 1)
    }
}

/// The records of `name` of type `t`.
pub open spec fn zone_get(z: ZoneModel, name: Seq<char>, t: MsDnspRecordType) -> Seq<RecordModel> {
    match name_index_from(z, name, 0) {
        Some(i) => of_type(z[i].1, t),
        None => Seq::empty(),
    }
}

/// The zone after storing `r` under `name`: the name's records of the same type are
/// replaced by `r`, which goes last; a new name goes at the end.
pub open spec fn zone_upsert(z: ZoneModel, name: Seq<char>, r: RecordModel) -> ZoneModel {
    match name_index_from(z, name, 0) {
        Some(i) => z.update(i, (name, without_type(z[i].1, r.record_type).push(r))),
        None => z.push((name, seq![r])),
    }
}

/// No name occurs twice.
pub open spec fn zone_wf(z: ZoneModel) -> bool {
    forall|i: int, j: int| 0 <= i < j < z.len() ==> (#[trigger] z[i]).0 != (#[trigger] z[j]).0
}

/// The records of each name.
pub struct ZoneStore {
    records: Vec<(String, Vec<MsDnspRecord>)>,
}

/// The records of a list, as values.
pub open spec fn records_view(rs: Seq<MsDnspRecord>) -> Seq<RecordModel> {
    rs.map_values(|r: MsDnspRecord| r@)
}

impl View for ZoneStore {
    type V = ZoneModel;

    closed spec fn view(&self) -> ZoneModel {
        self.records@.map_values(|e: (String, Vec<MsDnspRecord>)| (e.0@, records_view(e.1@)))
    }
}

proof fn lemma_name_index(z: ZoneModel, name: Seq<char>, i: int)
    requires
        0 <= i,
    ensures
        name_index_from(z, name, i) matches Some(j) ==> i <= j < z.len() && z[j].0 == name,
        name_index_from(z, name, i) is None ==> forall|j: int| i <= j < z.len() ==> z[j].0 != name,
    decreases z.len() - i,
{
    if i < z.len() && z[i].0 != name {
        lemma_name_index(z, name, i + 1);
    }
}

proof fn lemma_without_of_type(rs: Seq<RecordModel>, t: MsDnspRecordType)
    ensures
        of_type(without_type(rs, t), t) == Seq::<RecordModel>::empty(),
    decreases rs.len(),
{
    if rs.len() > 0 {
        lemma_without_of_type(rs.drop_last(), t);
        if rs.last().record_type != t {
            let w = without_type(rs.drop_last(), t);
            assert(w.push(rs.last()).drop_last() =~= w);
        }
    }
}

proof fn lemma_without_keeps_other(rs: Seq<RecordModel>, t: MsDnspRecordType, u: MsDnspRecordType)
    requires
        t != u,
    ensures
        of_type(without_type(rs, t), u) == of_type(rs, u),
    decreases rs.len(),
{
    if rs.len() > 0 {
        lemma_without_keeps_other(rs.drop_last(), t, u);
        if rs.last().record_type != t {
            let w = without_type(rs.drop_last(), t);
            assert(w.push(rs.last()).drop_last() =~= w);
        }
    }
}

/// Storing a record and then asking for its name and type gives that record alone; asking
/// for another type of that name, or for another name, gives what was there before.
pub proof fn lemma_zone_get_after_upsert(z: ZoneModel, name: Seq<char>, r: RecordModel, other: Seq<char>, u: MsDnspRecordType)
    requires
        zone_wf(z),
    ensures
        zone_get(zone_upsert(z, name, r), name, r.record_type) == seq![r],
        u != r.record_type ==> zone_get(zone_upsert(z, name, r), name, u) == zone_get(z, name, u),
        other != name ==> zone_get(zone_upsert(z, name, r), other, u) == zone_get(z, other, u),
        zone_wf(zone_upsert(z, name, r)),
{
    lemma_name_index(z, name, 0);
    lemma_name_index(z, other, 0);
    let z2 = zone_upsert(z, name, r);
    lemma_name_index(z2, name, 0);
    lemma_name_index(z2, other, 0);
    match name_index_from(z, name, 0) {
        Some(i) => {
            assert(z2[i].0 == name);
            let w = without_type(z[i].1, r.record_type);
            lemma_without_of_type(z[i].1, r.record_type);
            assert(w.push(r).drop_last() =~= w);
            assert(of_type(w.push(r), r.record_type) =~= seq![r]);
            if u != r.record_type {
                lemma_without_keeps_other(z[i].1, r.record_type, u);
                assert(of_type(w.push(r), u) == of_type(w, u));
            }
            assert forall|a: int, b: int| 0 <= a < b < z2.len() implies (#[trigger] z2[a]).0 != (#[trigger] z2[b]).0 by {
                assert(z2[a].0 == z[a].0 && z2[b].0 == z[b].0);
            }
            if other != name {
                match name_index_from(z, other, 0) {
                    Some(k) => {
                        assert(z2[k] == z[k]);
                        assert(name_index_from(z2, other, 0) == Some(k));
                    },
                    None => {
                        assert(name_index_from(z2, other, 0) is None);
                    },
                }
            }
        },
        None => {
            assert(z2[z.len() as int] == (name, seq![r]));
            assert(seq![r].drop_last() =~= Seq::<RecordModel>::empty());
            assert(of_type(Seq::<RecordModel>::empty(), r.record_type) == Seq::<RecordModel>::empty());
            assert(of_type(Seq::<RecordModel>::empty(), u) == Seq::<RecordModel>::empty());
            assert(of_type(seq![r], r.record_type) =~= seq![r]);
            if u != r.record_type {
                assert(of_type(seq![r], u) =~= Seq::<RecordModel>::empty());
            }
            assert forall|a: int, b: int| 0 <= a < b < z2.len() implies (#[trigger] z2[a]).0 != (#[trigger] z2[b]).0 by {
                if b < z.len() {
                    assert(z2[a] == z[a] && z2[b] == z[b]);
                }
            }
            if other != name {
                match name_index_from(z, other, 0) {
                    Some(k) => {
                        assert(z2[k] == z[k]);
                        assert(name_index_from(z2, other, 0) == Some(k));
                    },
                    None => {
                        assert(name_index_from(z2, other, 0) is None);
                    },
                }
            }
        },
    }
}

fn filter_type(rs: &Vec<MsDnspRecord>, t: MsDnspRecordType) -> (out: Vec<MsDnspRecord>)
    ensures
        records_view(out@) == of_type(records_view(rs@), t),
{
    let mut out: Vec<MsDnspRecord> = Vec::new();
    let mut i: usize = 0;
    while i < rs.len()
        invariant
            i <= rs.len(),
            records_view(out@) == of_type(records_view(rs@.subrange(0, i as int)), t),
        decreases rs.len() - i,
    {
        let ghost before = records_view(out@);
        proof {
            let v = records_view(rs@.subrange(0, i + 1));
            assert(v.drop_last() =~= records_view(rs@.subrange(0, i as int)));
            assert(v.last() == rs@[i as int]@);
        }
        if rs[i].record_type == t {
            let c = rs[i].copy();
            let ghost cv = c@;
            out.push(c);
            assert(records_view(out@) =~= before.push(cv));
        }
        i = i + 1;
    }
    assert(rs@.subrange(0, i as int) =~= rs@);
    out
}

fn remove_type(rs: Vec<MsDnspRecord>, t: MsDnspRecordType) -> (out: Vec<MsDnspRecord>)
    ensures
        records_view(out@) == without_type(records_view(rs@), t),
{
    let mut out: Vec<MsDnspRecord> = Vec::new();
    let mut i: usize = 0;
    while i < rs.len()
        invariant
            i <= rs.len(),
            records_view(out@) == without_type(records_view(rs@.subrange(0, i as int)), t),
        decreases rs.len() - i,
    {
        let ghost before = records_view(out@);
        proof {
            let v = records_view(rs@.subrange(0, i + 1));
            assert(v.drop_last() =~= records_view(rs@.subrange(0, i as int)));
            assert(v.last() == rs@[i as int]@);
        }
        if rs[i].record_type != t {
            let c = rs[i].copy();
            let ghost cv = c@;
            out.push(c);
            assert(records_view(out@) =~= before.push(cv));
        }
        i = i + 1;
    }
    assert(rs@.subrange(0, i as int) =~= rs@);
    out
}

impl ZoneStore {
    #[verifier::type_invariant]
    spec fn names_unique(self) -> bool {
        zone_wf(self@)
    }

    /// An empty zone.
    pub fn new() -> (z: ZoneStore)
        ensures
            z@ == Seq::<(Seq<char>, Seq<RecordModel>)>::empty(),
            zone_wf(z@),
    {
        let z = ZoneStore { records: Vec::new() };
        assert(z@ =~= Seq::<(Seq<char>, Seq<RecordModel>)>::empty());
        z
    }

    fn find(&self, name: &str) -> (r: Option<usize>)
        ensures
            r matches Some(i) ==> name_index_from(self@, name@, 0) == Some(i as int) && i < self@.len(),
            r is None ==> name_index_from(self@, name@, 0) is None,
    {
        proof {
            lemma_name_index(self@, name@, 0);
        }
        let mut i: usize = 0;
        while i < self.records.len()
            invariant
                i <= self.records.len(),
                name_index_from(self@, name@, 0) == name_index_from(self@, name@, i as int),
            decreases self.records.len() - i,
        {
            assert(self@[i as int].0 == self.records@[i as int].0@);
            if str_eq(self.records[i].0.as_str(), name) {
                return Some(i);
            }
            i = i + 1;
        }
        None
    }

    /// The records of `name` of type `rtype`, in the order they were stored.
    pub fn get(&self, name: &str, rtype: MsDnspRecordType) -> (out: Vec<MsDnspRecord>)
        ensures
            records_view(out@) == zone_get(self@, name@, rtype),
    {
        match self.find(name) {
            Some(i) => {
                assert(self@[i as int].1 == records_view(self.records@[i as int].1@));
                filter_type(&self.records[i].1, rtype)
            },
            None => Vec::new(),
        }
    }

    /// Stores `record` under `name`, replacing the name's records of the same type.
    pub fn upsert(&mut self, name: String, record: MsDnspRecord)
        ensures
            final(self)@ == zone_upsert(old(self)@, name@, record@),
            zone_wf(final(self)@),
    {
        proof {
            use_type_invariant(&*self);
            lemma_zone_get_after_upsert(self@, name@, record@, name@, record@.record_type);
        }
        let ghost before = self@;
        let ghost nv = name@;
        let ghost rv = record@;
        let found = self.find(name.as_str());
        let mut records: Vec<(String, Vec<MsDnspRecord>)> = Vec::new();
        std::mem::swap(&mut records, &mut self.records);
        let ghost raw = records@;
        assert(before =~= raw.map_values(|e: (String, Vec<MsDnspRecord>)| (e.0@, records_view(e.1@))));
        match found {
            Some(i) => {
                let (n, rs) = records.remove(i);
                let kept = remove_type(rs, record.record_type);
                let mut kept = kept;
                let ghost kv = records_view(kept@);
                kept.push(record);
                assert(records_view(kept@) =~= kv.push(rv));
                records.insert(i, (name, kept));
                assert(records@.map_values(|e: (String, Vec<MsDnspRecord>)| (e.0@, records_view(e.1@))) =~= before.update(
                    i as int,
                    (nv, without_type(before[i as int].1, rv.record_type).push(rv)),
                ));
            },
            None => {
                let mut rs: Vec<MsDnspRecord> = Vec::new();
                rs.push(record);
                assert(records_view(rs@) =~= seq![rv]);
                records.push((name, rs));
                assert(records@.map_values(|e: (String, Vec<MsDnspRecord>)| (e.0@, records_view(e.1@))) =~= before.push(
                    (nv, seq![rv]),
                ));
            },
        }
        self.records = records;
    }
}

/// The server's settings.
pub struct MsDnspServerConfig {
    pub allow_updates: bool,
}

impl Default for MsDnspServerConfig {
    fn default() -> (c: Self)
        ensures
            c.allow_updates,
    {
        MsDnspServerConfig { allow_updates: true }
    }
}

/// The answer entries of a query: for each asked entry, in order, the stored records of its
/// name and type, each under that name.
pub open spec fn query_answers(z: ZoneModel, asked: Seq<(Seq<char>, RecordModel)>) -> Seq<(Seq<char>, RecordModel)>
    decreases asked.len(),
{
    if asked.len() == 0 {
        Seq::empty()
    } else {
        let (name, r) = asked.last();
        query_answers(z, asked.drop_last()) + zone_get(z, name, r.record_type).map_values(
            |x: RecordModel| (name, x),
        )
    }
}

/// After a record is stored under a name, a query for that name and the record's type
/// is answered with that record alone, under that name.
pub proof fn lemma_query_after_upsert(z: ZoneModel, name: Seq<char>, r: RecordModel, q: RecordModel)
    requires
        zone_wf(z),
        q.record_type == r.record_type,
    ensures
        query_answers(zone_upsert(z, name, r), seq![(name, q)]) == seq![(name, r)],
{
    let z2 = zone_upsert(z, name, r);
    lemma_zone_get_after_upsert(z, name, r, name, r.record_type);
    let asked = seq![(name, q)];
    assert(asked.drop_last() =~= Seq::<(Seq<char>, RecordModel)>::empty());
    assert(asked.last() == (name, q));
    let found = zone_get(z2, name, q.record_type);
    assert(found == seq![r]);
    assert(found.map_values(|x: RecordModel| (name, x)) =~= seq![(name, r)]);
    assert(query_answers(z2, Seq::<(Seq<char>, RecordModel)>::empty()) == Seq::<(Seq<char>, RecordModel)>::empty());
    assert(Seq::<(Seq<char>, RecordModel)>::empty() + seq![(name, r)] =~= seq![(name, r)]);
}

/// A record with its timestamp set to `now`.
pub open spec fn stamped(r: RecordModel, now: u32) -> RecordModel {
    RecordModel { timestamp: now, ..r }
}

/// The zone after storing each entry of an update, in order, stamped with `now`.
pub open spec fn apply_update(z: ZoneModel, es: Seq<(Seq<char>, RecordModel)>, now: u32) -> ZoneModel
    decreases es.len(),
{
    if es.len() == 0 {
        z
    } else {
        let (name, r) = es.last();
        zone_upsert(apply_update(z, es.drop_last(), now), name, stamped(r, now))
    }
}

proof fn lemma_apply_update_wf(z: ZoneModel, es: Seq<(Seq<char>, RecordModel)>, now: u32)
    requires
        zone_wf(z),
    ensures
        zone_wf(apply_update(z, es, now)),
    decreases es.len(),
{
    if es.len() > 0 {
        lemma_apply_update_wf(z, es.drop_last(), now);
        let (name, r) = es.last();
        lemma_zone_get_after_upsert(apply_update(z, es.drop_last(), now), name, stamped(r, now), name, r.record_type);
    }
}

/// The server's answer to a message at time `now`, in seconds: a query gets the stored
/// records that match its entries, with success set; an update, when updates are allowed,
/// stores its records stamped with `now` and gets success, else gets no success and changes
/// nothing; a response is sent back as it is.
pub fn handle_dnsp_message(config: &MsDnspServerConfig, store: &mut ZoneStore, msg: MsDnspMessage, now: u32) -> (r: MsDnspMessage)
    ensures
        zone_wf(final(store)@),
        match msg.opcode {
            MsDnspOpcode::Query => {
                &&& final(store)@ == old(store)@
                &&& r.id == msg.id && r.opcode == MsDnspOpcode::Response && r.flags == 1
                &&& entries_view(r.entries@) == query_answers(old(store)@, entries_view(msg.entries@))
            },
            MsDnspOpcode::Update => {
                &&& final(store)@ == (if config.allow_updates {
                    apply_update(old(store)@, entries_view(msg.entries@), now)
                } else {
                    old(store)@
                })
                &&& r.id == msg.id && r.opcode == MsDnspOpcode::Response
                &&& r.flags == (if config.allow_updates { 1u16 } else { 0u16 })
                &&& r.entries@.len() == 0
            },
            MsDnspOpcode::Response => {
                &&& final(store)@ == old(store)@
                &&& r.id == msg.id && r.opcode == msg.opcode && r.flags == msg.flags
                &&& entries_view(r.entries@) == entries_view(msg.entries@)
            },
        },
{
    proof {
        use_type_invariant(&*store);
    }
    match msg.opcode {
        MsDnspOpcode::Query => {
            let mut entries: Vec<MsDnspEntry> = Vec::new();
            let ghost asked = entries_view(msg.entries@);
            let mut i: usize = 0;
            while i < msg.entries.len()
                invariant
                    i <= msg.entries.len(),
                    asked == entries_view(msg.entries@),
                    entries_view(entries@) == query_answers(store@, asked.subrange(0, i as int)),
                decreases msg.entries.len() - i,
            {
                let entry = &msg.entries[i];
                let records = store.get(entry.name.as_str(), entry.record.record_type);
                let ghost before = entries_view(entries@);
                let ghost name = entry.name@;
                let mut k: usize = 0;
                while k < records.len()
                    invariant
                        k <= records.len(),
                        name == entry.name@,
                        entries_view(entries@) == before + records_view(records@.subrange(0, k as int)).map_values(
                            |x: RecordModel| (name, x),
                        ),
                    decreases records.len() - k,
                {
                    let rec = records[k].copy();
                    let ghost prev = entries_view(entries@);
                    let ghost rv = rec@;
                    entries.push(MsDnspEntry { name: entry.name.clone(), record: rec });
                    proof {
                        assert(entries_view(entries@) =~= prev.push((name, rv)));
                        assert(records_view(records@.subrange(0, k + 1)).map_values(|x: RecordModel| (name, x))
                            =~= records_view(records@.subrange(0, k as int)).map_values(|x: RecordModel| (name, x)).push(
                            (name, rv),
                        ));
                    }
                    k = k + 1;
                }
                proof {
                    assert(records@.subrange(0, k as int) =~= records@);
                    let pre = asked.subrange(0, i + 1);
                    assert(pre.drop_last() =~= asked.subrange(0, i as int));
                    assert(pre.last() == (entry.name@, entry.record@));
                }
                i = i + 1;
            }
            assert(asked.subrange(0, i as int) =~= asked);
            MsDnspMessage { id: msg.id, opcode: MsDnspOpcode::Response, flags: 1, entries }
        },
        MsDnspOpcode::Update => {
            let ok = config.allow_updates;
            if ok {
                let ghost start = store@;
                let ghost es = entries_view(msg.entries@);
                let mut i: usize = 0;
                while i < msg.entries.len()
                    invariant
                        i <= msg.entries.len(),
                        es == entries_view(msg.entries@),
                        zone_wf(start),
                        store@ == apply_update(start, es.subrange(0, i as int), now),
                    decreases msg.entries.len() - i,
                {
                    proof {
                        lemma_apply_update_wf(start, es.subrange(0, i as int), now);
                    }
                    let entry = &msg.entries[i];
                    let mut record = entry.record.copy();
                    record.timestamp = now;
                    store.upsert(entry.name.clone(), record);
                    proof {
                        let pre = es.subrange(0, i + 1);
                        assert(pre.drop_last() =~= es.subrange(0, i as int));
                        assert(pre.last() == (entry.name@, entry.record@));
                    }
                    i = i + 1;
                }
                assert(es.subrange(0, i as int) =~= es);
                proof {
                    lemma_apply_update_wf(start, es, now);
                }
            }
            MsDnspMessage {
                id: msg.id,
                opcode: MsDnspOpcode::Response,
                flags: if ok { 1 } else { 0 },
                entries: Vec::new(),
            }
        },
        MsDnspOpcode::Response => msg,
    }
}

/// The server's answer to a message, at the time the clock gives.
pub fn handle_dnsp_message_now(config: &MsDnspServerConfig, store: &mut ZoneStore, msg: MsDnspMessage) -> (r: MsDnspMessage)
    ensures
        zone_wf(final(store)@),
        msg.opcode is Query ==> final(store)@ == old(store)@ && entries_view(r.entries@) == query_answers(
            old(store)@,
            entries_view(msg.entries@),
        ),
        msg.opcode is Update && config.allow_updates ==> exists|now: u32| final(store)@ == apply_update(
            old(store)@,
            entries_view(msg.entries@),
            now,
        ),
        msg.opcode is Update && !config.allow_updates ==> final(store)@ == old(store)@,
{
    let (secs, _) = crate::clock::unix_time_now();
    let now = (secs % 0x1_0000_0000) as u32;
    let ghost op = msg.opcode;
    let ghost es = entries_view(msg.entries@);
    let ghost before = store@;
    let r = handle_dnsp_message(config, store, msg, now);
    proof {
        if op is Update {
            assert(store@ == (if config.allow_updates {
                apply_update(before, es, now)
            } else {
                before
            }));
            if config.allow_updates {
                assert(exists|n: u32| store@ == apply_update(before, es, n));
            }
        }
    }
    r
}

/// A server's zone, which records can be put into directly.
pub struct MsDnspServer {
    pub config: MsDnspServerConfig,
    pub store: ZoneStore,
}

impl MsDnspServer {
    /// A server with an empty zone.
    pub fn new(config: MsDnspServerConfig) -> (s: MsDnspServer)
        ensures
            s.store@ == Seq::<(Seq<char>, Seq<RecordModel>)>::empty(),
            s.config == config,
    {
        MsDnspServer { config, store: ZoneStore::new() }
    }

    /// Stores `record` under `name`, replacing the name's records of the same type.
    pub fn insert_record(&mut self, name: &str, record: MsDnspRecord)
        ensures
            final(self).store@ == zone_upsert(old(self).store@, name@, record@),
            zone_wf(final(self).store@),
            final(self).config == old(self).config,
    {
        self.store.upsert(String::from_str(name), record);
    }
}

} // verus!
