//! The commands a Redis server answers from its keyspace.
use vstd::prelude::*;
use crate::ascii::{int_text, parse_i64, parse_i64_spec};
use crate::error::{ProtoError, ProtoResult};
use crate::redis::{RedisCommand, RespFrame, RespModel, RespVersion, args_model, frame_model, frames_model};
use crate::redis_server::store::{HashModel, RedisStore, StoreModel, ValueModel, assoc_get, del_spec, exists_spec, hdel_spec, hset_spec, invalid_db, keys_view, pairs_view, store_get, store_set, store_wf, string_of, wrong_type};
use crate::text::str_eq;

verus! {

/// The state of a client connection.
pub struct RedisContext {
    pub resp_version: RespVersion,
    pub authed: bool,
    pub db: usize,
    pub client_name: Option<String>,
}

impl Default for RedisContext {
    fn default() -> (c: Self)
        ensures
            c.resp_version == RespVersion::Resp2,
            c.authed,
            c.db == 0,
            c.client_name is None,
    {
        RedisContext { resp_version: RespVersion::Resp2, authed: true, db: 0, client_name: None }
    }
}

/// The server's settings: the password clients must give, if any, and the number of
/// databases.
pub struct RedisServerConfig {
    pub requirepass: Option<String>,
    pub databases: usize,
}

impl Default for RedisServerConfig {
    fn default() -> (c: Self)
        ensures
            c.requirepass is None,
            c.databases == 16,
    {
        RedisServerConfig { requirepass: None, databases: 16 }
    }
}

/// What answers a command from the keyspace; users may give their own.
pub trait RedisHandler {
    /// Answers `cmd` for the connection `ctx`, reading and changing `store`.
    fn handle(&self, cmd: &RedisCommand, ctx: &mut RedisContext, store: &mut RedisStore) -> (r: ProtoResult<RespFrame>)
        requires
            cmd.args@.len() <= i64::MAX,
            !decrby_overflows(cmd.name@, args_model(cmd.args@)),
        ensures
            store_wf(final(store)@),
    ;
}

/// The error for a command with the wrong number of arguments.
pub open spec fn wrong_args() -> ProtoError {
    ProtoError::Message("ERR wrong number of arguments")
}

/// A string value as a reply: the bulk string, or null when there is none.
pub open spec fn bulk_or_null(v: Option<Seq<u8>>) -> RespModel {
    match v {
        Some(b) => RespModel::BulkString(Some(b)),
        None => RespModel::Null,
    }
}

/// The outcome of adding `delta` to the integer at `k`: the reply and the keyspace after.
pub open spec fn incr_spec(s: StoreModel, d: int, k: Seq<u8>, delta: int) -> (Result<RespModel, ProtoError>, StoreModel) {
    if d >= s.len() {
        (Err(invalid_db()), s)
    } else {
        match store_get(s, d, k) {
            Some(ValueModel::Hash(_)) => (Err(wrong_type()), s),
            Some(ValueModel::Str(t)) if parse_i64_spec(t) is None => (Err(ProtoError::Parse("invalid number")), s),
            v => {
                let cur: int = match v {
                    Some(ValueModel::Str(t)) => parse_i64_spec(t)->0 as int,
                    _ => 0,
                };
                if cur + delta < i64::MIN || cur + delta > i64::MAX {
                    (Err(ProtoError::Message("overflow")), s)
                } else {
                    (
                        Ok(RespModel::Integer((cur + delta) as i64)),
                        store_set(s, d, k, ValueModel::Str(int_text(cur + delta))),
                    )
                }
            },
        }
    }
}

/// The field-value pairs of HSET's arguments after the key.
pub open spec fn arg_pairs(args: Seq<Seq<u8>>) -> Seq<(Seq<u8>, Seq<u8>)> {
    Seq::new(((args.len() - 1) / 2) as nat, |i: int| (args[1 + 2 * i], args[2 + 2 * i]))
}

/// The reply listing a hash: each field then its value, as bulk strings.
pub open spec fn hash_reply(h: HashModel) -> Seq<RespModel> {
    Seq::new(2 * h.len(), |i: int| if i % 2 == 0 { RespModel::BulkString(Some(h[i / 2].0)) } else {
        RespModel::BulkString(Some(h[i / 2].1))
    })
}

/// The keyspace after MSET's pairs, one after the other.
pub open spec fn mset_spec(s: StoreModel, d: int, args: Seq<Seq<u8>>) -> StoreModel
    decreases args.len(),
{
    if args.len() < 2 {
        s
    } else {
        store_set(mset_spec(s, d, args.subrange(0, args.len() - 2)), d, args[args.len() - 2], ValueModel::Str(args.last()))
    }
}

/// The text INFO answers.
pub open spec fn info_text() -> Seq<u8> {
    seq![35u8, 32, 83, 101, 114, 118, 101, 114, 10, 109, 111, 111, 110, 108, 105, 103, 104, 116, 58, 49, 46, 48, 10]
}

/// Whether DECRBY would negate the smallest 64-bit integer, which has no negation.
pub open spec fn decrby_overflows(name: Seq<char>, args: Seq<Seq<u8>>) -> bool {
    name == "DECRBY"@ && args.len() == 2 && parse_i64_spec(args[1]) == Some(i64::MIN)
}

/// The default handler's reply to a command and the keyspace after it.
pub open spec fn default_reply(name: Seq<char>, args: Seq<Seq<u8>>, d: int, s: StoreModel) -> (Result<RespModel, ProtoError>, StoreModel) {
    let n = args.len();
    let valid = d < s.len();
    if name == "PING"@ {
        (Ok(if n == 0 { RespModel::SimpleString("PONG"@) } else { RespModel::BulkString(Some(args[0])) }), s)
    } else if name == "ECHO"@ {
        if n != 1 { (Err(wrong_args()), s) } else { (Ok(RespModel::BulkString(Some(args[0]))), s) }
    } else if name == "GET"@ {
        if n != 1 { (Err(wrong_args()), s) } else if !valid { (Err(invalid_db()), s) } else {
            (Ok(bulk_or_null(string_of(store_get(s, d, args[0])))), s)
        }
    } else if name == "SET"@ {
        if n < 2 { (Err(wrong_args()), s) } else if !valid { (Err(invalid_db()), s) } else {
            (Ok(RespModel::SimpleString("OK"@)), store_set(s, d, args[0], ValueModel::Str(args[1])))
        }
    } else if name == "DEL"@ {
        if n == 0 { (Err(wrong_args()), s) } else if !valid { (Err(invalid_db()), s) } else {
            let (t, c) = del_spec(s, d, args);
            (Ok(RespModel::Integer(c as i64)), t)
        }
    } else if name == "EXISTS"@ {
        if n == 0 { (Err(wrong_args()), s) } else if !valid { (Err(invalid_db()), s) } else {
            (Ok(RespModel::Integer(exists_spec(s, d, args) as i64)), s)
        }
    } else if name == "INCR"@ {
        if n != 1 { (Err(wrong_args()), s) } else { incr_spec(s, d, args[0], 1) }
    } else if name == "DECR"@ {
        if n != 1 { (Err(wrong_args()), s) } else { incr_spec(s, d, args[0], -1) }
    } else if name == "INCRBY"@ || name == "DECRBY"@ {
        if n != 2 { (Err(wrong_args()), s) } else {
            match parse_i64_spec(args[1]) {
                None => (Err(ProtoError::Parse("invalid number")), s),
                Some(x) => incr_spec(s, d, args[0], if name == "INCRBY"@ { x as int } else { -x }),
            }
        }
    } else if name == "HSET"@ {
        if n < 3 || n % 2 == 0 { (Err(wrong_args()), s) } else if !valid { (Err(invalid_db()), s) } else {
            match store_get(s, d, args[0]) {
                Some(ValueModel::Str(_)) => (Err(wrong_type()), s),
                v => {
                    let h: HashModel = match v {
                        Some(ValueModel::Hash(h)) => h,
                        _ => Seq::empty(),
                    };
                    let (h2, c) = hset_spec(h, arg_pairs(args));
                    (Ok(RespModel::Integer(c as i64)), store_set(s, d, args[0], ValueModel::Hash(h2)))
                },
            }
        }
    } else if name == "HGET"@ {
        if n != 2 { (Err(wrong_args()), s) } else if !valid { (Err(invalid_db()), s) } else {
            match store_get(s, d, args[0]) {
                Some(ValueModel::Str(_)) => (Err(wrong_type()), s),
                Some(ValueModel::Hash(h)) => (Ok(bulk_or_null(assoc_get(h, args[1]))), s),
                None => (Ok(RespModel::Null), s),
            }
        }
    } else if name == "HDEL"@ {
        if n < 2 { (Err(wrong_args()), s) } else if !valid { (Err(invalid_db()), s) } else {
            match store_get(s, d, args[0]) {
                Some(ValueModel::Str(_)) => (Err(wrong_type()), s),
                Some(ValueModel::Hash(h)) => {
                    let (h2, c) = hdel_spec(h, args.subrange(1, n as int));
                    (Ok(RespModel::Integer(c as i64)), store_set(s, d, args[0], ValueModel::Hash(h2)))
                },
                None => (Ok(RespModel::Integer(0)), s),
            }
        }
    } else if name == "HGETALL"@ {
        if n != 1 { (Err(wrong_args()), s) } else if !valid { (Err(invalid_db()), s) } else {
            match store_get(s, d, args[0]) {
                Some(ValueModel::Str(_)) => (Err(wrong_type()), s),
                Some(ValueModel::Hash(h)) => (Ok(RespModel::Array(Some(hash_reply(h)))), s),
                None => (Ok(RespModel::Array(Some(Seq::empty()))), s),
            }
        }
    } else if name == "MGET"@ {
        if n == 0 { (Err(wrong_args()), s) } else if !valid { (Err(invalid_db()), s) } else {
            (Ok(RespModel::Array(Some(args.map_values(|k: Seq<u8>| bulk_or_null(string_of(store_get(s, d, k))))))), s)
        }
    } else if name == "MSET"@ {
        if n == 0 || n % 2 != 0 { (Err(wrong_args()), s) } else if !valid { (Err(invalid_db()), s) } else {
            (Ok(RespModel::SimpleString("OK"@)), mset_spec(s, d, args))
        }
    } else if name == "INFO"@ {
        (Ok(RespModel::BulkString(Some(info_text()))), s)
    } else {
        (Err(ProtoError::Message("ERR unknown command")), s)
    }
}

/// The handler of the built-in commands.
pub struct DefaultRedisHandler;

fn copy_arg(a: &Vec<u8>) -> (r: Vec<u8>)
    ensures
        r@ == a@,
{
    let r = crate::wire::copy_range(a.as_slice(), 0, a.len());
    assert(r@ =~= a@);
    r
}

fn optional_bulk(v: Option<Vec<u8>>) -> (f: RespFrame)
    ensures
        frame_model(f) == bulk_or_null(
            match v {
                Some(b) => Some(b@),
                None => None,
            },
        ),
{
    match v {
        Some(b) => RespFrame::BulkString(Some(b)),
        None => RespFrame::Null,
    }
}

fn incr_reply(store: &mut RedisStore, d: usize, key: Vec<u8>, delta: i64) -> (r: ProtoResult<RespFrame>)
    ensures
        store_wf(final(store)@),
        ({
            let (want, t) = incr_spec(old(store)@, d as int, key@, delta as int);
            &&& final(store)@ == t
            &&& match r {
                Ok(f) => want == Ok::<RespModel, ProtoError>(frame_model(f)),
                Err(e) => want == Err::<RespModel, ProtoError>(e),
            }
        }),
{
    proof {
        use_type_invariant(&*store);
    }
    match store.incr_by(d, key, delta) {
        Ok(v) => Ok(RespFrame::Integer(v)),
        Err(e) => Err(e),
    }
}

proof fn lemma_frames_push(s: Seq<RespFrame>, x: RespFrame)
    ensures
        frames_model(s.push(x)) == frames_model(s).push(frame_model(x)),
{
    assert(s.push(x).subrange(0, s.len() as int) =~= s);
}

fn mget_frames(store: &RedisStore, d: usize, args: &Vec<Vec<u8>>) -> (r: ProtoResult<Vec<RespFrame>>)
    requires
        args@.len() > 0,
    ensures
        d >= store@.len() ==> r == Err::<Vec<RespFrame>, ProtoError>(invalid_db()),
        d < store@.len() ==> (r matches Ok(out) && frames_model(out@) == args_model(args@).map_values(
            |k: Seq<u8>| bulk_or_null(string_of(store_get(store@, d as int, k))),
        )),
{
    let ghost av = args_model(args@);
    let n = args.len();
    let mut out: Vec<RespFrame> = Vec::new();
    let mut i: usize = 0;
    while i < n
        invariant
            i <= n,
            n == args@.len(),
            n > 0,
            av == args_model(args@),
            d < store@.len() || i == 0,
            frames_model(out@) == av.subrange(0, i as int).map_values(
                |k: Seq<u8>| bulk_or_null(string_of(store_get(store@, d as int, k))),
            ),
        decreases n - i,
    {
        let v = match store.get_string(d, args[i].as_slice()) {
            Ok(x) => x,
            Err(e) => {
                return Err(e);
            },
        };
        let f = optional_bulk(v);
        let ghost before = out@;
        let ghost fm = frame_model(f);
        out.push(f);
        proof {
            lemma_frames_push(before, f);
            assert(av.subrange(0, i + 1).map_values(|k: Seq<u8>| bulk_or_null(string_of(store_get(store@, d as int, k))))
                =~= av.subrange(0, i as int).map_values(
                |k: Seq<u8>| bulk_or_null(string_of(store_get(store@, d as int, k))),
            ).push(fm));
        }
        i = i + 1;
    }
    assert(av.subrange(0, i as int) =~= av);
    Ok(out)
}

fn mset_all(store: &mut RedisStore, d: usize, args: &Vec<Vec<u8>>) -> (r: ProtoResult<()>)
    requires
        args@.len() > 0,
        args@.len() % 2 == 0,
    ensures
        store_wf(final(store)@),
        d >= old(store)@.len() ==> r == Err::<(), ProtoError>(invalid_db()) && final(store)@ == old(store)@,
        d < old(store)@.len() ==> r is Ok && final(store)@ == mset_spec(old(store)@, d as int, args_model(args@)),
{
    proof {
        use_type_invariant(&*store);
    }
    let ghost av = args_model(args@);
    let ghost start = store@;
    let n = args.len();
    let mut i: usize = 0;
    assert(av.subrange(0, 0) =~= Seq::<Seq<u8>>::empty());
    while i < n
        invariant
            i <= n,
            n == args@.len(),
            n > 0,
            n % 2 == 0,
            i % 2 == 0,
            av == args_model(args@),
            start == old(store)@,
            store_wf(store@),
            store@.len() == start.len(),
            d < start.len() || (i == 0 && store@ == start),
            store@ == mset_spec(start, d as int, av.subrange(0, i as int)),
        decreases n - i,
    {
        proof {
            let pre = av.subrange(0, i + 2);
            assert(pre.subrange(0, pre.len() - 2) =~= av.subrange(0, i as int));
            assert(pre[pre.len() - 2] == av[i as int]);
            assert(pre.last() == av[i + 1]);
        }
        match store.set_string(d, copy_arg(&args[i]), copy_arg(&args[i + 1])) {
            Ok(_) => {},
            Err(e) => {
                return Err(e);
            },
        }
        i = i + 2;
    }
    assert(av.subrange(0, i as int) =~= av);
    Ok(())
}

fn tail_args(args: &Vec<Vec<u8>>, from: usize) -> (r: Vec<Vec<u8>>)
    requires
        from <= args@.len(),
    ensures
        keys_view(r@) == args_model(args@).subrange(from as int, args@.len() as int),
{
    let mut out: Vec<Vec<u8>> = Vec::new();
    let mut i = from;
    while i < args.len()
        invariant
            from <= i <= args@.len(),
            keys_view(out@) == args_model(args@).subrange(from as int, i as int),
        decreases args.len() - i,
    {
        let ghost before = keys_view(out@);
        let a = copy_arg(&args[i]);
        let ghost av = a@;
        out.push(a);
        assert(keys_view(out@) =~= before.push(av));
        assert(keys_view(out@) =~= args_model(args@).subrange(from as int, i + 1));
        i = i + 1;
    }
    out
}

impl RedisHandler for DefaultRedisHandler {
    /// The built-in commands' answers, as `default_reply` gives them; the connection's
    /// state is left as it is.
    fn handle(&self, cmd: &RedisCommand, ctx: &mut RedisContext, store: &mut RedisStore) -> (r: ProtoResult<RespFrame>)
        ensures
            *final(ctx) == *old(ctx),
            ({
                let (want, t) = default_reply(cmd.name@, args_model(cmd.args@), old(ctx).db as int, old(store)@);
                &&& final(store)@ == t
                &&& match r {
                    Ok(f) => want == Ok::<RespModel, ProtoError>(frame_model(f)),
                    Err(e) => want == Err::<RespModel, ProtoError>(e),
                }
            }),
    {
        proof {
            use_type_invariant(&*store);
        }
        self.reply(cmd, ctx, store)
    }
}

impl DefaultRedisHandler {
    /// The built-in commands' answers, as `default_reply` gives them.
    pub fn reply(&self, cmd: &RedisCommand, ctx: &RedisContext, store: &mut RedisStore) -> (r: ProtoResult<RespFrame>)
        requires
            !decrby_overflows(cmd.name@, args_model(cmd.args@)),
            cmd.args@.len() <= i64::MAX,
        ensures
            store_wf(final(store)@),
            ({
                let (want, t) = default_reply(cmd.name@, args_model(cmd.args@), ctx.db as int, old(store)@);
                &&& final(store)@ == t
                &&& match r {
                    Ok(f) => want == Ok::<RespModel, ProtoError>(frame_model(f)),
                    Err(e) => want == Err::<RespModel, ProtoError>(e),
                }
            }),
    {
        proof {
            use_type_invariant(&*store);
        }
        let name = cmd.name.as_str();
        let args = &cmd.args;
        let ghost av = args_model(args@);
        let n = args.len();
        let d = ctx.db;
        proof {
            reveal_strlit("PING");
            reveal_strlit("ECHO");
            reveal_strlit("GET");
            reveal_strlit("SET");
            reveal_strlit("DEL");
            reveal_strlit("EXISTS");
            reveal_strlit("INCR");
            reveal_strlit("DECR");
            reveal_strlit("INCRBY");
            reveal_strlit("DECRBY");
            reveal_strlit("HSET");
            reveal_strlit("HGET");
            reveal_strlit("HDEL");
            reveal_strlit("HGETALL");
            reveal_strlit("MGET");
            reveal_strlit("MSET");
            reveal_strlit("INFO");
        }
        if str_eq(name, "PING") {
            if n == 0 {
                return Ok(RespFrame::SimpleString(String::from_str("PONG")));
            }
            return Ok(RespFrame::BulkString(Some(copy_arg(&args[0]))));
        }
        if str_eq(name, "ECHO") {
            if n != 1 {
                return Err(ProtoError::Message("ERR wrong number of arguments"));
            }
            return Ok(RespFrame::BulkString(Some(copy_arg(&args[0]))));
        }
        if str_eq(name, "GET") {
            if n != 1 {
                return Err(ProtoError::Message("ERR wrong number of arguments"));
            }
            let v = match store.get_string(d, args[0].as_slice()) {
                Ok(x) => x,
                Err(e) => {
                    return Err(e);
                },
            };
            return Ok(optional_bulk(v));
        }
        if str_eq(name, "SET") {
            if n < 2 {
                return Err(ProtoError::Message("ERR wrong number of arguments"));
            }
            match store.set_string(d, copy_arg(&args[0]), copy_arg(&args[1])) {
                Ok(_) => {},
                Err(e) => {
                    return Err(e);
                },
            }
            return Ok(RespFrame::SimpleString(String::from_str("OK")));
        }
        if str_eq(name, "DEL") {
            if n == 0 {
                return Err(ProtoError::Message("ERR wrong number of arguments"));
            }
            let c = match store.del_keys(d, args.as_slice()) {
                Ok(x) => x,
                Err(e) => {
                    return Err(e);
                },
            };
            return Ok(RespFrame::Integer(c));
        }
        if str_eq(name, "EXISTS") {
            if n == 0 {
                return Err(ProtoError::Message("ERR wrong number of arguments"));
            }
            let c = match store.count_existing(d, args.as_slice()) {
                Ok(x) => x,
                Err(e) => {
                    return Err(e);
                },
            };
            return Ok(RespFrame::Integer(c));
        }
        if str_eq(name, "INCR") {
            if n != 1 {
                return Err(ProtoError::Message("ERR wrong number of arguments"));
            }
            return incr_reply(store, d, copy_arg(&args[0]), 1);
        }
        if str_eq(name, "DECR") {
            if n != 1 {
                return Err(ProtoError::Message("ERR wrong number of arguments"));
            }
            return incr_reply(store, d, copy_arg(&args[0]), -1);
        }
        if str_eq(name, "INCRBY") || str_eq(name, "DECRBY") {
            if n != 2 {
                return Err(ProtoError::Message("ERR wrong number of arguments"));
            }
            let x = match parse_i64(args[1].as_slice()) {
                Some(x) => x,
                None => {
                    return Err(ProtoError::Parse("invalid number"));
                },
            };
            if str_eq(name, "INCRBY") {
                return incr_reply(store, d, copy_arg(&args[0]), x);
            }
            return incr_reply(store, d, copy_arg(&args[0]), -x);
        }
        if str_eq(name, "HSET") {
            if n < 3 || n % 2 == 0 {
                return Err(ProtoError::Message("ERR wrong number of arguments"));
            }
            let mut pairs: Vec<(Vec<u8>, Vec<u8>)> = Vec::new();
            let mut i: usize = 1;
            while i < n
                invariant
                    1 <= i <= n,
                    n == args@.len(),
                    n % 2 == 1,
                    i % 2 == 1,
                    av == args_model(args@),
                    pairs_view(pairs@) == arg_pairs(av).subrange(0, (i - 1) / 2),
                decreases n - i,
            {
                let ghost before = pairs_view(pairs@);
                let a = copy_arg(&args[i]);
                let b = copy_arg(&args[i + 1]);
                let ghost e = (a@, b@);
                pairs.push((a, b));
                assert(pairs_view(pairs@) =~= before.push(e));
                assert(arg_pairs(av)[(i - 1) / 2] == e);
                assert(pairs_view(pairs@) =~= arg_pairs(av).subrange(0, (i + 1) / 2));
                i = i + 2;
            }
            assert(arg_pairs(av).subrange(0, (n - 1) / 2) =~= arg_pairs(av));
            let c = match store.hset(d, copy_arg(&args[0]), pairs.as_slice()) {
                Ok(x) => x,
                Err(e) => {
                    return Err(e);
                },
            };
            return Ok(RespFrame::Integer(c));
        }
        if str_eq(name, "HGET") {
            if n != 2 {
                return Err(ProtoError::Message("ERR wrong number of arguments"));
            }
            let v = match store.hget(d, args[0].as_slice(), args[1].as_slice()) {
                Ok(x) => x,
                Err(e) => {
                    return Err(e);
                },
            };
            return Ok(optional_bulk(v));
        }
        if str_eq(name, "HDEL") {
            if n < 2 {
                return Err(ProtoError::Message("ERR wrong number of arguments"));
            }
            let fields = tail_args(args, 1);
            assert(keys_view(fields@) == av.subrange(1, n as int));
            let c = match store.hdel(d, args[0].as_slice(), fields.as_slice()) {
                Ok(x) => x,
                Err(e) => {
                    return Err(e);
                },
            };
            return Ok(RespFrame::Integer(c));
        }
        if str_eq(name, "HGETALL") {
            if n != 1 {
                return Err(ProtoError::Message("ERR wrong number of arguments"));
            }
            let entries = match store.hgetall(d, args[0].as_slice()) {
                Ok(x) => x,
                Err(e) => {
                    return Err(e);
                },
            };
            let ghost h = pairs_view(entries@);
            let mut frames: Vec<RespFrame> = Vec::new();
            let mut i: usize = 0;
            while i < entries.len()
                invariant
                    i <= entries.len(),
                    h == pairs_view(entries@),
                    frames_model(frames@) == hash_reply(h).subrange(0, 2 * i as int),
                decreases entries.len() - i,
            {
                let ghost before = frames@;
                let f = RespFrame::BulkString(Some(copy_arg(&entries[i].0)));
                let v = RespFrame::BulkString(Some(copy_arg(&entries[i].1)));
                let ghost fm = frame_model(f);
                let ghost vm = frame_model(v);
                frames.push(f);
                frames.push(v);
                proof {
                    lemma_frames_push(before, f);
                    lemma_frames_push(before.push(f), v);
                    assert(frames@ == before.push(f).push(v));
                    assert(hash_reply(h)[2 * i as int] == fm);
                    assert(hash_reply(h)[2 * i + 1] == vm);
                }
                assert(hash_reply(h).subrange(0, 2 * i + 2) =~= hash_reply(h).subrange(0, 2 * i).push(fm).push(vm));
                i = i + 1;
            }
            assert(hash_reply(h).subrange(0, 2 * i) =~= hash_reply(h));
            return Ok(RespFrame::Array(Some(frames)));
        }
        if str_eq(name, "MGET") {
            if n == 0 {
                return Err(ProtoError::Message("ERR wrong number of arguments"));
            }
            return match mget_frames(store, d, args) {
                Ok(out) => Ok(RespFrame::Array(Some(out))),
                Err(e) => Err(e),
            };
        }
        if str_eq(name, "MSET") {
            if n == 0 || n % 2 != 0 {
                return Err(ProtoError::Message("ERR wrong number of arguments"));
            }
            return match mset_all(store, d, args) {
                Ok(_) => Ok(RespFrame::SimpleString(String::from_str("OK"))),
                Err(e) => Err(e),
            };
        }
        if str_eq(name, "INFO") {
            let info: Vec<u8> = vec![35u8, 32, 83, 101, 114, 118, 101, 114, 10, 109, 111, 111, 110, 108, 105, 103, 104, 116, 58, 49, 46, 48, 10];
            assert(info@ =~= info_text());
            return Ok(RespFrame::BulkString(Some(info)));
        }
        Err(ProtoError::Message("ERR unknown command"))
    }
}

} // verus!
