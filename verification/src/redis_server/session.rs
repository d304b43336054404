//! The decisions of a Redis server connection: authentication, HELLO, database selection,
//! and passing other commands to the handler.
use vstd::prelude::*;
use crate::ascii::{parse_i64, parse_i64_spec};
use crate::error::{ProtoError, ProtoResult};
use crate::redis::{RedisCommand, RespFrame, RespModel, RespVersion, args_model, command_of, frame_model};
use crate::redis_server::handler::{RedisContext, RedisHandler, RedisServerConfig, decrby_overflows};
use crate::redis_server::store::{RedisStore, store_wf};
use crate::text::{ascii_upper_str, lossy_text, str_eq, string_from_utf8_lossy, to_ascii_uppercase};

verus! {

/// The characters of an optional string.
pub open spec fn opt_chars(s: Option<String>) -> Option<Seq<char>> {
    match s {
        Some(t) => Some(t@),
        None => None,
    }
}

/// The outcome of AUTH with `args` against the configured password: true when the last of
/// one or two arguments is the password; an error without a password or with a wrong one.
pub open spec fn auth_spec(args: Seq<Seq<u8>>, pass: Option<Seq<char>>) -> Result<bool, ProtoError> {
    match pass {
        None => Err(ProtoError::Message("ERR no password")),
        Some(p) => if (args.len() == 1 && lossy_text(args[0]) == p) || (args.len() == 2 && lossy_text(args[1]) == p) {
            Ok(true)
        } else {
            Err(ProtoError::Message("ERR invalid password"))
        },
    }
}

/// Checks AUTH's arguments against the configured password.
pub fn handle_auth(args: &Vec<Vec<u8>>, config: &RedisServerConfig) -> (r: ProtoResult<bool>)
    ensures
        r == auth_spec(args_model(args@), opt_chars(config.requirepass)),
{
    let pass = match &config.requirepass {
        Some(p) => p,
        None => {
            return Err(ProtoError::Message("ERR no password"));
        },
    };
    if args.len() == 1 {
        let provided = string_from_utf8_lossy(args[0].as_slice());
        if str_eq(provided.as_str(), pass.as_str()) {
            return Ok(true);
        }
    } else if args.len() == 2 {
        let provided = string_from_utf8_lossy(args[1].as_slice());
        if str_eq(provided.as_str(), pass.as_str()) {
            return Ok(true);
        }
    }
    Err(ProtoError::Message("ERR invalid password"))
}

/// The state HELLO's options lead to from `i` on: whether authenticated, the client name,
/// and the error that stopped them, if any.
pub open spec fn hello_options(
    args: Seq<Seq<u8>>,
    i: int,
    authed: bool,
    name: Option<Seq<char>>,
    pass: Option<Seq<char>>,
) -> (bool, Option<Seq<char>>, Option<ProtoError>)
    decreases args.len() - i,
{
    if i < 0 || i >= args.len() {
        (authed, name, None)
    } else {
        let token = ascii_upper_str(lossy_text(args[i]));
        if token == "AUTH"@ {
            if i + 1 >= args.len() {
                (authed, name, Some(ProtoError::Message("ERR syntax")))
            } else {
                let pass_idx = if i + 2 < args.len() { i + 2 } else { i + 1 };
                let auth_args = if pass_idx == i + 2 { seq![args[i + 1], args[i + 2]] } else { seq![args[i + 1]] };
                match auth_spec(auth_args, pass) {
                    Err(e) => (authed, name, Some(e)),
                    Ok(ok) => hello_options(args, pass_idx + 1, ok, name, pass),
                }
            }
        } else if token == "SETNAME"@ {
            if i + 1 >= args.len() {
                (authed, name, Some(ProtoError::Message("ERR syntax")))
            } else {
                hello_options(args, i + 2, authed, Some(lossy_text(args[i + 1])), pass)
            }
        } else {
            hello_options(args, i + 1, authed, name, pass)
        }
    }
}

/// The protocol version HELLO asks for, and where its options start.
pub open spec fn hello_version(args: Seq<Seq<u8>>, current: RespVersion) -> (RespVersion, int) {
    if args.len() > 0 && lossy_text(args[0]) == "2"@ {
        (RespVersion::Resp2, 1)
    } else if args.len() > 0 && lossy_text(args[0]) == "3"@ {
        (RespVersion::Resp3, 1)
    } else {
        (current, 0)
    }
}

/// What HELLO with `args` answers on a connection in state `ctx`, and the state after it:
/// whether authenticated, the client name and the protocol version.
pub open spec fn hello_spec(args: Seq<Seq<u8>>, ctx: RedisContext, pass: Option<Seq<char>>) -> (
    Result<RespModel, ProtoError>,
    bool,
    Option<Seq<char>>,
    RespVersion,
) {
    let (v, start) = hello_version(args, ctx.resp_version);
    let (authed, name, err) = hello_options(args, start, ctx.authed, opt_chars(ctx.client_name), pass);
    match err {
        Some(e) => (Err(e), authed, name, ctx.resp_version),
        None => (Ok(hello_reply(v)), authed, name, v),
    }
}

/// A bulk string of ASCII text.
pub open spec fn bulk_text(s: Seq<char>) -> RespModel {
    RespModel::BulkString(Some(vstd::utf8::encode_utf8(s)))
}

/// HELLO's answer for protocol `v`: the server's properties, as a flat array in RESP2 and
/// as a map in RESP3.
pub open spec fn hello_reply(v: RespVersion) -> RespModel {
    match v {
        RespVersion::Resp2 => RespModel::Array(
            Some(
                seq![
                    bulk_text("server"@),
                    bulk_text("moonlight"@),
                    bulk_text("version"@),
                    RespModel::BulkString(Some(seq![49u8, 46, 48])),
                    bulk_text("proto"@),
                    RespModel::Integer(2),
                ],
            ),
        ),
        RespVersion::Resp3 => RespModel::MapOf(
            seq![
                (RespModel::SimpleString("server"@), RespModel::SimpleString("moonlight"@)),
                (RespModel::SimpleString("version"@), RespModel::SimpleString(seq!['1', '.', '0'])),
                (RespModel::SimpleString("proto"@), RespModel::Integer(3)),
                (RespModel::SimpleString("id"@), RespModel::Integer(1)),
                (RespModel::SimpleString("mode"@), RespModel::SimpleString("standalone"@)),
                (RespModel::SimpleString("role"@), RespModel::SimpleString("master"@)),
            ],
        ),
    }
}

fn bulk(s: &str) -> (f: RespFrame)
    ensures
        frame_model(f) == bulk_text(s@),
{
    RespFrame::BulkString(Some(crate::text::utf8_bytes(s)))
}

fn simple(s: &str) -> (f: RespFrame)
    ensures
        frame_model(f) == RespModel::SimpleString(s@),
{
    RespFrame::SimpleString(String::from_str(s))
}

fn hello_frame(v: RespVersion) -> (f: RespFrame)
    ensures
        frame_model(f) == hello_reply(v),
{
    match v {
        RespVersion::Resp2 => {
            let version: Vec<u8> = vec![49u8, 46, 48];
            let items: Vec<RespFrame> = vec![
                bulk("server"),
                bulk("moonlight"),
                bulk("version"),
                RespFrame::BulkString(Some(version)),
                bulk("proto"),
                RespFrame::Integer(2),
            ];
            let f = RespFrame::Array(Some(items));
            assert(version@ =~= seq![49u8, 46, 48]);
            assert(crate::redis::frames_model(items@) =~= seq![
                bulk_text("server"@),
                bulk_text("moonlight"@),
                bulk_text("version"@),
                RespModel::BulkString(Some(seq![49u8, 46, 48])),
                bulk_text("proto"@),
                RespModel::Integer(2),
            ]) by {
                reveal_with_fuel(crate::redis::frames_model, 7);
                assert(items@.subrange(0, 5).subrange(0, 4).subrange(0, 3).subrange(0, 2).subrange(0, 1).subrange(0, 0)
                    =~= Seq::<RespFrame>::empty());
            }
            f
        },
        RespVersion::Resp3 => {
            let mut one = String::new();
            crate::text::push_char(&mut one, '1');
            crate::text::push_char(&mut one, '.');
            crate::text::push_char(&mut one, '0');
            assert(one@ =~= seq!['1', '.', '0']);
            let items: Vec<(RespFrame, RespFrame)> = vec![
                (simple("server"), simple("moonlight")),
                (simple("version"), RespFrame::SimpleString(one)),
                (simple("proto"), RespFrame::Integer(3)),
                (simple("id"), RespFrame::Integer(1)),
                (simple("mode"), simple("standalone")),
                (simple("role"), simple("master")),
            ];
            let f = RespFrame::MapOf(items);
            assert(crate::redis::pairs_model(items@) =~= seq![
                (RespModel::SimpleString("server"@), RespModel::SimpleString("moonlight"@)),
                (RespModel::SimpleString("version"@), RespModel::SimpleString(seq!['1', '.', '0'])),
                (RespModel::SimpleString("proto"@), RespModel::Integer(3)),
                (RespModel::SimpleString("id"@), RespModel::Integer(1)),
                (RespModel::SimpleString("mode"@), RespModel::SimpleString("standalone"@)),
                (RespModel::SimpleString("role"@), RespModel::SimpleString("master"@)),
            ]) by {
                reveal_with_fuel(crate::redis::pairs_model, 7);
                assert(items@.subrange(0, 5).subrange(0, 4).subrange(0, 3).subrange(0, 2).subrange(0, 1).subrange(0, 0)
                    =~= Seq::<(RespFrame, RespFrame)>::empty());
            }
            f
        },
    }
}

/// Serves HELLO: it may switch the protocol version (when its first argument is `2` or
/// `3`), authenticate (`AUTH [user] password`) and name the client (`SETNAME name`); it
/// answers with the server's properties in the protocol it settles on.
pub fn handle_hello(args: &Vec<Vec<u8>>, ctx: &mut RedisContext, config: &RedisServerConfig) -> (r: ProtoResult<RespFrame>)
    ensures
        ({
            let (res, authed, name, v) = hello_spec(args_model(args@), *old(ctx), opt_chars(config.requirepass));
            &&& final(ctx).authed == authed
            &&& opt_chars(final(ctx).client_name) == name
            &&& final(ctx).resp_version == v
            &&& final(ctx).db == old(ctx).db
            &&& match res {
                Ok(m) => r matches Ok(f) && frame_model(f) == m,
                Err(e) => r == Err::<RespFrame, ProtoError>(e),
            }
        }),
{
    let ghost av = args_model(args@);
    let ghost pass = opt_chars(config.requirepass);
    let mut version = ctx.resp_version;
    let mut i: usize = 0;
    if args.len() > 0 {
        let arg = string_from_utf8_lossy(args[0].as_slice());
        proof {
            reveal_strlit("2");
            reveal_strlit("3");
        }
        if str_eq(arg.as_str(), "2") {
            version = RespVersion::Resp2;
            i = 1;
        } else if str_eq(arg.as_str(), "3") {
            version = RespVersion::Resp3;
            i = 1;
        }
    }
    let ghost target = hello_options(av, i as int, ctx.authed, opt_chars(ctx.client_name), pass);
    assert((version, i as int) == hello_version(av, old(ctx).resp_version));
    while i < args.len()
        invariant
            i <= args.len(),
            av == args_model(args@),
            pass == opt_chars(config.requirepass),
            (version, 0int).0 == hello_version(av, old(ctx).resp_version).0,
            target == hello_options(
                av,
                hello_version(av, old(ctx).resp_version).1,
                old(ctx).authed,
                opt_chars(old(ctx).client_name),
                pass,
            ),
            ctx.resp_version == old(ctx).resp_version,
            ctx.db == old(ctx).db,
            target == hello_options(av, i as int, ctx.authed, opt_chars(ctx.client_name), pass),
        decreases args.len() - i,
    {
        let token = to_ascii_uppercase(string_from_utf8_lossy(args[i].as_slice()).as_str());
        proof {
            reveal_strlit("AUTH");
            reveal_strlit("SETNAME");
        }
        if str_eq(token.as_str(), "AUTH") {
            if i + 1 >= args.len() {
                return Err(ProtoError::Message("ERR syntax"));
            }
            let pass_idx = if i + 2 < args.len() { i + 2 } else { i + 1 };
            let mut auth_args: Vec<Vec<u8>> = Vec::new();
            auth_args.push(args[i + 1].clone());
            if pass_idx == i + 2 {
                auth_args.push(args[i + 2].clone());
            }
            assert(args_model(auth_args@) =~= (if pass_idx == i + 2 {
                seq![av[i + 1], av[i + 2]]
            } else {
                seq![av[i + 1]]
            }));
            let ok = match handle_auth(&auth_args, config) {
                Ok(ok) => ok,
                Err(e) => {
                    return Err(e);
                },
            };
            ctx.authed = ok;
            i = pass_idx + 1;
        } else if str_eq(token.as_str(), "SETNAME") {
            if i + 1 >= args.len() {
                return Err(ProtoError::Message("ERR syntax"));
            }
            ctx.client_name = Some(string_from_utf8_lossy(args[i + 1].as_slice()));
            i = i + 2;
        } else {
            i = i + 1;
        }
    }
    ctx.resp_version = version;
    Ok(hello_frame(version))
}

/// What the connection does after a frame.
pub enum RedisStep {
    /// Send this frame and go on.
    Reply(RespFrame),
    /// Send this frame and close.
    ReplyAndClose(RespFrame),
    /// Close without a reply.
    Close,
}

/// The text of an error: its message.
pub open spec fn error_message(e: ProtoError) -> &'static str {
    match e {
        ProtoError::Parse(m) => m,
        ProtoError::Message(m) => m,
    }
}

/// The reply for an error: `ERR` and the error's message.
pub open spec fn err_reply(e: ProtoError) -> RespModel {
    RespModel::Error("ERR "@ + error_message(e)@)
}

fn err_frame(e: ProtoError) -> (f: RespFrame)
    ensures
        frame_model(f) == err_reply(e),
{
    let m: &'static str = match e {
        ProtoError::Parse(m) => m,
        ProtoError::Message(m) => m,
    };
    let mut s = String::from_str("ERR ");
    let cs = crate::text::chars_of(m);
    let ghost start = s@;
    let mut i: usize = 0;
    while i < cs.len()
        invariant
            i <= cs.len(),
            cs@ == m@,
            s@ == start + cs@.subrange(0, i as int),
        decreases cs.len() - i,
    {
        crate::text::push_char(&mut s, cs[i]);
        i = i + 1;
        assert(s@ =~= start + cs@.subrange(0, i as int));
    }
    assert(cs@.subrange(0, i as int) =~= cs@);
    RespFrame::Error(s)
}

/// Serves one frame of a connection. A frame that is not a command gets an error reply;
/// before authentication only AUTH and HELLO are served; AUTH records the outcome and
/// answers OK (a wrong password is an error that ends the connection); HELLO is served by
/// `handle_hello`; QUIT answers OK and closes; SELECT switches the database (a negative
/// index gets an error reply, one that does not parse ends the connection); anything else
/// goes to the handler, whose errors become error replies. A DECRBY of the smallest integer,
/// which has no negation, closes the connection.
pub fn session_step<H: RedisHandler>(
    config: &RedisServerConfig,
    ctx: &mut RedisContext,
    handler: &H,
    store: &mut RedisStore,
    frame: &RespFrame,
) -> (r: ProtoResult<RedisStep>)
    ensures
        store_wf(final(store)@),
        command_of(frame@) is None ==> (r matches Ok(RedisStep::Reply(f)) && frame_model(f) is Error)
            && *final(ctx) == *old(ctx) && final(store)@ == old(store)@,
        command_of(frame@) matches Some((name, args)) ==> {
            if !old(ctx).authed && name != "AUTH"@ && name != "HELLO"@ {
                &&& r matches Ok(RedisStep::Reply(f))
                &&& frame_model(f) == RespModel::Error("NOAUTH Authentication required"@)
                &&& final(store)@ == old(store)@
            } else if name == "AUTH"@ {
                &&& final(store)@ == old(store)@
                &&& match auth_spec(args, opt_chars(config.requirepass)) {
                    Ok(ok) => (r matches Ok(RedisStep::Reply(f)) && frame_model(f) == RespModel::SimpleString("OK"@))
                        && final(ctx).authed == ok,
                    Err(e) => r == Err::<RedisStep, ProtoError>(e),
                }
            } else if name == "HELLO"@ {
                let (res, authed, client, v) = hello_spec(args, *old(ctx), opt_chars(config.requirepass));
                &&& final(store)@ == old(store)@
                &&& final(ctx).authed == authed
                &&& opt_chars(final(ctx).client_name) == client
                &&& final(ctx).resp_version == v
                &&& final(ctx).db == old(ctx).db
                &&& match res {
                    Ok(m) => r matches Ok(RedisStep::Reply(f)) && frame_model(f) == m,
                    Err(e) => r == Err::<RedisStep, ProtoError>(e),
                }
            } else if name == "QUIT"@ {
                &&& r matches Ok(RedisStep::ReplyAndClose(f))
                &&& frame_model(f) == RespModel::SimpleString("OK"@)
                &&& final(store)@ == old(store)@
            } else if name == "SELECT"@ {
                &&& final(store)@ == old(store)@
                &&& if args.len() == 0 {
                    r == Err::<RedisStep, ProtoError>(ProtoError::Message("ERR wrong number of arguments"))
                } else {
                    match parse_i64_spec(args[0]) {
                        None => r == Err::<RedisStep, ProtoError>(ProtoError::Parse("invalid number")),
                        Some(x) => if x < 0 {
                            (r matches Ok(RedisStep::Reply(f)) && frame_model(f) == RespModel::Error(
                                "ERR invalid DB index"@,
                            )) && final(ctx).db == old(ctx).db
                        } else {
                            (r matches Ok(RedisStep::Reply(f)) && frame_model(f) == RespModel::SimpleString("OK"@))
                                && final(ctx).db == x as usize
                        },
                    }
                }
            } else if name != "HELLO"@ && decrby_overflows(name, args) {
                r matches Ok(RedisStep::Close) && final(store)@ == old(store)@
            } else {
                args.len() <= i64::MAX ==> r matches Ok(RedisStep::Reply(_))
            }
        },
{
    proof {
        use_type_invariant(&*store);
    }
    let cmd = match RedisCommand::from_frame(frame) {
        Ok(c) => c,
        Err(e) => {
            return Ok(RedisStep::Reply(err_frame(e)));
        },
    };
    proof {
        reveal_strlit("AUTH");
        reveal_strlit("HELLO");
        reveal_strlit("QUIT");
        reveal_strlit("SELECT");
        reveal_strlit("DECRBY");
    }
    let name = cmd.name.as_str();
    if !ctx.authed && !str_eq(name, "AUTH") && !str_eq(name, "HELLO") {
        return Ok(RedisStep::Reply(RespFrame::Error(String::from_str("NOAUTH Authentication required"))));
    }
    if str_eq(name, "AUTH") {
        let ok = match handle_auth(&cmd.args, config) {
            Ok(ok) => ok,
            Err(e) => {
                return Err(e);
            },
        };
        ctx.authed = ok;
        return Ok(RedisStep::Reply(simple("OK")));
    }
    if str_eq(name, "HELLO") {
        let response = match handle_hello(&cmd.args, ctx, config) {
            Ok(f) => f,
            Err(e) => {
                return Err(e);
            },
        };
        return Ok(RedisStep::Reply(response));
    }
    if str_eq(name, "QUIT") {
        return Ok(RedisStep::ReplyAndClose(simple("OK")));
    }
    if str_eq(name, "SELECT") {
        if cmd.args.len() == 0 {
            return Err(ProtoError::Message("ERR wrong number of arguments"));
        }
        let idx = match parse_i64(cmd.args[0].as_slice()) {
            Some(x) => x,
            None => {
                return Err(ProtoError::Parse("invalid number"));
            },
        };
        if idx < 0 {
            return Ok(RedisStep::Reply(RespFrame::Error(String::from_str("ERR invalid DB index"))));
        }
        ctx.db = idx as usize;
        return Ok(RedisStep::Reply(simple("OK")));
    }
    if cmd.args.len() == 2 && str_eq(name, "DECRBY") {
        if let Some(x) = parse_i64(cmd.args[1].as_slice()) {
            if x == i64::MIN {
                return Ok(RedisStep::Close);
            }
        }
    }
    if cmd.args.len() as u64 > 0x7fff_ffff_ffff_ffffu64 {
        return Ok(RedisStep::Close);
    }
    match handler.handle(&cmd, ctx, store) {
        Ok(f) => Ok(RedisStep::Reply(f)),
        Err(e) => Ok(RedisStep::Reply(err_frame(e))),
    }
}

} // verus!
