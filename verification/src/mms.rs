//! A media streaming protocol (MMS): frames, stream descriptions, and the decisions of a
//! server session and a client.
use vstd::prelude::*;
use crate::error::{ProtoError, ProtoResult};
use crate::text::{
    chars_of, decimal, lines, lines_of, lossy_text, parse_usize, parse_usize_spec, push_char, push_decimal, push_text,
    str_eq, string_from_chars, string_from_utf8_lossy, trim, trim_chars, utf8_bytes,
};
use crate::wire::{be32, copy_range, get_be32, push_be32, push_bytes, read_be32};
use vstd::utf8::encode_utf8;

verus! {

/// The magic that starts every frame, `MMS1`.
pub open spec fn magic() -> Seq<u8> {
    seq![77u8, 77u8, 83u8, 49u8]
}

/// The command of a frame.
#[derive(Debug, Clone, Copy, PartialEq, Eq, Structural)]
pub enum MmsCommand {
    Hello,
    Auth,
    Describe,
    Play,
    Data,
    Bye,
    Error,
    Okay,
}

/// The code of each command on the wire.
pub open spec fn command_code(c: MmsCommand) -> u8 {
    match c {
        MmsCommand::Hello => 1,
        MmsCommand::Auth => 2,
        MmsCommand::Describe => 3,
        MmsCommand::Play => 4,
        MmsCommand::Data => 5,
        MmsCommand::Bye => 6,
        MmsCommand::Error => 7,
        MmsCommand::Okay => 8,
    }
}

/// The command with code `v`, if there is one.
pub open spec fn command_from(v: u8) -> Option<MmsCommand> {
    if v == 1 {
        Some(MmsCommand::Hello)
    } else if v == 2 {
        Some(MmsCommand::Auth)
    } else if v == 3 {
        Some(MmsCommand::Describe)
    } else if v == 4 {
        Some(MmsCommand::Play)
    } else if v == 5 {
        Some(MmsCommand::Data)
    } else if v == 6 {
        Some(MmsCommand::Bye)
    } else if v == 7 {
        Some(MmsCommand::Error)
    } else if v == 8 {
        Some(MmsCommand::Okay)
    } else {
        None
    }
}

impl MmsCommand {
    /// The code on the wire.
    pub fn code(&self) -> (c: u8)
        ensures
            c == command_code(*self),
    {
        match self {
            MmsCommand::Hello => 1,
            MmsCommand::Auth => 2,
            MmsCommand::Describe => 3,
            MmsCommand::Play => 4,
            MmsCommand::Data => 5,
            MmsCommand::Bye => 6,
            MmsCommand::Error => 7,
            MmsCommand::Okay => 8,
        }
    }
}

/// A frame: command, stream id and payload.
#[derive(Debug, Clone)]
pub struct MmsFrame {
    pub command: MmsCommand,
    pub stream_id: u32,
    pub payload: Vec<u8>,
}

/// The bytes of a frame: magic, command code, stream id and payload length (32 bits,
/// big-endian, the length modulo 2^32), payload.
pub open spec fn frame_bytes(c: MmsCommand, stream_id: u32, payload: Seq<u8>) -> Seq<u8> {
    magic() + seq![command_code(c)] + be32(stream_id) + be32((payload.len() % 0x1_0000_0000) as u32) + payload
}

/// The frame at the start of `d`; `None` when the header is short, the magic or command
/// wrong, or the payload beyond the data. Bytes after the payload are ignored.
pub open spec fn frame_decode(d: Seq<u8>) -> Option<(MmsCommand, u32, Seq<u8>)> {
    if d.len() < 13 || d.subrange(0, 4) != magic() {
        None
    } else {
        match command_from(d[4]) {
            None => None,
            Some(c) => {
                let len = get_be32(d, 9) as int;
                if d.len() < 13 + len {
                    None
                } else {
                    Some((c, get_be32(d, 5), d.subrange(13, 13 + len)))
                }
            },
        }
    }
}

impl MmsFrame {
    /// The bytes of the frame.
    pub fn encode(&self) -> (out: Vec<u8>)
        ensures
            out@ == frame_bytes(self.command, self.stream_id, self.payload@),
    {
        let mut out: Vec<u8> = Vec::new();
        out.push(77);
        out.push(77);
        out.push(83);
        out.push(49);
        out.push(self.command.code());
        push_be32(&mut out, self.stream_id);
        push_be32(&mut out, (self.payload.len() as u64 % 0x1_0000_0000) as u32);
        push_bytes(&mut out, self.payload.as_slice());
        assert(out@ =~= frame_bytes(self.command, self.stream_id, self.payload@));
        out
    }

    /// Reads a frame from the start of `data`.
    pub fn decode(data: &[u8]) -> (r: ProtoResult<MmsFrame>)
        ensures
            match r {
                Ok(f) => frame_decode(data@) == Some((f.command, f.stream_id, f.payload@)),
                Err(e) => frame_decode(data@) is None && e is Parse,
            },
    {
        if data.len() < 13 {
            return Err(ProtoError::Parse("mms frame too short"));
        }
        if !(data[0] == 77 && data[1] == 77 && data[2] == 83 && data[3] == 49) {
            proof {
                if data@.subrange(0, 4) == magic() {
                    assert(data@[0] == data@.subrange(0, 4)[0]);
                    assert(data@[1] == data@.subrange(0, 4)[1]);
                    assert(data@[2] == data@.subrange(0, 4)[2]);
                    assert(data@[3] == data@.subrange(0, 4)[3]);
                }
            }
            return Err(ProtoError::Parse("mms bad magic"));
        }
        assert(data@.subrange(0, 4) =~= magic());
        let b = data[4];
        let command = if b == 1 {
            MmsCommand::Hello
        } else if b == 2 {
            MmsCommand::Auth
        } else if b == 3 {
            MmsCommand::Describe
        } else if b == 4 {
            MmsCommand::Play
        } else if b == 5 {
            MmsCommand::Data
        } else if b == 6 {
            MmsCommand::Bye
        } else if b == 7 {
            MmsCommand::Error
        } else if b == 8 {
            MmsCommand::Okay
        } else {
            return Err(ProtoError::Parse("mms unknown command"));
        };
        let stream_id = read_be32(data, 5);
        let len = read_be32(data, 9) as usize;
        if data.len() - 13 < len {
            return Err(ProtoError::Parse("mms payload length invalid"));
        }
        Ok(MmsFrame { command, stream_id, payload: copy_range(data, 13, len) })
    }
}

/// Decoding the bytes of a frame whose payload a 32-bit length can count gives the frame
/// back, whatever follows it.
pub proof fn lemma_frame_roundtrip(c: MmsCommand, stream_id: u32, payload: Seq<u8>, rest: Seq<u8>)
    requires
        payload.len() < 0x1_0000_0000,
    ensures
        frame_decode(frame_bytes(c, stream_id, payload) + rest) == Some((c, stream_id, payload)),
{
    let n = payload.len() as u32;
    let d = frame_bytes(c, stream_id, payload) + rest;
    let head = magic() + seq![command_code(c)];
    crate::wire::lemma_fixed_width_roundtrip(head, be32(n) + payload + rest, 0, stream_id, 0);
    assert(d =~= head + be32(stream_id) + (be32(n) + payload + rest));
    crate::wire::lemma_fixed_width_roundtrip(head + be32(stream_id), payload + rest, 0, n, 0);
    assert(d =~= (head + be32(stream_id)) + be32(n) + (payload + rest));
    assert(d.subrange(0, 4) =~= magic());
    assert(d.subrange(13, 13 + n) =~= payload);
}

/// The payload length that a frame header announces.
pub fn header_payload_len(header: [u8; 13]) -> (n: usize)
    ensures
        n == get_be32(header@, 9),
{
    read_be32(header.as_slice(), 9) as usize
}

/// What a stream is: its content type and its length in bytes.
#[derive(Debug, Clone)]
pub struct MmsDescription {
    pub content_type: String,
    pub length: usize,
}

/// The text of a description: the content type and the length, each on a line.
pub open spec fn description_text(content_type: Seq<char>, length: usize) -> Seq<char> {
    content_type + seq!['\n'] + decimal(length as nat) + seq!['\n']
}

/// The description a text holds: its first line is the content type and its second the
/// length; `None` when a line is missing or the length is not a number.
pub open spec fn description_decode(d: Seq<u8>) -> Option<(Seq<char>, usize)> {
    let ls = lines_of(lossy_text(d));
    if ls.len() < 2 {
        None
    } else {
        match parse_usize_spec(ls[1]) {
            Some(n) => Some((ls[0], n)),
            None => None,
        }
    }
}

impl MmsDescription {
    /// The text of the description, as UTF-8.
    pub fn encode(&self) -> (out: Vec<u8>)
        ensures
            out@ == encode_utf8(description_text(self.content_type@, self.length)),
    {
        let mut s = String::new();
        push_text(&mut s, self.content_type.as_str());
        push_char(&mut s, '\n');
        push_decimal(&mut s, self.length as u64);
        push_char(&mut s, '\n');
        assert(s@ =~= description_text(self.content_type@, self.length));
        utf8_bytes(s.as_str())
    }

    /// Reads a description.
    pub fn decode(data: &[u8]) -> (r: ProtoResult<MmsDescription>)
        ensures
            match r {
                Ok(d) => description_decode(data@) == Some((d.content_type@, d.length)),
                Err(e) => description_decode(data@) is None && e is Parse,
            },
    {
        let text = string_from_utf8_lossy(data);
        let cs = chars_of(text.as_str());
        let ls = lines(cs.as_slice());
        if ls.len() == 0 {
            return Err(ProtoError::Parse("mms description missing type"));
        }
        if ls.len() == 1 {
            return Err(ProtoError::Parse("mms description missing length"));
        }
        let content_type = string_from_chars(ls[0].as_slice());
        match parse_usize(ls[1].as_slice()) {
            Some(length) => Ok(MmsDescription { content_type, length }),
            None => Err(ProtoError::Parse("mms description length invalid")),
        }
    }
}

/// Serves the content of streams.
pub trait MmsHandler {
    /// What the stream at `path` is.
    fn describe(&self, path: &str) -> ProtoResult<MmsDescription>;

    /// The content of the stream at `path`.
    fn open(&self, path: &str) -> ProtoResult<Vec<u8>>;
}

/// The content of the first file at `path`.
pub open spec fn file_lookup(files: Seq<(String, Vec<u8>)>, path: Seq<char>) -> Option<Seq<u8>>
    decreases files.len(),
{
    if files.len() == 0 {
        None
    } else if files[0].0@ == path {
        Some(files[0].1@)
    } else {
        file_lookup(files.drop_first(), path)
    }
}

/// Whether no path names two files.
pub open spec fn paths_distinct(files: Seq<(String, Vec<u8>)>) -> bool {
    forall|i: int, j: int| 0 <= i < j < files.len() ==> files[i].0@ != files[j].0@
}

/// A handler that serves files held in memory, all of one content type; no path names
/// two files.
#[derive(Debug)]
pub struct InMemoryMmsHandler {
    content_type: String,
    files: Vec<(String, Vec<u8>)>,
}

impl InMemoryMmsHandler {
    #[verifier::type_invariant]
    spec fn paths_unique(self) -> bool {
        paths_distinct(self.files@)
    }

    /// The files the handler serves, by path.
    pub closed spec fn file_list(&self) -> Seq<(String, Vec<u8>)> {
        self.files@
    }

    /// The content type of every file.
    pub closed spec fn content_type_of(&self) -> Seq<char> {
        self.content_type@
    }

    /// A handler for these files, each under a path of its own.
    pub fn new(content_type: String, files: Vec<(String, Vec<u8>)>) -> (h: InMemoryMmsHandler)
        requires
            paths_distinct(files@),
        ensures
            h.content_type_of() == content_type@,
            h.file_list() == files@,
            paths_distinct(h.file_list()),
    {
        InMemoryMmsHandler { content_type, files }
    }

    fn find(&self, path: &str) -> (r: Option<usize>)
        ensures
            match r {
                Some(i) => i < self.files@.len() && self.files@[i as int].0@ == path@
                    && file_lookup(self.files@, path@) == Some(self.files@[i as int].1@),
                None => file_lookup(self.files@, path@) is None,
            },
    {
        let mut i: usize = 0;
        assert(self.files@.subrange(0, self.files@.len() as int) == self.files@);
        while i < self.files.len()
            invariant
                i <= self.files@.len(),
                file_lookup(self.files@, path@) == file_lookup(self.files@.subrange(i as int, self.files@.len() as int), path@),
            decreases self.files.len() - i,
        {
            proof {
                let rest = self.files@.subrange(i as int, self.files@.len() as int);
                assert(rest[0] == self.files@[i as int]);
                assert(rest.drop_first() == self.files@.subrange(i + 1, self.files@.len() as int));
            }
            if str_eq(self.files[i].0.as_str(), path) {
                return Some(i);
            }
            i = i + 1;
        }
        None
    }
}

impl Clone for InMemoryMmsHandler {
    /// A handler with the same content type and the same files.
    fn clone(&self) -> (r: Self)
        ensures
            r.content_type_of() == self.content_type_of(),
            r.file_list().len() == self.file_list().len(),
            forall|i: int| 0 <= i < self.file_list().len() ==> (#[trigger] r.file_list()[i]).0@ == self.file_list()[i].0@
                && r.file_list()[i].1@ == self.file_list()[i].1@,
    {
        proof {
            use_type_invariant(self);
        }
        let mut files: Vec<(String, Vec<u8>)> = Vec::new();
        let mut i: usize = 0;
        while i < self.files.len()
            invariant
                i <= self.files@.len(),
                files@.len() == i,
                paths_distinct(self.files@),
                forall|k: int| 0 <= k < i ==> (#[trigger] files@[k]).0@ == self.files@[k].0@ && files@[k].1@ == self.files@[k].1@,
            decreases self.files.len() - i,
        {
            let name = self.files[i].0.clone();
            let data = self.files[i].1.clone();
            assert(data@ =~= self.files@[i as int].1@);
            files.push((name, data));
            i = i + 1;
        }
        assert(paths_distinct(files@)) by {
            assert forall|a: int, b: int| 0 <= a < b < files@.len() implies files@[a].0@ != files@[b].0@ by {
                assert(files@[a].0@ == self.files@[a].0@);
                assert(files@[b].0@ == self.files@[b].0@);
            }
        }
        InMemoryMmsHandler { content_type: self.content_type.clone(), files }
    }
}

/// With no path naming two files, the file a lookup finds is the one file under that path.
pub proof fn lemma_file_lookup_unique(files: Seq<(String, Vec<u8>)>, i: int)
    requires
        paths_distinct(files),
        0 <= i < files.len(),
    ensures
        file_lookup(files, files[i].0@) == Some(files[i].1@),
    decreases files.len(),
{
    if i > 0 {
        assert(files[0].0@ != files[i].0@);
        let rest = files.drop_first();
        assert(rest[i - 1] == files[i]);
        assert(paths_distinct(rest)) by {
            assert forall|a: int, b: int| 0 <= a < b < rest.len() implies rest[a].0@ != rest[b].0@ by {
                assert(rest[a] == files[a + 1] && rest[b] == files[b + 1]);
            }
        }
        lemma_file_lookup_unique(rest, i - 1);
    }
}

impl MmsHandler for InMemoryMmsHandler {
    /// The content type and the length of the file at `path`; an error when there is none.
    fn describe(&self, path: &str) -> (r: ProtoResult<MmsDescription>)
        ensures
            match r {
                Ok(d) => file_lookup(self.file_list(), path@) matches Some(f) && d.content_type@ == self.content_type_of()
                    && d.length == f.len(),
                Err(e) => file_lookup(self.file_list(), path@) is None && e == ProtoError::Message("mms file not found"),
            },
    {
        match self.find(path) {
            Some(i) => Ok(MmsDescription { content_type: self.content_type.clone(), length: self.files[i].1.len() }),
            None => Err(ProtoError::Message("mms file not found")),
        }
    }

    /// The content of the file at `path`; an error when there is none.
    fn open(&self, path: &str) -> (r: ProtoResult<Vec<u8>>)
        ensures
            match r {
                Ok(d) => file_lookup(self.file_list(), path@) == Some(d@),
                Err(e) => file_lookup(self.file_list(), path@) is None && e == ProtoError::Message("mms file not found"),
            },
    {
        match self.find(path) {
            Some(i) => {
                let mut out: Vec<u8> = Vec::new();
                push_bytes(&mut out, self.files[i].1.as_slice());
                Ok(out)
            },
            None => Err(ProtoError::Message("mms file not found")),
        }
    }
}

/// What a server is configured with: the size of the data chunks it streams, and whether
/// a client must authenticate with a token.
#[derive(Debug, Clone)]
pub struct MmsServerConfig {
    pub chunk_size: usize,
    pub require_auth: bool,
    pub auth_token: Option<String>,
}

impl Default for MmsServerConfig {
    /// Chunks of 1024 bytes, no authentication.
    fn default() -> (r: Self)
        ensures
            r.chunk_size == 1024,
            !r.require_auth,
            r.auth_token is None,
    {
        MmsServerConfig { chunk_size: 1024, require_auth: false, auth_token: None }
    }
}

/// What a client is configured with: the token it authenticates with, if any.
#[derive(Debug, Clone)]
pub struct MmsClientConfig {
    pub auth_token: Option<String>,
}

impl Default for MmsClientConfig {
    /// No token.
    fn default() -> (r: Self)
        ensures
            r.auth_token is None,
    {
        MmsClientConfig { auth_token: None }
    }
}

/// `d` cut into pieces of `n` bytes, the last one possibly shorter.
pub open spec fn chunks(d: Seq<u8>, n: nat) -> Seq<Seq<u8>>
    decreases d.len(),
{
    if d.len() == 0 || n == 0 {
        Seq::empty()
    } else if d.len() <= n {
        seq![d]
    } else {
        seq![d.subrange(0, n as int)] + chunks(d.subrange(n as int, d.len() as int), n)
    }
}

/// A frame as values: command, stream id and payload.
pub type FrameModel = (MmsCommand, u32, Seq<u8>);

/// The frames of a sequence, as values.
pub open spec fn frames_model(fs: Seq<MmsFrame>) -> Seq<FrameModel> {
    fs.map_values(|f: MmsFrame| (f.command, f.stream_id, f.payload@))
}

/// The frames that stream `data`: a data frame per chunk, then a bye frame.
pub open spec fn play_spec(stream_id: u32, data: Seq<u8>, n: nat) -> Seq<FrameModel> {
    chunks(data, n).map_values(|c: Seq<u8>| (MmsCommand::Data, stream_id, c)).push(
        (MmsCommand::Bye, stream_id, Seq::empty()),
    )
}

/// The frames that stream `data` in chunks of `chunk_size` bytes.
pub fn play_frames(stream_id: u32, data: &[u8], chunk_size: usize) -> (r: Vec<MmsFrame>)
    requires
        chunk_size > 0,
    ensures
        frames_model(r@) == play_spec(stream_id, data@, chunk_size as nat),
{
    let ghost n = chunk_size as nat;
    let mut out: Vec<MmsFrame> = Vec::new();
    let mut pos: usize = 0;
    proof {
        assert(data@.subrange(0, data@.len() as int) == data@);
        assert(frames_model(out@) =~= Seq::<FrameModel>::empty());
    }
    while pos < data.len()
        invariant
            pos <= data@.len(),
            n == chunk_size,
            chunk_size > 0,
            frames_model(out@) + chunks(data@.subrange(pos as int, data@.len() as int), n).map_values(
                |c: Seq<u8>| (MmsCommand::Data, stream_id, c),
            ) == chunks(data@, n).map_values(|c: Seq<u8>| (MmsCommand::Data, stream_id, c)),
        decreases data.len() - pos,
    {
        let rest_len = data.len() - pos;
        let take = if rest_len < chunk_size { rest_len } else { chunk_size };
        let piece = copy_range(data, pos, take);
        let ghost rest = data@.subrange(pos as int, data@.len() as int);
        let ghost before = frames_model(out@);
        out.push(MmsFrame { command: MmsCommand::Data, stream_id, payload: piece });
        proof {
            let f = |c: Seq<u8>| (MmsCommand::Data, stream_id, c);
            assert(frames_model(out@) =~= before.push((MmsCommand::Data, stream_id, piece@)));
            if rest.len() <= n {
                assert(piece@ =~= rest);
                assert(chunks(rest, n) == seq![rest]);
                assert(data@.subrange(pos + take, data@.len() as int) =~= Seq::<u8>::empty());
                assert(chunks(data@.subrange(pos + take, data@.len() as int), n) =~= Seq::<Seq<u8>>::empty());
                assert(chunks(rest, n).map_values(f) =~= seq![(MmsCommand::Data, stream_id, rest)]);
                assert(chunks(data@.subrange(pos + take, data@.len() as int), n).map_values(f) =~= Seq::<FrameModel>::empty());
            } else {
                assert(piece@ =~= rest.subrange(0, n as int));
                assert(rest.subrange(n as int, rest.len() as int) =~= data@.subrange(pos + take, data@.len() as int));
                let tail = chunks(data@.subrange(pos + take, data@.len() as int), n);
                assert(chunks(rest, n) == seq![piece@] + tail);
                assert(chunks(rest, n).map_values(f) =~= seq![(MmsCommand::Data, stream_id, piece@)] + tail.map_values(f));
            }
            assert(frames_model(out@) + chunks(data@.subrange(pos + take, data@.len() as int), n).map_values(f)
                =~= before + chunks(rest, n).map_values(f));
        }
        pos = pos + take;
    }
    proof {
        assert(data@.subrange(pos as int, data@.len() as int) =~= Seq::<u8>::empty());
        assert(chunks(Seq::<u8>::empty(), n).map_values(|c: Seq<u8>| (MmsCommand::Data, stream_id, c)) =~= Seq::<
            FrameModel,
        >::empty());
    }
    let ghost before = frames_model(out@);
    out.push(MmsFrame { command: MmsCommand::Bye, stream_id, payload: Vec::new() });
    proof {
        assert(frames_model(out@) =~= before.push((MmsCommand::Bye, stream_id, Seq::empty())));
        assert(before + Seq::<FrameModel>::empty() =~= before);
    }
    out
}

/// Where a server session stands.
#[derive(Debug, Clone, Copy, PartialEq, Eq, Structural)]
pub enum MmsPhase {
    /// Waiting for the client's hello.
    AwaitHello,
    /// Waiting for the client's token.
    AwaitAuth,
    /// Serving requests.
    Ready,
}

/// A server session: where it stands, the stream path the hello named, and the stream id
/// of the hello.
#[derive(Debug, Clone)]
pub struct MmsSession {
    pub phase: MmsPhase,
    pub path: String,
    pub hello_stream_id: u32,
}

/// What a session does after a frame.
pub enum MmsAction {
    /// Send these frames and read on.
    Send(Vec<MmsFrame>),
    /// Send these frames and end the session.
    Finish(Vec<MmsFrame>),
    /// Describe the session's path with the handler, and answer with `describe_reply`.
    Describe(u32),
    /// Open the session's path with the handler, and answer with `play_reply`.
    Play(u32),
    /// End the session with this error.
    Fail(ProtoError),
}

/// The text of an error frame: the message in UTF-8.
pub open spec fn text_bytes(m: Seq<char>) -> Seq<u8> {
    encode_utf8(m)
}

fn single(c: MmsCommand, stream_id: u32, payload: Vec<u8>) -> (r: Vec<MmsFrame>)
    ensures
        frames_model(r@) == seq![(c, stream_id, payload@)],
{
    let r = vec![MmsFrame { command: c, stream_id, payload }];
    assert(frames_model(r@) =~= seq![(c, stream_id, payload@)]);
    r
}

/// The token the client sent, as the server compares it: trimmed.
pub open spec fn token_matches(expected: Option<String>, payload: Seq<u8>) -> bool {
    expected matches Some(t) && t@ == trim(lossy_text(payload))
}

impl MmsSession {
    /// A session waiting for the client's hello.
    pub fn new() -> (s: MmsSession)
        ensures
            s.phase == MmsPhase::AwaitHello,
            s.path@ == Seq::<char>::empty(),
            s.hello_stream_id == 0,
    {
        MmsSession { phase: MmsPhase::AwaitHello, path: String::new(), hello_stream_id: 0 }
    }

    /// Serves a frame. The first frame must be a hello: it names the path, gets an OK, and
    /// leads to authentication when the server requires it. Authentication wants an auth
    /// frame whose trimmed token is the configured one; anything else gets an error frame
    /// and ends the session. A ready session describes and plays its path and ends at bye;
    /// other frames are ignored.
    pub fn step(&mut self, config: &MmsServerConfig, frame: &MmsFrame) -> (r: MmsAction)
        ensures
            match old(self).phase {
                MmsPhase::AwaitHello => if frame.command != MmsCommand::Hello {
                    r == MmsAction::Fail(ProtoError::Parse("mms expected hello"))
                } else {
                    &&& r matches MmsAction::Send(fs) && frames_model(fs@) == seq![
                        (MmsCommand::Okay, frame.stream_id, Seq::<u8>::empty()),
                    ]
                    &&& final(self).path@ == lossy_text(frame.payload@)
                    &&& final(self).hello_stream_id == frame.stream_id
                    &&& final(self).phase == if config.require_auth { MmsPhase::AwaitAuth } else { MmsPhase::Ready }
                },
                MmsPhase::AwaitAuth => {
                    &&& final(self).path == old(self).path
                    &&& final(self).hello_stream_id == old(self).hello_stream_id
                    &&& if frame.command != MmsCommand::Auth {
                        r matches MmsAction::Finish(fs) && frames_model(fs@) == seq![
                            (MmsCommand::Error, old(self).hello_stream_id, text_bytes("auth required"@)),
                        ]
                    } else if !token_matches(config.auth_token, frame.payload@) {
                        r matches MmsAction::Finish(fs) && frames_model(fs@) == seq![
                            (MmsCommand::Error, old(self).hello_stream_id, text_bytes("auth failed"@)),
                        ]
                    } else {
                        (r matches MmsAction::Send(fs) && fs@.len() == 0) && final(self).phase == MmsPhase::Ready
                    }
                },
                MmsPhase::Ready => {
                    &&& *final(self) == *old(self)
                    &&& match frame.command {
                        MmsCommand::Describe => r == MmsAction::Describe(frame.stream_id),
                        MmsCommand::Play => r == MmsAction::Play(frame.stream_id),
                        MmsCommand::Bye => r matches MmsAction::Finish(fs) && fs@.len() == 0,
                        _ => r matches MmsAction::Send(fs) && fs@.len() == 0,
                    }
                },
            },
    {
        proof {
            reveal_strlit("auth required");
            reveal_strlit("auth failed");
        }
        match self.phase {
            MmsPhase::AwaitHello => {
                if frame.command != MmsCommand::Hello {
                    return MmsAction::Fail(ProtoError::Parse("mms expected hello"));
                }
                self.path = string_from_utf8_lossy(frame.payload.as_slice());
                self.hello_stream_id = frame.stream_id;
                self.phase = if config.require_auth { MmsPhase::AwaitAuth } else { MmsPhase::Ready };
                let empty: Vec<u8> = Vec::new();
                assert(empty@ =~= Seq::<u8>::empty());
                MmsAction::Send(single(MmsCommand::Okay, frame.stream_id, empty))
            },
            MmsPhase::AwaitAuth => {
                if frame.command != MmsCommand::Auth {
                    return MmsAction::Finish(single(MmsCommand::Error, self.hello_stream_id, utf8_bytes("auth required")));
                }
                let token = string_from_utf8_lossy(frame.payload.as_slice());
                let tc = chars_of(token.as_str());
                let trimmed = trim_chars(tc.as_slice());
                let t = string_from_chars(trimmed.as_slice());
                let ok = match &config.auth_token {
                    Some(expected) => str_eq(expected.as_str(), t.as_str()),
                    None => false,
                };
                if !ok {
                    return MmsAction::Finish(single(MmsCommand::Error, self.hello_stream_id, utf8_bytes("auth failed")));
                }
                self.phase = MmsPhase::Ready;
                MmsAction::Send(Vec::new())
            },
            MmsPhase::Ready => {
                match frame.command {
                    MmsCommand::Describe => MmsAction::Describe(frame.stream_id),
                    MmsCommand::Play => MmsAction::Play(frame.stream_id),
                    MmsCommand::Bye => MmsAction::Finish(Vec::new()),
                    _ => MmsAction::Send(Vec::new()),
                }
            },
        }
    }
}

/// The answer to a describe request, given what the handler said: an OK frame with the
/// description's text, or the handler's error, which ends the session.
pub fn describe_reply(stream_id: u32, described: ProtoResult<MmsDescription>) -> (r: MmsAction)
    ensures
        match described {
            Ok(d) => r matches MmsAction::Send(fs) && frames_model(fs@) == seq![
                (MmsCommand::Okay, stream_id, encode_utf8(description_text(d.content_type@, d.length))),
            ],
            Err(e) => r == MmsAction::Fail(e),
        },
{
    match described {
        Ok(d) => MmsAction::Send(single(MmsCommand::Okay, stream_id, d.encode())),
        Err(e) => MmsAction::Fail(e),
    }
}

/// The answer to a play request, given what the handler opened: the content in data
/// frames of `chunk_size` bytes and a bye frame, or the handler's error, which ends the
/// session.
pub fn play_reply(stream_id: u32, opened: ProtoResult<Vec<u8>>, chunk_size: usize) -> (r: MmsAction)
    requires
        chunk_size > 0,
    ensures
        match opened {
            Ok(d) => r matches MmsAction::Send(fs) && frames_model(fs@) == play_spec(stream_id, d@, chunk_size as nat),
            Err(e) => r == MmsAction::Fail(e),
        },
{
    match opened {
        Ok(d) => MmsAction::Send(play_frames(stream_id, d.as_slice(), chunk_size)),
        Err(e) => MmsAction::Fail(e),
    }
}

/// A client's check of the server's answer to its hello or token: OK goes on, anything
/// else is the given error.
pub fn expect_ok(frame: &MmsFrame, failure: &'static str) -> (r: ProtoResult<()>)
    ensures
        r is Ok <==> frame.command == MmsCommand::Okay,
        r matches Err(e) ==> e == ProtoError::Message(failure),
{
    if frame.command == MmsCommand::Okay {
        Ok(())
    } else {
        Err(ProtoError::Message(failure))
    }
}

/// A client's reading of the answer to its describe request.
pub fn describe_result(frame: &MmsFrame) -> (r: ProtoResult<MmsDescription>)
    ensures
        frame.command != MmsCommand::Okay ==> r == Err::<MmsDescription, ProtoError>(
            ProtoError::Message("mms describe failed"),
        ),
        frame.command == MmsCommand::Okay ==> match r {
            Ok(d) => description_decode(frame.payload@) == Some((d.content_type@, d.length)),
            Err(e) => description_decode(frame.payload@) is None && e is Parse,
        },
{
    if frame.command == MmsCommand::Okay {
        MmsDescription::decode(frame.payload.as_slice())
    } else {
        Err(ProtoError::Message("mms describe failed"))
    }
}

/// A client's handling of a frame while it plays a stream: data is collected, bye ends the
/// stream, an error frame fails it, and other frames are ignored. The result says whether
/// to read on.
pub fn play_step(out: &mut Vec<u8>, frame: &MmsFrame) -> (r: ProtoResult<bool>)
    ensures
        match frame.command {
            MmsCommand::Data => r == Ok::<bool, ProtoError>(true) && final(out)@ == old(out)@ + frame.payload@,
            MmsCommand::Bye => r == Ok::<bool, ProtoError>(false) && final(out)@ == old(out)@,
            MmsCommand::Error => r == Err::<bool, ProtoError>(ProtoError::Message("mms play failed"))
                && final(out)@ == old(out)@,
            _ => r == Ok::<bool, ProtoError>(true) && final(out)@ == old(out)@,
        },
{
    match frame.command {
        MmsCommand::Data => {
            push_bytes(out, frame.payload.as_slice());
            Ok(true)
        },
        MmsCommand::Bye => Ok(false),
        MmsCommand::Error => Err(ProtoError::Message("mms play failed")),
        _ => Ok(true),
    }
}

/// A frame the client sends on its stream: its command, stream id and payload bytes.
pub fn client_frame(command: MmsCommand, stream_id: u32, text: &str) -> (f: MmsFrame)
    ensures
        f.command == command,
        f.stream_id == stream_id,
        f.payload@ == encode_utf8(text@),
{
    MmsFrame { command, stream_id, payload: utf8_bytes(text) }
}

} // verus!
