//! The client side of a TDS session: the packets it sends and what it accepts in reply.
use vstd::prelude::*;
use crate::error::{ProtoError, ProtoResult};
use crate::tds::codec::{Login7, PreloginInfo, TdsMessageType, TdsPacket, TdsResponse, TdsToken, TokenModel, make_packet, outgoing_header, tds_text, tokens_read, tokens_view};
use crate::tds::server::TdsClientConfig;
use crate::text::utf8_bytes;
use crate::wire::be32;
use vstd::utf8::encode_utf8;

verus! {

/// The packet number that follows `id`: one more, with 0 skipped after 255.
pub open spec fn next_tds_packet_id(id: u8) -> u8 {
    if id == 255 {
        1
    } else {
        (id + 1) as u8
    }
}

/// A logged-in client: the packet number of its next query.
pub struct TdsClient {
    pub packet_id: u8,
}

impl TdsClient {
    /// The pre-login packet a client opens with: version 1, no encryption, packet 1.
    pub fn prelogin_request() -> (p: TdsPacket)
        ensures
            p.header == outgoing_header(TdsMessageType::Prelogin, 5, 1),
            p.payload@ == be32(1).push(0),
    {
        let info = PreloginInfo { version: 1, encryption: 0 };
        make_packet(TdsMessageType::Prelogin, info.encode(), 1)
    }

    /// The login packet for `config`, packet 1.
    pub fn login_request(config: &TdsClientConfig) -> (p: TdsPacket)
        ensures
            p.payload@ == tds_text(config.username@) + tds_text(config.password@) + tds_text(config.database@),
            p.header == outgoing_header(TdsMessageType::Login7, p.payload@.len(), 1),
    {
        let login = Login7 {
            username: config.username.clone(),
            password: config.password.clone(),
            database: config.database.clone(),
        };
        make_packet(TdsMessageType::Login7, login.encode(), 1)
    }

    /// The session that the server's answer to the login opens: refused when the answer
    /// holds an error token, an error when it does not decode.
    pub fn from_login_response(reply: &TdsPacket) -> (r: ProtoResult<TdsClient>)
        ensures
            tokens_read(reply.payload@, 0) is None ==> r is Err,
            tokens_read(reply.payload@, 0) matches Some(ts) ==> {
                if exists|i: int| 0 <= i < ts.len() && ts[i] is Error {
                    r == Err::<TdsClient, ProtoError>(ProtoError::Message("tds login failed"))
                } else {
                    r matches Ok(c) && c.packet_id == 1
                }
            },
    {
        let response = match TdsResponse::decode(reply.payload.as_slice()) {
            Ok(resp) => resp,
            Err(e) => {
                return Err(e);
            },
        };
        let ghost ts = tokens_view(response.tokens@);
        let mut i: usize = 0;
        while i < response.tokens.len()
            invariant
                i <= response.tokens.len(),
                ts == tokens_view(response.tokens@),
                tokens_read(reply.payload@, 0) == Some(ts),
                forall|k: int| 0 <= k < i ==> !(ts[k] is Error),
            decreases response.tokens.len() - i,
        {
            assert(ts[i as int] == response.tokens@[i as int]@);
            if let TdsToken::Error(_) = &response.tokens[i] {
                assert(ts[i as int] is Error);

                return Err(ProtoError::Message("tds login failed"));
            }
            i = i + 1;
        }
        Ok(TdsClient { packet_id: 1 })
    }

    /// The packet of a query: its UTF-8 text, under the client's current packet number,
    /// which then moves on.
    pub fn query_request(&mut self, sql: &str) -> (p: TdsPacket)
        ensures
            p.payload@ == encode_utf8(sql@),
            p.header == outgoing_header(TdsMessageType::SqlBatch, p.payload@.len(), old(self).packet_id),
            final(self).packet_id == next_tds_packet_id(old(self).packet_id),
    {
        let id = self.packet_id;
        self.packet_id = if id == 255 {
            1
        } else {
            id + 1
        };
        make_packet(TdsMessageType::SqlBatch, utf8_bytes(sql), id)
    }
}

} // verus!
