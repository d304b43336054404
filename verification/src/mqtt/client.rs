//! The client side of an MQTT session: the packets it sends and what it accepts in reply.
use vstd::prelude::*;
use crate::error::{ProtoError, ProtoResult};
use crate::mqtt::broker::{client_id_from_seed, generated_client_id};
use crate::mqtt::codec::{MqttModel, MqttPacket, opt_chars, topics_view};
use crate::ldap::model::copy_opt_string;

verus! {

/// A client's settings.
pub struct MqttClientConfig {
    pub client_id: String,
    pub keep_alive: u16,
    pub username: Option<String>,
    pub password: Option<String>,
}

impl Default for MqttClientConfig {
    /// An identifier made from the clock, a keep-alive of 30 seconds, no credentials.
    fn default() -> (c: Self)
        ensures
            exists|seed: u64| c.client_id@ == generated_client_id(seed),
            c.keep_alive == 30,
            c.username is None,
            c.password is None,
    {
        let seed = crate::clock::unix_nanos();
        MqttClientConfig { client_id: client_id_from_seed(seed), keep_alive: 30, username: None, password: None }
    }
}

/// The packet identifier that follows `id`: one more, with 0 skipped after 65535.
pub open spec fn next_packet_id_spec(id: u16) -> u16 {
    if id == 65535 {
        1
    } else {
        (id + 1) as u16
    }
}

/// A connected client: its settings and the packet identifier it uses next.
pub struct MqttClient {
    pub config: MqttClientConfig,
    pub next_packet_id: u16,
}

impl MqttClient {
    /// The CONNECT that opens a session with `config`: a clean session.
    pub fn connect_request(config: &MqttClientConfig) -> (p: MqttPacket)
        ensures
            p@ == (MqttModel::Connect {
                client_id: config.client_id@,
                keep_alive: config.keep_alive,
                username: opt_chars(config.username),
                password: opt_chars(config.password),
                clean_session: true,
            }),
    {
        MqttPacket::Connect {
            client_id: config.client_id.clone(),
            keep_alive: config.keep_alive,
            username: copy_opt_string(&config.username),
            password: copy_opt_string(&config.password),
            clean_session: true,
        }
    }

    /// The session that the broker's reply opens: a CONNACK with code 0 opens it, starting
    /// at packet identifier 1; another code is a refusal; another packet is an error.
    pub fn from_connack(config: MqttClientConfig, response: MqttPacket) -> (r: ProtoResult<MqttClient>)
        ensures
            (response@ matches MqttModel::ConnAck { return_code, .. } && return_code == 0) ==> (r matches Ok(c)
                && c.next_packet_id == 1 && c.config == config),
            (response@ matches MqttModel::ConnAck { return_code, .. } && return_code != 0) ==> r == Err::<
                MqttClient,
                ProtoError,
            >(ProtoError::Message("mqtt connect failed")),
            !(response@ is ConnAck) ==> r == Err::<MqttClient, ProtoError>(ProtoError::Parse("mqtt expected connack")),
    {
        match response {
            MqttPacket::ConnAck { return_code, .. } => {
                if return_code == 0 {
                    Ok(MqttClient { config, next_packet_id: 1 })
                } else {
                    Err(ProtoError::Message("mqtt connect failed"))
                }
            },
            _ => Err(ProtoError::Parse("mqtt expected connack")),
        }
    }

    fn take_packet_id(&mut self) -> (id: u16)
        ensures
            id == old(self).next_packet_id,
            final(self).next_packet_id == next_packet_id_spec(id),
            final(self).config == old(self).config,
    {
        let id = self.next_packet_id;
        self.next_packet_id = if id == 65535 {
            1
        } else {
            id + 1
        };
        id
    }

    /// The PUBLISH of `payload` on `topic`: not retained; above QoS 0 it takes the next
    /// packet identifier.
    pub fn publish_request(&mut self, topic: &str, payload: Vec<u8>, qos: u8) -> (p: MqttPacket)
        ensures
            p@ == (MqttModel::Publish {
                topic: topic@,
                payload: payload@,
                qos,
                retain: false,
                packet_id: if qos > 0 { Some(old(self).next_packet_id) } else { None },
            }),
            final(self).next_packet_id == (if qos > 0 {
                next_packet_id_spec(old(self).next_packet_id)
            } else {
                old(self).next_packet_id
            }),
            final(self).config == old(self).config,
    {
        let packet_id = if qos > 0 {
            Some(self.take_packet_id())
        } else {
            None
        };
        MqttPacket::Publish { topic: String::from_str(topic), payload, qos, retain: false, packet_id }
    }

    /// Whether a publish at `qos` waits for a PUBACK: at QoS 1 only.
    pub fn expects_puback(qos: u8) -> (r: bool)
        ensures
            r == (qos == 1),
    {
        qos == 1
    }

    /// The SUBSCRIBE of `topics`, with the next packet identifier.
    pub fn subscribe_request(&mut self, topics: Vec<(String, u8)>) -> (p: MqttPacket)
        ensures
            p@ == (MqttModel::Subscribe { packet_id: old(self).next_packet_id, topics: topics_view(topics@) }),
            final(self).next_packet_id == next_packet_id_spec(old(self).next_packet_id),
            final(self).config == old(self).config,
    {
        let packet_id = self.take_packet_id();
        MqttPacket::Subscribe { packet_id, topics }
    }

    /// Accepts the reply to a QoS 1 publish: a PUBACK.
    pub fn expect_puback(reply: &MqttPacket) -> (r: ProtoResult<()>)
        ensures
            r is Ok <==> reply@ is PubAck,
            r is Err ==> r == Err::<(), ProtoError>(ProtoError::Parse("mqtt expected puback")),
    {
        match reply {
            MqttPacket::PubAck { .. } => Ok(()),
            _ => Err(ProtoError::Parse("mqtt expected puback")),
        }
    }

    /// Accepts the reply to a subscribe: a SUBACK.
    pub fn expect_suback(reply: &MqttPacket) -> (r: ProtoResult<()>)
        ensures
            r is Ok <==> reply@ is SubAck,
            r is Err ==> r == Err::<(), ProtoError>(ProtoError::Parse("mqtt expected suback")),
    {
        match reply {
            MqttPacket::SubAck { .. } => Ok(()),
            _ => Err(ProtoError::Parse("mqtt expected suback")),
        }
    }

    /// Accepts the reply to a ping: a PINGRESP.
    pub fn expect_pingresp(reply: &MqttPacket) -> (r: ProtoResult<()>)
        ensures
            r is Ok <==> reply@ is PingResp,
            r is Err ==> r == Err::<(), ProtoError>(ProtoError::Parse("mqtt expected pingresp")),
    {
        match reply {
            MqttPacket::PingResp => Ok(()),
            _ => Err(ProtoError::Parse("mqtt expected pingresp")),
        }
    }
}

} // verus!
