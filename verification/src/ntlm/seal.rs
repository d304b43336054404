//! Message signing and sealing with the keys of an NTLM session.
use vstd::prelude::*;
use crate::ntlm::hash::{hmac_md5, hmac_md5_spec};
use crate::ntlm::rc4::{Rc4, Rc4Model, rc4_run, xor_bytes};
use crate::wire::{le32, push_le32, push_bytes};

verus! {

/// The signature of `message` as sequence number `seq` under `key`: version one,
/// the first eight bytes of the HMAC of the sequence number and message, the sequence number.
pub open spec fn signature_bytes(key: Seq<u8>, seq: u32, message: Seq<u8>) -> Seq<u8> {
    le32(1) + hmac_md5_spec(key, le32(seq) + message).subrange(0, 8) + le32(seq)
}

/// Signs messages with increasing sequence numbers.
#[derive(Debug, Clone)]
pub struct NtlmSigner {
    key: [u8; 16],
    seq: u32,
}

impl View for NtlmSigner {
    type V = (Seq<u8>, u32);

    closed spec fn view(&self) -> (Seq<u8>, u32) {
        (self.key@, self.seq)
    }
}

impl NtlmSigner {
    /// A signer that starts at sequence number zero.
    pub fn new(key: [u8; 16]) -> (s: NtlmSigner)
        ensures
            s@ == (key@, 0u32),
    {
        NtlmSigner { key, seq: 0 }
    }

    /// Signs `message` and advances the sequence number, wrapping at 2^32.
    pub fn sign(&mut self, message: &[u8]) -> (sig: [u8; 16])
        ensures
            sig@ == signature_bytes(old(self)@.0, old(self)@.1, message@),
            final(self)@ == (old(self)@.0, old(self)@.1.wrapping_add(1)),
    {
        let mut payload: Vec<u8> = Vec::new();
        push_le32(&mut payload, self.seq);
        push_bytes(&mut payload, message);
        let checksum = hmac_md5(self.key.as_slice(), payload.as_slice());
        let mut v: Vec<u8> = Vec::new();
        push_le32(&mut v, 1);
        push_bytes(&mut v, &checksum.as_slice()[0..8]);
        push_le32(&mut v, self.seq);
        let sig = [v[0], v[1], v[2], v[3], v[4], v[5], v[6], v[7], v[8], v[9], v[10], v[11], v[12],
            v[13], v[14], v[15]];
        assert(sig@ =~= v@);
        self.seq = self.seq.wrapping_add(1);
        sig
    }
}

/// Encrypts messages and signs them, encrypting the checksum too.
#[derive(Debug, Clone)]
pub struct NtlmSealer {
    rc4: Rc4,
    signer: NtlmSigner,
}

impl View for NtlmSealer {
    type V = (Rc4Model, (Seq<u8>, u32));

    closed spec fn view(&self) -> (Rc4Model, (Seq<u8>, u32)) {
        (self.rc4@, self.signer@)
    }
}

/// The sealed message and its signature, and the cipher state afterwards.
pub open spec fn seal_spec(st: (Rc4Model, (Seq<u8>, u32)), message: Seq<u8>) -> (Seq<u8>, Seq<u8>, Rc4Model) {
    let (cipher, (key, seq)) = st;
    let (c1, ks1) = rc4_run(cipher, message.len());
    let (c2, ks2) = rc4_run(c1, 8);
    let sig = signature_bytes(key, seq, message);
    (xor_bytes(message, ks1), sig.subrange(0, 4) + xor_bytes(sig.subrange(4, 12), ks2) + sig.subrange(12, 16), c2)
}

impl NtlmSealer {
    /// A sealer with a cipher keyed by the sealing key and a signer with the signing key.
    pub fn new(sealing_key: [u8; 16], signing_key: [u8; 16]) -> (s: NtlmSealer)
        ensures
            s@ == (crate::ntlm::rc4::rc4_init(sealing_key@), (signing_key@, 0u32)),
    {
        NtlmSealer { rc4: Rc4::new(sealing_key.as_slice()), signer: NtlmSigner::new(signing_key) }
    }

    /// Encrypts `message` and returns it with its sealed signature.
    pub fn seal(&mut self, message: &[u8]) -> (r: (Vec<u8>, [u8; 16]))
        ensures
            r.0@ == seal_spec(old(self)@, message@).0,
            r.1@ == seal_spec(old(self)@, message@).1,
            final(self)@ == (seal_spec(old(self)@, message@).2, (old(self)@.1.0, old(self)@.1.1.wrapping_add(1))),
    {
        let mut data: Vec<u8> = Vec::new();
        push_bytes(&mut data, message);
        let signature = self.signer.sign(message);
        self.rc4.process(data.as_mut_slice());
        let mut checksum: Vec<u8> = Vec::new();
        push_bytes(&mut checksum, &signature.as_slice()[4..12]);
        self.rc4.process(checksum.as_mut_slice());
        let sig = [signature[0], signature[1], signature[2], signature[3], checksum[0], checksum[1],
            checksum[2], checksum[3], checksum[4], checksum[5], checksum[6], checksum[7], signature[12],
            signature[13], signature[14], signature[15]];
        assert(sig@ =~= signature@.subrange(0, 4) + checksum@ + signature@.subrange(12, 16));
        (data, sig)
    }
}

} // verus!
