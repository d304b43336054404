//! The RC4 stream cipher, which NTLM uses for key exchange and sealing.
use vstd::prelude::*;

verus! {

/// Abstract RC4 state: the permutation and the two indices.
pub type Rc4Model = (Seq<u8>, u8, u8);

/// `s` with the entries at `a` and `b` exchanged.
pub open spec fn swap_at(s: Seq<u8>, a: int, b: int) -> Seq<u8> {
    s.update(a, s[b]).update(b, s[a])
}

/// The identity permutation of the 256 byte values.
pub open spec fn identity_perm() -> Seq<u8> {
    Seq::new(256, |i: int| i as u8)
}

/// The key schedule after its first `n` steps: the permutation and `j`.
pub open spec fn ksa(key: Seq<u8>, n: nat) -> (Seq<u8>, u8)
    decreases n,
{
    if n == 0 {
        (identity_perm(), 0)
    } else {
        let (s, j) = ksa(key, (n - 1) as nat);
        let i = (n - 1) as int;
        let j2 = j.wrapping_add(s[i]).wrapping_add(key[i % key.len() as int]);
        (swap_at(s, i, j2 as int), j2)
    }
}

/// The state in which a cipher keyed with `key` starts.
pub open spec fn rc4_init(key: Seq<u8>) -> Rc4Model {
    let (s, _) = ksa(key, 256);
    (s, 0, 0)
}

/// One step of the generator: the next state and the key byte it yields.
pub open spec fn rc4_step(st: Rc4Model) -> (Rc4Model, u8) {
    let (s, i, j) = st;
    let i2 = i.wrapping_add(1);
    let j2 = j.wrapping_add(s[i2 as int]);
    let s2 = swap_at(s, i2 as int, j2 as int);
    let k = s2[s2[i2 as int].wrapping_add(s2[j2 as int]) as int];
    ((s2, i2, j2), k)
}

/// The state after `n` more key bytes, and those key bytes.
pub open spec fn rc4_run(st: Rc4Model, n: nat) -> (Rc4Model, Seq<u8>)
    decreases n,
{
    if n == 0 {
        (st, Seq::empty())
    } else {
        let (st1, ks) = rc4_run(st, (n - 1) as nat);
        let (st2, k) = rc4_step(st1);
        (st2, ks.push(k))
    }
}

/// `data` with each byte XORed with the matching byte of `ks`.
pub open spec fn xor_bytes(data: Seq<u8>, ks: Seq<u8>) -> Seq<u8> {
    Seq::new(data.len(), |i: int| data[i] ^ ks[i])
}

/// An RC4 cipher state.
#[derive(Debug, Clone)]
pub struct Rc4 {
    s: [u8; 256],
    i: u8,
    j: u8,
}

impl View for Rc4 {
    type V = Rc4Model;

    closed spec fn view(&self) -> Rc4Model {
        (self.s@, self.i, self.j)
    }
}

impl Rc4 {
    /// A cipher keyed with `key`.
    pub fn new(key: &[u8]) -> (r: Rc4)
        requires
            key@.len() > 0,
        ensures
            r@ == rc4_init(key@),
    {
        let mut s = [0u8; 256];
        let mut k: usize = 0;
        while k < 256
            invariant
                k <= 256,
                forall|x: int| 0 <= x < k ==> s@[x] == x as u8,
            decreases 256 - k,
        {
            s[k] = k as u8;
            k = k + 1;
        }
        assert(s@ =~= identity_perm());
        let mut j: u8 = 0;
        let mut i: usize = 0;
        while i < 256
            invariant
                i <= 256,
                key@.len() > 0,
                (s@, j) == ksa(key@, i as nat),
            decreases 256 - i,
        {
            j = j.wrapping_add(s[i]).wrapping_add(key[i % key.len()]);
            let t = s[i];
            s[i] = s[j as usize];
            s[j as usize] = t;
            i = i + 1;
        }
        Rc4 { s, i: 0, j: 0 }
    }

    /// Encrypts or decrypts `data` in place, advancing the key stream.
    pub fn process(&mut self, data: &mut [u8])
        ensures
            final(self)@ == rc4_run(old(self)@, old(data)@.len()).0,
            final(data)@ == xor_bytes(old(data)@, rc4_run(old(self)@, old(data)@.len()).1),
    {
        let ghost st0 = self@;
        let ghost d0 = data@;
        let mut n: usize = 0;
        while n < data.len()
            invariant
                n <= data@.len(),
                data@.len() == d0.len(),
                self@ == rc4_run(st0, n as nat).0,
                rc4_run(st0, n as nat).1.len() == n,
                forall|x: int| 0 <= x < n ==> data@[x] == d0[x] ^ rc4_run(st0, n as nat).1[x],
                forall|x: int| n <= x < d0.len() ==> data@[x] == d0[x],
            decreases data@.len() - n,
        {
            self.i = self.i.wrapping_add(1);
            self.j = self.j.wrapping_add(self.s[self.i as usize]);
            let a = self.i as usize;
            let b = self.j as usize;
            let t = self.s[a];
            self.s[a] = self.s[b];
            self.s[b] = t;
            let idx = self.s[a].wrapping_add(self.s[b]);
            let k = self.s[idx as usize];
            data[n] = data[n] ^ k;
            proof {
                let (st1, ks) = rc4_run(st0, n as nat);
                let (st2, kk) = rc4_step(st1);
                assert(self.s@ =~= st2.0);
                assert(k == kk);
                assert(rc4_run(st0, (n + 1) as nat).1 == ks.push(kk));
            }
            n = n + 1;
        }
        assert(data@ =~= xor_bytes(d0, rc4_run(st0, d0.len()).1));
    }

    /// Encrypts or decrypts a copy of `data`, advancing the key stream.
    pub fn apply(&mut self, data: &[u8]) -> (out: Vec<u8>)
        ensures
            final(self)@ == rc4_run(old(self)@, data@.len()).0,
            out@ == xor_bytes(data@, rc4_run(old(self)@, data@.len()).1),
    {
        let mut out: Vec<u8> = Vec::new();
        crate::wire::push_bytes(&mut out, data);
        self.process(out.as_mut_slice());
        out
    }
}

} // verus!
