//! Reading back what the TDS codec writes.
use vstd::prelude::*;
use vstd::utf8::encode_utf8;
use crate::tds::codec::{TokenModel, name_bytes, names_bytes, names_read, tds_text, text_read, token_bytes, token_read, tokens_bytes, tokens_read, value_bytes, values_bytes, values_read};
use crate::text::lemma_lossy_of_utf8;
use crate::wire::{at, be16, be64, get_be16, get_be64, lemma_at_split, lemma_read_at};

verus! {

/// The tokens that the codec reads back as they were written: at most 65535 columns or
/// values, column names of at most 255 UTF-8 bytes, values shorter than 65535 bytes (that
/// length marks a missing value), messages of at most 65535 bytes.
pub open spec fn token_wf(t: TokenModel) -> bool {
    match t {
        TokenModel::ColumnMetadata(cs) => cs.len() <= 65535 && forall|i: int| 0 <= i < cs.len() ==> encode_utf8(
            #[trigger] cs[i],
        ).len() <= 255,
        TokenModel::Row(vs) => vs.len() <= 65535 && forall|i: int| 0 <= i < vs.len() ==> (#[trigger] vs[i] matches Some(
            b,
        ) ==> b.len() < 65535),
        TokenModel::Done(_) => true,
        TokenModel::Error(m) => encode_utf8(m).len() <= 65535,
    }
}

proof fn lemma_names_front(cs: Seq<Seq<char>>)
    requires
        cs.len() > 0,
    ensures
        names_bytes(cs) == name_bytes(cs[0]) + names_bytes(cs.drop_first()),
    decreases cs.len(),
{
    if cs.len() == 1 {
        assert(cs.drop_last().len() == 0 && cs.drop_first().len() == 0);
        assert(names_bytes(cs.drop_first()) == Seq::<u8>::empty());
        assert(names_bytes(cs.drop_last()) == Seq::<u8>::empty());
        assert(cs.last() == cs[0]);
        assert(names_bytes(cs) =~= name_bytes(cs[0]) + names_bytes(cs.drop_first()));
    } else {
        lemma_names_front(cs.drop_last());
        assert(cs.drop_last().drop_first() =~= cs.drop_first().drop_last());
        assert(cs.drop_first().last() == cs.last());
        assert(names_bytes(cs) =~= name_bytes(cs[0]) + names_bytes(cs.drop_first()));
    }
}

proof fn lemma_values_front(vs: Seq<Option<Seq<u8>>>)
    requires
        vs.len() > 0,
    ensures
        values_bytes(vs) == value_bytes(vs[0]) + values_bytes(vs.drop_first()),
    decreases vs.len(),
{
    if vs.len() == 1 {
        assert(vs.drop_last().len() == 0 && vs.drop_first().len() == 0);
        assert(values_bytes(vs.drop_first()) == Seq::<u8>::empty());
        assert(values_bytes(vs.drop_last()) == Seq::<u8>::empty());
        assert(vs.last() == vs[0]);
        assert(values_bytes(vs) =~= value_bytes(vs[0]) + values_bytes(vs.drop_first()));
    } else {
        lemma_values_front(vs.drop_last());
        assert(vs.drop_last().drop_first() =~= vs.drop_first().drop_last());
        assert(vs.drop_first().last() == vs.last());
        assert(values_bytes(vs) =~= value_bytes(vs[0]) + values_bytes(vs.drop_first()));
    }
}

proof fn lemma_tokens_front(ts: Seq<TokenModel>)
    requires
        ts.len() > 0,
    ensures
        tokens_bytes(ts) == token_bytes(ts[0]) + tokens_bytes(ts.drop_first()),
    decreases ts.len(),
{
    if ts.len() == 1 {
        assert(ts.drop_last().len() == 0 && ts.drop_first().len() == 0);
        assert(tokens_bytes(ts.drop_first()) == Seq::<u8>::empty());
        assert(tokens_bytes(ts.drop_last()) == Seq::<u8>::empty());
        assert(ts.last() == ts[0]);
        assert(tokens_bytes(ts) =~= token_bytes(ts[0]) + tokens_bytes(ts.drop_first()));
    } else {
        lemma_tokens_front(ts.drop_last());
        assert(ts.drop_last().drop_first() =~= ts.drop_first().drop_last());
        assert(ts.drop_first().last() == ts.last());
        assert(tokens_bytes(ts) =~= token_bytes(ts[0]) + tokens_bytes(ts.drop_first()));
    }
}

proof fn lemma_be16_at(d: Seq<u8>, i: int, v: u16)
    requires
        at(d, i, be16(v)),
    ensures
        get_be16(d, i) == v,
{
    lemma_read_at(d, i);
}

proof fn lemma_names_at(d: Seq<u8>, i: int, cs: Seq<Seq<char>>)
    requires
        at(d, i, names_bytes(cs)),
        forall|k: int| 0 <= k < cs.len() ==> encode_utf8(#[trigger] cs[k]).len() <= 255,
    ensures
        names_read(d, i, cs.len()) == Some((cs, i + names_bytes(cs).len())),
    decreases cs.len(),
{
    if cs.len() == 0 {
        assert(cs =~= Seq::<Seq<char>>::empty());
    } else {
        lemma_names_front(cs);
        let c = cs[0];
        let e = encode_utf8(c);
        assert(e.len() <= 255);
        lemma_at_split(d, i, name_bytes(c), names_bytes(cs.drop_first()));
        lemma_at_split(d, i, seq![(e.len() % 256) as u8], e);
        assert(d[i] == e.len()) by {
            assert(d.subrange(i, i + 1)[0] == seq![(e.len() % 256) as u8][0]);
        }
        assert(d.subrange(i + 1, i + 1 + e.len()) == e);
        lemma_lossy_of_utf8(c);
        assert forall|k: int| 0 <= k < cs.drop_first().len() implies encode_utf8(
            #[trigger] cs.drop_first()[k],
        ).len() <= 255 by {
            assert(cs.drop_first()[k] == cs[k + 1]);
        }
        lemma_names_at(d, i + name_bytes(c).len(), cs.drop_first());
        assert(seq![c] + cs.drop_first() =~= cs);
    }
}

proof fn lemma_values_at(d: Seq<u8>, i: int, vs: Seq<Option<Seq<u8>>>)
    requires
        at(d, i, values_bytes(vs)),
        forall|k: int| 0 <= k < vs.len() ==> (#[trigger] vs[k] matches Some(b) ==> b.len() < 65535),
    ensures
        values_read(d, i, vs.len()) == Some((vs, i + values_bytes(vs).len())),
    decreases vs.len(),
{
    if vs.len() == 0 {
        assert(vs =~= Seq::<Option<Seq<u8>>>::empty());
    } else {
        lemma_values_front(vs);
        let v = vs[0];
        lemma_at_split(d, i, value_bytes(v), values_bytes(vs.drop_first()));
        assert forall|k: int| 0 <= k < vs.drop_first().len() implies (#[trigger] vs.drop_first()[k] matches Some(
            b,
        ) ==> b.len() < 65535) by {
            assert(vs.drop_first()[k] == vs[k + 1]);
        }
        match v {
            Some(b) => {
                lemma_at_split(d, i, be16((b.len() % 65536) as u16), b);
                lemma_be16_at(d, i, (b.len() % 65536) as u16);
                assert(get_be16(d, i) == b.len());
            },
            None => {
                assert(seq![0xFFu8, 0xFF] =~= be16(0xFFFF));
                lemma_be16_at(d, i, 0xFFFF);
            },
        }
        lemma_values_at(d, i + value_bytes(v).len(), vs.drop_first());
        assert(seq![v] + vs.drop_first() =~= vs);
    }
}

proof fn lemma_text_at(d: Seq<u8>, i: int, m: Seq<char>)
    requires
        at(d, i, tds_text(m)),
        encode_utf8(m).len() <= 65535,
    ensures
        text_read(d, i) == Some((m, i + tds_text(m).len())),
{
    let e = encode_utf8(m);
    lemma_at_split(d, i, be16((e.len() % 65536) as u16), e);
    lemma_be16_at(d, i, (e.len() % 65536) as u16);
    lemma_lossy_of_utf8(m);
}

proof fn lemma_token_at(d: Seq<u8>, i: int, t: TokenModel)
    requires
        at(d, i, token_bytes(t)),
        token_wf(t),
    ensures
        token_read(d, i) == Some((t, i + token_bytes(t).len())),
{
    match t {
        TokenModel::ColumnMetadata(cs) => {
            let n = (cs.len() % 65536) as u16;
            assert(token_bytes(t) =~= seq![0x81u8] + be16(n) + names_bytes(cs));
            lemma_at_split(d, i, seq![0x81u8] + be16(n), names_bytes(cs));
            lemma_at_split(d, i, seq![0x81u8], be16(n));
            assert(d[i] == 0x81) by {
                assert(d.subrange(i, i + 1)[0] == 0x81);
            }
            lemma_be16_at(d, i + 1, n);
            lemma_names_at(d, i + 3, cs);
        },
        TokenModel::Row(vs) => {
            let n = (vs.len() % 65536) as u16;
            assert(token_bytes(t) =~= seq![0xD1u8] + be16(n) + values_bytes(vs));
            lemma_at_split(d, i, seq![0xD1u8] + be16(n), values_bytes(vs));
            lemma_at_split(d, i, seq![0xD1u8], be16(n));
            assert(d[i] == 0xD1) by {
                assert(d.subrange(i, i + 1)[0] == 0xD1);
            }
            lemma_be16_at(d, i + 1, n);
            lemma_values_at(d, i + 3, vs);
        },
        TokenModel::Done(c) => {
            lemma_at_split(d, i, seq![0xFDu8], be64(c));
            assert(d[i] == 0xFD) by {
                assert(d.subrange(i, i + 1)[0] == 0xFD);
            }
            lemma_read_at(d, i + 1);
        },
        TokenModel::Error(m) => {
            lemma_at_split(d, i, seq![0xAAu8], tds_text(m));
            assert(d[i] == 0xAA) by {
                assert(d.subrange(i, i + 1)[0] == 0xAA);
            }
            lemma_text_at(d, i + 1, m);
        },
    }
}

proof fn lemma_tokens_at(d: Seq<u8>, i: int, ts: Seq<TokenModel>)
    requires
        at(d, i, tokens_bytes(ts)),
        i + tokens_bytes(ts).len() == d.len(),
        forall|k: int| 0 <= k < ts.len() ==> token_wf(#[trigger] ts[k]),
    ensures
        tokens_read(d, i) == Some(ts),
    decreases ts.len(),
{
    if ts.len() == 0 {
        assert(ts =~= Seq::<TokenModel>::empty());
    } else {
        lemma_tokens_front(ts);
        let t = ts[0];
        assert(token_wf(t));
        lemma_at_split(d, i, token_bytes(t), tokens_bytes(ts.drop_first()));
        lemma_token_at(d, i, t);
        assert(token_bytes(t).len() > 0);
        assert forall|k: int| 0 <= k < ts.drop_first().len() implies token_wf(#[trigger] ts.drop_first()[k]) by {
            assert(ts.drop_first()[k] == ts[k + 1]);
        }
        lemma_tokens_at(d, i + token_bytes(t).len(), ts.drop_first());
        assert(seq![t] + ts.drop_first() =~= ts);
    }
}

/// Reading the bytes of well-formed tokens gives the tokens back.
pub proof fn lemma_tds_tokens_roundtrip(ts: Seq<TokenModel>)
    requires
        forall|k: int| 0 <= k < ts.len() ==> token_wf(#[trigger] ts[k]),
    ensures
        tokens_read(tokens_bytes(ts), 0) == Some(ts),
{
    let d = tokens_bytes(ts);
    assert(d.subrange(0, d.len() as int) =~= d);
    lemma_tokens_at(d, 0, ts);
}

} // verus!
