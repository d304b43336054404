//! The summary of a TDS response as an SQL client reads it.
use vstd::prelude::*;
use crate::tds::codec::{names_view, opt_bytes, tokens_view, values_view, TdsResponse, TdsToken, TokenModel};
use crate::wire::copy_range;

verus! {

/// What a query gave: the column names, the rows, the row count and the error messages.
#[derive(Debug, Clone)]
pub struct MssqlQueryResult {
    pub columns: Vec<String>,
    pub rows: Vec<Vec<Option<Vec<u8>>>>,
    pub row_count: u64,
    pub errors: Vec<String>,
}

/// Abstract value of a query result.
pub struct QueryResultModel {
    pub columns: Seq<Seq<char>>,
    pub rows: Seq<Seq<Option<Seq<u8>>>>,
    pub row_count: u64,
    pub errors: Seq<Seq<char>>,
}

impl View for MssqlQueryResult {
    type V = QueryResultModel;

    open spec fn view(&self) -> QueryResultModel {
        QueryResultModel {
            columns: names_view(self.columns@),
            rows: self.rows@.map_values(|r: Vec<Option<Vec<u8>>>| values_view(r@)),
            row_count: self.row_count,
            errors: names_view(self.errors@),
        }
    }
}

/// The summary of tokens, read in order: the last column list, every row, the last row
/// count and every error message.
pub open spec fn summary(ts: Seq<TokenModel>) -> QueryResultModel
    decreases ts.len(),
{
    if ts.len() == 0 {
        QueryResultModel { columns: Seq::empty(), rows: Seq::empty(), row_count: 0, errors: Seq::empty() }
    } else {
        let s = summary(ts.drop_last());
        match ts.last() {
            TokenModel::ColumnMetadata(cs) => QueryResultModel { columns: cs, ..s },
            TokenModel::Row(vs) => QueryResultModel { rows: s.rows.push(vs), ..s },
            TokenModel::Done(n) => QueryResultModel { row_count: n, ..s },
            TokenModel::Error(m) => QueryResultModel { errors: s.errors.push(m), ..s },
        }
    }
}

fn copy_names(cs: &Vec<String>) -> (r: Vec<String>)
    ensures
        names_view(r@) == names_view(cs@),
{
    let mut out: Vec<String> = Vec::new();
    let mut i: usize = 0;
    while i < cs.len()
        invariant
            i <= cs.len(),
            out@.len() == i,
            forall|k: int| 0 <= k < i ==> (#[trigger] out@[k])@ == cs@[k]@,
        decreases cs.len() - i,
    {
        out.push(cs[i].clone());
        i = i + 1;
    }
    assert(names_view(out@) =~= names_view(cs@));
    out
}

fn copy_row(vs: &Vec<Option<Vec<u8>>>) -> (r: Vec<Option<Vec<u8>>>)
    ensures
        values_view(r@) == values_view(vs@),
{
    let mut out: Vec<Option<Vec<u8>>> = Vec::new();
    let mut i: usize = 0;
    while i < vs.len()
        invariant
            i <= vs.len(),
            out@.len() == i,
            forall|k: int| 0 <= k < i ==> opt_bytes(#[trigger] out@[k]) == opt_bytes(vs@[k]),
        decreases vs.len() - i,
    {
        let v = match &vs[i] {
            Some(b) => Some(copy_range(b.as_slice(), 0, b.len())),
            None => None,
        };
        proof {
            if let Some(b) = vs@[i as int] {
                assert(b@.subrange(0, b@.len() as int) =~= b@);
            }
        }
        out.push(v);
        i = i + 1;
    }
    assert(values_view(out@) =~= values_view(vs@));
    out
}

impl MssqlQueryResult {
    /// The summary of a response's tokens.
    pub fn from_response(resp: &TdsResponse) -> (out: MssqlQueryResult)
        ensures
            out@ == summary(tokens_view(resp.tokens@)),
    {
        let ghost ts = tokens_view(resp.tokens@);
        let mut out = MssqlQueryResult { columns: Vec::new(), rows: Vec::new(), row_count: 0, errors: Vec::new() };
        assert(out@.columns =~= Seq::<Seq<char>>::empty());
        assert(out@.rows =~= Seq::<Seq<Option<Seq<u8>>>>::empty());
        assert(out@.errors =~= Seq::<Seq<char>>::empty());
        assert(ts.subrange(0, 0) =~= Seq::<TokenModel>::empty());
        let mut i: usize = 0;
        while i < resp.tokens.len()
            invariant
                i <= resp.tokens.len(),
                ts == tokens_view(resp.tokens@),
                out@ == summary(ts.subrange(0, i as int)),
            decreases resp.tokens.len() - i,
        {
            let ghost before = out@;
            proof {
                assert(ts.subrange(0, i + 1).drop_last() =~= ts.subrange(0, i as int));
                assert(ts.subrange(0, i + 1).last() == resp.tokens@[i as int]@);
            }
            match &resp.tokens[i] {
                TdsToken::ColumnMetadata(cols) => {
                    out.columns = copy_names(cols);
                },
                TdsToken::Row(values) => {
                    let row = copy_row(values);
                    let ghost rv = values_view(row@);
                    out.rows.push(row);
                    assert(out@.rows =~= before.rows.push(rv));
                },
                TdsToken::Done { row_count } => {
                    out.row_count = *row_count;
                },
                TdsToken::Error(message) => {
                    let ghost mv = message@;
                    out.errors.push(message.clone());
                    assert(out@.errors =~= before.errors.push(mv));
                },
            }
            i = i + 1;
        }
        assert(ts.subrange(0, i as int) =~= ts);
        out
    }
}

} // verus!
