use vstd::prelude::*;

use crate::json::{Json, JsonV, jview};
use crate::classify::{leaf_count, cap64, count_nquads};
use crate::keys::KeySelector;
use crate::compile::{
    ChunkAcc, CompileError, ChunkOutV, QueryLine, CondMutation, ResidualDoc, qlines_view,
    cmuts_view, residuals_view, compile_node_s, compile_node, err_with_index,
};

verus! {

/// What parsing one line of input yields, when it is well-formed JSON: the
/// parsed tree is a function of the text alone.
pub uninterp spec fn json_doc_of(s: Seq<char>) -> Option<JsonV>;

#[verifier::external_type_specification]
#[verifier::external_body]
pub struct ExValue(serde_json::Value);

/// Conversion step of `parse_doc`: carries a parsed serde_json tree over
/// into the library's own document type, one variant for one variant, with
/// numbers kept as their literal text.
#[verifier::external_body]
fn value_to_json(v: serde_json::Value) -> Json {
    match v {
        serde_json::Value::Null => Json::Null,
        serde_json::Value::Bool(b) => Json::Bool(b),
        serde_json::Value::Number(n) => Json::Num(n.to_string()),
        serde_json::Value::String(s) => Json::Str(s),
        serde_json::Value::Array(a) => Json::Arr(a.into_iter().map(value_to_json).collect()),
        serde_json::Value::Object(m) => Json::Obj(
            m.into_iter().map(|p| (p.0, value_to_json(p.1))).collect(),
        ),
    }
}

/// Relies on serde_json::from_str::<serde_json::Value>: whether a line
/// parses, and to which tree, depends on the text alone.
#[verifier::external_body]
fn parse_doc(s: &String) -> (r: Option<Json>)
    ensures
        match r {
            Some(d) => json_doc_of(s@) == Some(jview(d)),
            None => json_doc_of(s@) is None,
        },
{
    serde_json::from_str::<serde_json::Value>(s).ok().map(value_to_json)
}

/// Compiling a chunk from document position `i` on: parse each line, then
/// compile it with a fresh per-document counter, stopping at the first
/// document that fails to parse or to compile.
pub open spec fn chunk_compile_from(sel: KeySelector, chunk: Seq<(u64, String)>, i: int) -> Result<
    ChunkOutV,
    CompileError,
>
    decreases chunk.len() - i,
{
    if i < 0 || i >= chunk.len() {
        Ok(ChunkOutV { queries: Seq::empty(), muts: Seq::empty(), residuals: Seq::empty() })
    } else {
        let idx = chunk[i].0;
        match json_doc_of(chunk[i].1@) {
            Option::None => Err(CompileError::BadJson { index: idx }),
            Option::Some(d) => match compile_node_s(sel, idx, 0, d) {
                Err(e) => Err(err_with_index(e, idx)),
                Ok(no) => match chunk_compile_from(sel, chunk, i + 1) {
                    Err(e) => Err(e),
                    Ok(rest) => Ok(
                        ChunkOutV {
                            queries: no.queries + rest.queries,
                            muts: no.muts + rest.muts,
                            residuals: no.residuals + rest.residuals,
                        },
                    ),
                },
            },
        }
    }
}

/// Compiling a whole chunk of numbered raw lines.
pub open spec fn chunk_compile_s(sel: KeySelector, chunk: Seq<(u64, String)>) -> Result<
    ChunkOutV,
    CompileError,
> {
    chunk_compile_from(sel, chunk, 0)
}

/// Total leaf estimate of the chunk's parsed documents from position `i` on.
pub open spec fn chunk_nquads_from(chunk: Seq<(u64, String)>, i: int) -> nat
    decreases chunk.len() - i,
{
    if i < 0 || i >= chunk.len() {
        0
    } else {
        (match json_doc_of(chunk[i].1@) {
            Option::Some(d) => leaf_count(d),
            Option::None => 0,
        }) + chunk_nquads_from(chunk, i + 1)
    }
}

/// Total leaf estimate of a whole chunk.
pub open spec fn chunk_nquads(chunk: Seq<(u64, String)>) -> nat {
    chunk_nquads_from(chunk, 0)
}

/// Everything one chunk compiles into: the query lines, the guarded
/// mutations, the residual entries for the one combined set mutation, and
/// the progress counts.
#[derive(Debug)]
pub struct ChunkPayload {
    pub queries: Vec<QueryLine>,
    pub muts: Vec<CondMutation>,
    pub residuals: Vec<ResidualDoc>,
    pub docs: u64,
    pub nquads: u64,
}

fn compile_chunk_from(
    sel: &KeySelector,
    chunk: &Vec<(u64, String)>,
    i: usize,
    acc: &mut ChunkAcc,
) -> (r: Result<u64, CompileError>)
    ensures
        match chunk_compile_from(*sel, chunk@, i as int) {
            Ok(co) => r is Ok && r->Ok_0 as nat == cap64(chunk_nquads_from(chunk@, i as int))
                && qlines_view(final(acc).queries@) == qlines_view(old(acc).queries@) + co.queries
                && cmuts_view(final(acc).muts@) == cmuts_view(old(acc).muts@) + co.muts
                && residuals_view(final(acc).residuals@) == residuals_view(old(acc).residuals@)
                + co.residuals,
            Err(e) => r is Err && r->Err_0 == e,
        },
    decreases chunk@.len() - i,
{
    if i >= chunk.len() {
        proof {
            assert(qlines_view(acc.queries@) =~= qlines_view(acc.queries@) + Seq::<
                crate::compile::QueryLineV,
            >::empty());
            assert(cmuts_view(acc.muts@) =~= cmuts_view(acc.muts@) + Seq::<
                crate::compile::CondMutationV,
            >::empty());
            assert(residuals_view(acc.residuals@) =~= residuals_view(acc.residuals@) + Seq::<
                crate::compile::ResidualV,
            >::empty());
        }
        return Ok(0);
    }
    let index = chunk[i].0;
    let parsed = parse_doc(&chunk[i].1);
    match parsed {
        None => Err(CompileError::BadJson { index }),
        Some(doc) => {
            let nq = count_nquads(&doc);
            let cr = compile_node(sel, index, 0, &doc, acc);
            match cr {
                Err(e) => Err(e),
                Ok(_) => {
                    let rr = compile_chunk_from(sel, chunk, i + 1, acc);
                    match rr {
                        Err(e) => Err(e),
                        Ok(rest) => {
                            let ghost no = compile_node_s(*sel, index, 0, jview(doc))->Ok_0;
                            let ghost co = chunk_compile_from(*sel, chunk@, i as int + 1)->Ok_0;
                            proof {
                                assert(qlines_view(acc.queries@) =~= qlines_view(
                                    old(acc).queries@,
                                ) + (no.queries + co.queries));
                                assert(cmuts_view(acc.muts@) =~= cmuts_view(old(acc).muts@) + (
                                no.muts + co.muts));
                                assert(residuals_view(acc.residuals@) =~= residuals_view(
                                    old(acc).residuals@,
                                ) + (no.residuals + co.residuals));
                            }
                            Ok(nq.saturating_add(rest))
                        },
                    }
                },
            }
        },
    }
}

/// Compile one chunk of numbered raw input lines into a single upsert
/// payload: the concatenated query lines, the guarded mutations in document
/// order, the residual entries for the final combined set mutation, the
/// document count, and the summed leaf estimate. Stops at the first line
/// that is not JSON, whose root is not an object, or that supplies the
/// reserved identity field.
pub fn compile_chunk(sel: &KeySelector, chunk: &Vec<(u64, String)>) -> (r: Result<
    ChunkPayload,
    CompileError,
>)
    ensures
        match chunk_compile_s(*sel, chunk@) {
            Ok(co) => r is Ok && qlines_view(r->Ok_0.queries@) == co.queries && cmuts_view(
                r->Ok_0.muts@,
            ) == co.muts && residuals_view(r->Ok_0.residuals@) == co.residuals && r->Ok_0.docs
                == chunk@.len() && r->Ok_0.nquads as nat == cap64(chunk_nquads(chunk@)),
            Err(e) => r is Err && r->Err_0 == e,
        },
{
    let mut acc = ChunkAcc::new();
    proof {
        assert(qlines_view(acc.queries@) =~= Seq::<crate::compile::QueryLineV>::empty());
        assert(cmuts_view(acc.muts@) =~= Seq::<crate::compile::CondMutationV>::empty());
        assert(residuals_view(acc.residuals@) =~= Seq::<crate::compile::ResidualV>::empty());
    }
    let nr = compile_chunk_from(sel, chunk, 0, &mut acc);
    match nr {
        Err(e) => Err(e),
        Ok(nquads) => {
            let docs = chunk.len() as u64;
            proof {
                let co = chunk_compile_s(*sel, chunk@)->Ok_0;
                assert(qlines_view(acc.queries@) =~= Seq::<
                    crate::compile::QueryLineV,
                >::empty() + co.queries);
                assert(Seq::<crate::compile::QueryLineV>::empty() + co.queries =~= co.queries);
                assert(Seq::<crate::compile::CondMutationV>::empty() + co.muts =~= co.muts);
                assert(Seq::<crate::compile::ResidualV>::empty() + co.residuals =~= co.residuals);
            }
            Ok(
                ChunkPayload {
                    queries: acc.queries,
                    muts: acc.muts,
                    residuals: acc.residuals,
                    docs,
                    nquads,
                },
            )
        },
    }
}

} // verus!
