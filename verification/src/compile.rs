use vstd::prelude::*;

use crate::json::{
    Json, JsonV, jview, jview_fields, jview_seq, has_key, json_clone, lemma_jview_fields,
    lemma_jview_fields_push, lemma_jview_seq,
};
use crate::keys::{KeySelector, key_matches, matches_key};
use crate::classify::{spec_is_node, is_node, all_nodes, is_node_array, all_items_nodes};
use crate::vars::{VarName, IdentRef};
use crate::render::{ref_text, render_ref};

verus! {

/// A line of the upsert query block: either a lookup binding a variable to
/// the first entity whose `key` equals `value`, or a union binding a
/// variable to the first entity among other variables' matches.
#[derive(Debug)]
pub enum QueryLine {
    Lookup { var: VarName, key: String, value: Json },
    Union { var: VarName, members: Vec<VarName> },
}

pub enum QueryLineV {
    Lookup { var: VarName, key: Seq<char>, value: JsonV },
    Union { var: VarName, members: Seq<VarName> },
}

pub open spec fn qline_view(q: QueryLine) -> QueryLineV {
    match q {
        QueryLine::Lookup { var, key, value } => QueryLineV::Lookup {
            var,
            key: key@,
            value: jview(value),
        },
        QueryLine::Union { var, members } => QueryLineV::Union { var, members: members@ },
    }
}

pub open spec fn qlines_view(qs: Seq<QueryLine>) -> Seq<QueryLineV>
    decreases qs,
{
    if qs.len() == 0 {
        Seq::empty()
    } else {
        qlines_view(qs.drop_last()).push(qline_view(qs.last()))
    }
}

pub proof fn lemma_qlines_view(qs: Seq<QueryLine>)
    ensures
        qlines_view(qs).len() == qs.len(),
        forall|i: int| 0 <= i < qs.len() ==> qlines_view(qs)[i] == qline_view(qs[i]),
    decreases qs,
{
    if qs.len() > 0 {
        lemma_qlines_view(qs.drop_last());
    }
}

/// A mutation that sets `key = value` on the node identified by `target`,
/// applied only if the guard variable matched no existing entity.
#[derive(Debug)]
pub struct CondMutation {
    pub target: IdentRef,
    pub key: String,
    pub value: Json,
    pub guard: VarName,
}

pub struct CondMutationV {
    pub target: IdentRef,
    pub key: Seq<char>,
    pub value: JsonV,
    pub guard: VarName,
}

pub open spec fn cmut_view(m: CondMutation) -> CondMutationV {
    CondMutationV { target: m.target, key: m.key@, value: jview(m.value), guard: m.guard }
}

pub open spec fn cmuts_view(ms: Seq<CondMutation>) -> Seq<CondMutationV>
    decreases ms,
{
    if ms.len() == 0 {
        Seq::empty()
    } else {
        cmuts_view(ms.drop_last()).push(cmut_view(ms.last()))
    }
}

pub proof fn lemma_cmuts_view(ms: Seq<CondMutation>)
    ensures
        cmuts_view(ms).len() == ms.len(),
        forall|i: int| 0 <= i < ms.len() ==> cmuts_view(ms)[i] == cmut_view(ms[i]),
    decreases ms,
{
    if ms.len() > 0 {
        lemma_cmuts_view(ms.drop_last());
    }
}

/// One node's residual entry: the fields left over once its deduplication
/// keys were stripped, to be set unconditionally on its identity.
#[derive(Debug)]
pub struct ResidualDoc {
    pub ident: IdentRef,
    pub fields: Vec<(String, Json)>,
}

pub struct ResidualV {
    pub ident: IdentRef,
    pub fields: Seq<(Seq<char>, JsonV)>,
}

pub open spec fn residual_view(r: ResidualDoc) -> ResidualV {
    ResidualV { ident: r.ident, fields: jview_fields(r.fields@) }
}

pub open spec fn residuals_view(rs: Seq<ResidualDoc>) -> Seq<ResidualV>
    decreases rs,
{
    if rs.len() == 0 {
        Seq::empty()
    } else {
        residuals_view(rs.drop_last()).push(residual_view(rs.last()))
    }
}

pub proof fn lemma_residuals_view(rs: Seq<ResidualDoc>)
    ensures
        residuals_view(rs).len() == rs.len(),
        forall|i: int| 0 <= i < rs.len() ==> residuals_view(rs)[i] == residual_view(rs[i]),
    decreases rs,
{
    if rs.len() > 0 {
        lemma_residuals_view(rs.drop_last());
    }
}

/// Accumulated artifacts of compiling the documents of one chunk.
pub struct ChunkAcc {
    pub queries: Vec<QueryLine>,
    pub muts: Vec<CondMutation>,
    pub residuals: Vec<ResidualDoc>,
}

impl ChunkAcc {
    pub fn new() -> (r: ChunkAcc)
        ensures
            r.queries@.len() == 0,
            r.muts@.len() == 0,
            r.residuals@.len() == 0,
    {
        ChunkAcc { queries: Vec::new(), muts: Vec::new(), residuals: Vec::new() }
    }
}

/// A structural error: the input document cannot be compiled.
#[derive(Clone, Copy, PartialEq, Eq, Structural, Debug)]
pub enum CompileError {
    /// The line is not well-formed JSON.
    BadJson { index: u64 },
    /// The document (or its root) is not a JSON object.
    NotObject { index: u64 },
    /// The document supplies the reserved identity field itself.
    UidField { index: u64 },
}

/// Spec-level error reason, before the document index is attached.
#[derive(PartialEq, Eq, Structural)]
pub enum CErr {
    NotObject,
    UidField,
}

pub open spec fn err_with_index(e: CErr, index: u64) -> CompileError {
    match e {
        CErr::NotObject => CompileError::NotObject { index },
        CErr::UidField => CompileError::UidField { index },
    }
}

/// Addition on the 64-bit allocation counter, wrapping around.
pub open spec fn wadd64(x: u64, y: u64) -> u64 {
    if x + y > u64::MAX {
        (x + y - 0x1_0000_0000_0000_0000) as u64
    } else {
        (x + y) as u64
    }
}

/// The `j`-th variable (0-based) allocated after counter value `off` in the
/// document at position `index`.
pub open spec fn var_at(index: u64, off: u64, j: int) -> VarName {
    VarName { doc: index, seq: wadd64(off, (j + 1) as u64) }
}

/// The fields of `fs` that match a deduplication key, in field order.
pub open spec fn matched_of(sel: KeySelector, fs: Seq<(Seq<char>, JsonV)>) -> Seq<
    (Seq<char>, JsonV),
>
    decreases fs,
{
    if fs.len() == 0 {
        Seq::empty()
    } else {
        let rest = matched_of(sel, fs.drop_last());
        if key_matches(sel, fs.last().0) {
            rest.push(fs.last())
        } else {
            rest
        }
    }
}

/// The union variable of a node with `m` matched keys, allocated after the
/// per-key variables.
pub open spec fn union_var(index: u64, off: u64, m: int) -> VarName {
    VarName { doc: index, seq: wadd64(wadd64(off, m as u64), 1) }
}

/// The identity reference chosen for a node with `m` matched keys, counter
/// value `off` on entry: the single key's variable when `m` is one, a fresh
/// blank-node variable when `m` is zero, and a union variable over all the
/// key variables otherwise.
pub open spec fn ident_of(index: u64, off: u64, m: int) -> IdentRef {
    if m == 1 {
        IdentRef::Bound(var_at(index, off, 0))
    } else if m == 0 {
        IdentRef::Fresh(var_at(index, off, 0))
    } else {
        IdentRef::Bound(union_var(index, off, m))
    }
}

/// The counter value after a node allocated its own variables.
pub open spec fn off_after_self(off: u64, m: int) -> u64 {
    if m == 1 {
        wadd64(off, 1)
    } else if m == 0 {
        wadd64(off, 1)
    } else {
        wadd64(wadd64(off, m as u64), 1)
    }
}

/// The lookup lines for a node's matched keys.
pub open spec fn lookup_lines(index: u64, off: u64, ms: Seq<(Seq<char>, JsonV)>) -> Seq<
    QueryLineV,
> {
    Seq::new(
        ms.len(),
        |j: int| QueryLineV::Lookup { var: var_at(index, off, j), key: ms[j].0, value: ms[j].1 },
    )
}

/// The per-key variables of a node, in key order.
pub open spec fn member_vars(index: u64, off: u64, m: int) -> Seq<VarName>
    recommends
        m >= 0,
{
    Seq::new(m as nat, |j: int| var_at(index, off, j))
}

/// The conditional mutations for a node's matched keys: each sets one key on
/// the node's identity, guarded by that key's own variable having matched
/// nothing.
pub open spec fn cond_muts_of(
    index: u64,
    off: u64,
    ms: Seq<(Seq<char>, JsonV)>,
    target: IdentRef,
) -> Seq<CondMutationV> {
    Seq::new(
        ms.len(),
        |j: int| CondMutationV {
            target,
            key: ms[j].0,
            value: ms[j].1,
            guard: var_at(index, off, j),
        },
    )
}

/// The query lines a node itself contributes: its lookups, and a union line
/// when it has more than one key.
pub open spec fn self_queries(index: u64, off: u64, ms: Seq<(Seq<char>, JsonV)>) -> Seq<
    QueryLineV,
> {
    if ms.len() >= 2 {
        lookup_lines(index, off, ms).push(
            QueryLineV::Union {
                var: union_var(index, off, ms.len() as int),
                members: member_vars(index, off, ms.len() as int),
            },
        )
    } else {
        lookup_lines(index, off, ms)
    }
}

/// The stub left in a parent document where a compiled child node stood.
pub open spec fn stub_of(ident: IdentRef) -> JsonV {
    JsonV::Obj(seq![("uid"@, JsonV::Str(ref_text(ident)))])
}

/// What compiling a whole chunk yields.
pub struct ChunkOutV {
    pub queries: Seq<QueryLineV>,
    pub muts: Seq<CondMutationV>,
    pub residuals: Seq<ResidualV>,
}

/// What compiling one node yields.
pub struct NodeOutS {
    pub queries: Seq<QueryLineV>,
    pub muts: Seq<CondMutationV>,
    pub residuals: Seq<ResidualV>,
    pub ident: IdentRef,
    pub idents: Seq<IdentRef>,
    pub off: u64,
}

/// What compiling a run of fields yields.
pub struct FieldsOutS {
    pub fields: Seq<(Seq<char>, JsonV)>,
    pub queries: Seq<QueryLineV>,
    pub muts: Seq<CondMutationV>,
    pub residuals: Seq<ResidualV>,
    pub idents: Seq<IdentRef>,
    pub off: u64,
}

/// What compiling a run of array items yields.
pub struct ItemsOutS {
    pub items: Seq<JsonV>,
    pub queries: Seq<QueryLineV>,
    pub muts: Seq<CondMutationV>,
    pub residuals: Seq<ResidualV>,
    pub idents: Seq<IdentRef>,
    pub off: u64,
}

/// Compiling one node of the document at input position `index`, with the
/// per-document variable counter at `off`: scan the node's own fields for
/// deduplication keys, choose its identity, emit its lookup lines and
/// guarded mutations, compile node-like children into identity stubs, and
/// collect the residual fields.
pub open spec fn compile_node_s(sel: KeySelector, index: u64, off: u64, j: JsonV) -> Result<
    NodeOutS,
    CErr,
>
    decreases j, 0int, 0int,
{
    if !(j is Obj) {
        Err(CErr::NotObject)
    } else {
        let fs = j->Obj_0;
        if has_key(fs, "uid"@) {
            Err(CErr::UidField)
        } else {
            let ms = matched_of(sel, fs);
            let m = ms.len() as int;
            let ident = ident_of(index, off, m);
            let off1 = off_after_self(off, m);
            match compile_fields_s(sel, index, off1, fs, 0) {
                Err(e) => Err(e),
                Ok(fo) => Ok(
                    NodeOutS {
                        queries: self_queries(index, off, ms) + fo.queries,
                        muts: cond_muts_of(index, off, ms, ident) + fo.muts,
                        residuals: fo.residuals + (if fo.fields.len() > 0 {
                            seq![ResidualV { ident, fields: fo.fields }]
                        } else {
                            Seq::empty()
                        }),
                        ident,
                        idents: seq![ident] + fo.idents,
                        off: fo.off,
                    },
                ),
            }
        }
    }
}

/// Compiling the fields of a node from position `i` on: matched keys are
/// dropped (they were extracted), node children and node arrays are compiled
/// and replaced by stubs, and every other field is kept as it stands.
pub open spec fn compile_fields_s(
    sel: KeySelector,
    index: u64,
    off: u64,
    fs: Seq<(Seq<char>, JsonV)>,
    i: int,
) -> Result<FieldsOutS, CErr>
    decreases fs, fs.len() - i, 1int,
{
    if i < 0 || i >= fs.len() {
        Ok(
            FieldsOutS {
                fields: Seq::empty(),
                queries: Seq::empty(),
                muts: Seq::empty(),
                residuals: Seq::empty(),
                idents: Seq::empty(),
                off,
            },
        )
    } else {
        let f = fs[i];
        if key_matches(sel, f.0) {
            compile_fields_s(sel, index, off, fs, i + 1)
        } else if spec_is_node(f.1) {
            match compile_node_s(sel, index, off, f.1) {
                Err(e) => Err(e),
                Ok(no) => match compile_fields_s(sel, index, no.off, fs, i + 1) {
                    Err(e) => Err(e),
                    Ok(fo) => Ok(
                        FieldsOutS {
                            fields: seq![(f.0, stub_of(no.ident))] + fo.fields,
                            queries: no.queries + fo.queries,
                            muts: no.muts + fo.muts,
                            residuals: no.residuals + fo.residuals,
                            idents: no.idents + fo.idents,
                            off: fo.off,
                        },
                    ),
                },
            }
        } else if is_node_array(f.1) {
            match compile_items_s(sel, index, off, f.1->Arr_0, 0) {
                Err(e) => Err(e),
                Ok(io) => match compile_fields_s(sel, index, io.off, fs, i + 1) {
                    Err(e) => Err(e),
                    Ok(fo) => Ok(
                        FieldsOutS {
                            fields: seq![(f.0, JsonV::Arr(io.items))] + fo.fields,
                            queries: io.queries + fo.queries,
                            muts: io.muts + fo.muts,
                            residuals: io.residuals + fo.residuals,
                            idents: io.idents + fo.idents,
                            off: fo.off,
                        },
                    ),
                },
            }
        } else {
            match compile_fields_s(sel, index, off, fs, i + 1) {
                Err(e) => Err(e),
                Ok(fo) => Ok(
                    FieldsOutS {
                        fields: seq![f] + fo.fields,
                        queries: fo.queries,
                        muts: fo.muts,
                        residuals: fo.residuals,
                        idents: fo.idents,
                        off: fo.off,
                    },
                ),
            }
        }
    }
}

/// Compiling the items of a node array from position `i` on: every item is a
/// node, compiled and replaced by its identity stub.
pub open spec fn compile_items_s(
    sel: KeySelector,
    index: u64,
    off: u64,
    xs: Seq<JsonV>,
    i: int,
) -> Result<ItemsOutS, CErr>
    decreases xs, xs.len() - i, 1int,
{
    if i < 0 || i >= xs.len() {
        Ok(
            ItemsOutS {
                items: Seq::empty(),
                queries: Seq::empty(),
                muts: Seq::empty(),
                residuals: Seq::empty(),
                idents: Seq::empty(),
                off,
            },
        )
    } else {
        match compile_node_s(sel, index, off, xs[i]) {
            Err(e) => Err(e),
            Ok(no) => match compile_items_s(sel, index, no.off, xs, i + 1) {
                Err(e) => Err(e),
                Ok(io) => Ok(
                    ItemsOutS {
                        items: seq![stub_of(no.ident)] + io.items,
                        queries: no.queries + io.queries,
                        muts: no.muts + io.muts,
                        residuals: no.residuals + io.residuals,
                        idents: no.idents + io.idents,
                        off: io.off,
                    },
                ),
            },
        }
    }
}

pub proof fn lemma_matched_of_step(sel: KeySelector, fs: Seq<(Seq<char>, JsonV)>, i: int)
    requires
        0 <= i < fs.len(),
    ensures
        matched_of(sel, fs.take(i + 1)) == (if key_matches(sel, fs[i].0) {
            matched_of(sel, fs.take(i)).push(fs[i])
        } else {
            matched_of(sel, fs.take(i))
        }),
{
    assert(fs.take(i + 1).drop_last() =~= fs.take(i));
    assert(fs.take(i + 1).last() == fs[i]);
}

pub proof fn lemma_qlines_view_push(qs: Seq<QueryLine>, q: QueryLine)
    ensures
        qlines_view(qs.push(q)) == qlines_view(qs).push(qline_view(q)),
{
    assert(qs.push(q).drop_last() =~= qs);
    assert(qs.push(q).last() == q);
}

pub proof fn lemma_cmuts_view_push(ms: Seq<CondMutation>, m: CondMutation)
    ensures
        cmuts_view(ms.push(m)) == cmuts_view(ms).push(cmut_view(m)),
{
    assert(ms.push(m).drop_last() =~= ms);
    assert(ms.push(m).last() == m);
}

pub proof fn lemma_residuals_view_push(rs: Seq<ResidualDoc>, r: ResidualDoc)
    ensures
        residuals_view(rs.push(r)) == residuals_view(rs).push(residual_view(r)),
{
    assert(rs.push(r).drop_last() =~= rs);
    assert(rs.push(r).last() == r);
}

/// Compile one node of the document at input position `index`: extract its
/// deduplication keys into lookup lines and guarded mutations, choose its
/// identity, compile node-like children, and record its residual fields.
/// Returns the node's identity reference and the counter value after it.
fn compile_node_inner(
    sel: &KeySelector,
    index: u64,
    off: u64,
    doc: &Json,
    acc: &mut ChunkAcc,
) -> (r: Result<(IdentRef, u64), CompileError>)
    ensures
        match compile_node_s(*sel, index, off, jview(*doc)) {
            Ok(no) => r is Ok && r->Ok_0.0 == no.ident && r->Ok_0.1 == no.off && qlines_view(
                final(acc).queries@,
            ) == qlines_view(old(acc).queries@) + no.queries && cmuts_view(final(acc).muts@)
                == cmuts_view(old(acc).muts@) + no.muts && residuals_view(final(acc).residuals@)
                == residuals_view(old(acc).residuals@) + no.residuals,
            Err(e) => r is Err && r->Err_0 == err_with_index(e, index),
        },
    decreases *doc, 0int, 0int,
{
    match doc {
        Json::Obj(fs) => {
            proof {
                lemma_jview_fields(fs@);
            }
            let ghost gfs = jview_fields(fs@);
            let uid: String = "uid".to_owned();
            let mut i: usize = 0;
            while i < fs.len()
                invariant
                    *doc == Json::Obj(*fs),
                    uid@ == "uid"@,
                    i <= fs.len(),
                    gfs == jview_fields(fs@),
                    gfs.len() == fs@.len(),
                    forall|k: int| 0 <= k < fs@.len() ==> #[trigger] gfs[k] == (
                        fs@[k].0@,
                        jview(fs@[k].1),
                    ),
                    forall|k: int| 0 <= k < i ==> (#[trigger] gfs[k]).0 != "uid"@,
                decreases fs.len() - i,
            {
                if fs[i].0 == uid {
                    proof {
                        assert(gfs[i as int].0 == "uid"@);
                        assert(has_key(gfs, "uid"@));
                    }
                    return Err(CompileError::UidField { index });
                }
                i = i + 1;
            }
            assert(!has_key(gfs, "uid"@));
            // extract the fields that match a deduplication key
            let mut ms: Vec<(String, Json)> = Vec::new();
            let mut i: usize = 0;
            while i < fs.len()
                invariant
                    *doc == Json::Obj(*fs),
                    i <= fs.len(),
                    gfs == jview_fields(fs@),
                    gfs.len() == fs@.len(),
                    forall|k: int| 0 <= k < fs@.len() ==> #[trigger] gfs[k] == (
                        fs@[k].0@,
                        jview(fs@[k].1),
                    ),
                    ms@.len() <= i,
                    jview_fields(ms@) == matched_of(*sel, gfs.take(i as int)),
                decreases fs.len() - i,
            {
                proof {
                    lemma_matched_of_step(*sel, gfs, i as int);
                }
                if matches_key(sel, &fs[i].0) {
                    let key = fs[i].0.clone();
                    let val = json_clone(&fs[i].1);
                    proof {
                        lemma_jview_fields_push(ms@, (key, val));
                    }
                    ms.push((key, val));
                }
                i = i + 1;
            }
            proof {
                assert(gfs.take(fs@.len() as int) =~= gfs);
            }
            let ghost msv = matched_of(*sel, gfs);
            let m = ms.len();
            proof {
                lemma_jview_fields(ms@);
                assert(msv.len() == m);
            }
            // this node's lookup lines
            let ghost q0 = qlines_view(acc.queries@);
            let ghost looks = lookup_lines(index, off, msv);
            let mut j: usize = 0;
            while j < m
                invariant
                    j <= m,
                    m == ms@.len(),
                    msv == jview_fields(ms@),
                    msv.len() == m,
                    forall|k: int| 0 <= k < ms@.len() ==> #[trigger] msv[k] == (
                        ms@[k].0@,
                        jview(ms@[k].1),
                    ),
                    looks == lookup_lines(index, off, msv),
                    qlines_view(acc.queries@) == q0 + looks.take(j as int),
                    acc.muts@ == old(acc).muts@,
                    acc.residuals@ == old(acc).residuals@,
                decreases m - j,
            {
                let v = VarName { doc: index, seq: off.wrapping_add((j + 1) as u64) };
                let key = ms[j].0.clone();
                let val = json_clone(&ms[j].1);
                let ghost qold = acc.queries@;
                let q = QueryLine::Lookup { var: v, key, value: val };
                acc.queries.push(q);
                proof {
                    lemma_qlines_view_push(qold, q);
                    assert(v == var_at(index, off, j as int));
                    assert(qline_view(q) == looks[j as int]);
                    assert(q0 + looks.take(j as int + 1) =~= (q0 + looks.take(j as int)).push(
                        looks[j as int],
                    ));
                }
                j = j + 1;
            }
            proof {
                assert(looks.take(m as int) =~= looks);
            }
            // choose the identity and allocate the union or fresh variable
            let ident: IdentRef;
            let off1: u64;
            if m == 1 {
                ident = IdentRef::Bound(VarName { doc: index, seq: off.wrapping_add(1) });
                off1 = off.wrapping_add(1);
            } else if m == 0 {
                ident = IdentRef::Fresh(VarName { doc: index, seq: off.wrapping_add(1) });
                off1 = off.wrapping_add(1);
            } else {
                let mut mem: Vec<VarName> = Vec::new();
                let mut j: usize = 0;
                while j < m
                    invariant
                        j <= m,
                        m == ms@.len(),
                        mem@.len() == j,
                        forall|k: int| 0 <= k < j ==> #[trigger] mem@[k] == var_at(
                            index,
                            off,
                            k,
                        ),
                    decreases m - j,
                {
                    let v = VarName { doc: index, seq: off.wrapping_add((j + 1) as u64) };
                    proof {
                        assert(v == var_at(index, off, j as int));
                    }
                    mem.push(v);
                    j = j + 1;
                }
                let useq: u64 = off.wrapping_add(m as u64).wrapping_add(1);
                let uv = VarName { doc: index, seq: useq };
                proof {
                    assert(uv == union_var(index, off, m as int));
                    assert(mem@ =~= member_vars(index, off, m as int));
                }
                let ghost qold = acc.queries@;
                let uq = QueryLine::Union { var: uv, members: mem };
                acc.queries.push(uq);
                proof {
                    lemma_qlines_view_push(qold, uq);
                }
                ident = IdentRef::Bound(uv);
                off1 = off.wrapping_add(m as u64).wrapping_add(1);
            }
            proof {
                assert(ident == ident_of(index, off, msv.len() as int));
                assert(off1 == off_after_self(off, msv.len() as int));
                assert(qlines_view(acc.queries@) =~= q0 + self_queries(index, off, msv));
            }
            // the guarded mutations for the matched keys
            let ghost m0 = cmuts_view(acc.muts@);
            let ghost cms = cond_muts_of(index, off, msv, ident);
            let mut j: usize = 0;
            while j < m
                invariant
                    j <= m,
                    m == ms@.len(),
                    msv == jview_fields(ms@),
                    msv.len() == m,
                    forall|k: int| 0 <= k < ms@.len() ==> #[trigger] msv[k] == (
                        ms@[k].0@,
                        jview(ms@[k].1),
                    ),
                    cms == cond_muts_of(index, off, msv, ident),
                    cmuts_view(acc.muts@) == m0 + cms.take(j as int),
                    qlines_view(acc.queries@) == q0 + self_queries(index, off, msv),
                    acc.residuals@ == old(acc).residuals@,
                decreases m - j,
            {
                let v = VarName { doc: index, seq: off.wrapping_add((j + 1) as u64) };
                let key = ms[j].0.clone();
                let val = json_clone(&ms[j].1);
                let ghost mold = acc.muts@;
                let cm = CondMutation { target: ident, key, value: val, guard: v };
                acc.muts.push(cm);
                proof {
                    lemma_cmuts_view_push(mold, cm);
                    assert(v == var_at(index, off, j as int));
                    assert(cmut_view(cm) == cms[j as int]);
                    assert(m0 + cms.take(j as int + 1) =~= (m0 + cms.take(j as int)).push(
                        cms[j as int],
                    ));
                }
                j = j + 1;
            }
            proof {
                assert(cms.take(m as int) =~= cms);
            }
            // compile the remaining fields, then record the residual entry
            let ghost r0 = residuals_view(acc.residuals@);
            let ghost q1 = qlines_view(acc.queries@);
            let ghost m1 = cmuts_view(acc.muts@);
            let fr = compile_fields(sel, index, off1, fs, 0, acc);
            match fr {
                Err(e) => Err(e),
                Ok((kept, off2)) => {
                    let ghost fo = compile_fields_s(*sel, index, off1, gfs, 0)->Ok_0;
                    if kept.len() > 0 {
                        let ghost rold = acc.residuals@;
                        let rd = ResidualDoc { ident, fields: kept };
                        acc.residuals.push(rd);
                        proof {
                            lemma_residuals_view_push(rold, rd);
                            lemma_jview_fields(rd.fields@);
                            assert(residual_view(rd) == ResidualV { ident, fields: fo.fields });
                            assert(residuals_view(acc.residuals@) =~= r0 + (fo.residuals + seq![
                                ResidualV { ident, fields: fo.fields },
                            ]));
                        }
                    } else {
                        proof {
                            lemma_jview_fields(kept@);
                            assert(fo.fields.len() == 0);
                            assert(residuals_view(acc.residuals@) =~= r0 + (fo.residuals
                                + Seq::<ResidualV>::empty()));
                        }
                    }
                    proof {
                        let no = compile_node_s(*sel, index, off, jview(*doc))->Ok_0;
                        assert(qlines_view(acc.queries@) == q1 + fo.queries);
                        assert(q1 == q0 + self_queries(index, off, msv));
                        assert(no.queries == self_queries(index, off, msv) + fo.queries);
                        assert(qlines_view(acc.queries@) =~= qlines_view(old(acc).queries@)
                            + no.queries);
                        assert(cmuts_view(acc.muts@) == m1 + fo.muts);
                        assert(m1 == m0 + cond_muts_of(index, off, msv, ident));
                        assert(no.muts == cond_muts_of(index, off, msv, ident) + fo.muts);
                        assert(cmuts_view(acc.muts@) =~= cmuts_view(old(acc).muts@) + no.muts);
                    }
                    Ok((ident, off2))
                },
            }
        },
        _ => {
            proof {
                assert(!(jview(*doc) is Obj));
            }
            Err(CompileError::NotObject { index })
        },
    }
}

/// Compile the fields of a node from position `i` on, returning the kept
/// fields (with node children replaced by identity stubs) and the counter.
fn compile_fields(
    sel: &KeySelector,
    index: u64,
    off: u64,
    fs: &Vec<(String, Json)>,
    i: usize,
    acc: &mut ChunkAcc,
) -> (r: Result<(Vec<(String, Json)>, u64), CompileError>)
    ensures
        match compile_fields_s(*sel, index, off, jview_fields(fs@), i as int) {
            Ok(fo) => r is Ok && jview_fields(r->Ok_0.0@) == fo.fields && r->Ok_0.1 == fo.off
                && qlines_view(final(acc).queries@) == qlines_view(old(acc).queries@) + fo.queries
                && cmuts_view(final(acc).muts@) == cmuts_view(old(acc).muts@) + fo.muts
                && residuals_view(final(acc).residuals@) == residuals_view(old(acc).residuals@)
                + fo.residuals,
            Err(e) => r is Err && r->Err_0 == err_with_index(e, index),
        },
    decreases fs@, fs@.len() - i, 1int,
{
    proof {
        lemma_jview_fields(fs@);
    }
    let ghost gfs = jview_fields(fs@);
    if i >= fs.len() {
        proof {
            assert(qlines_view(acc.queries@) =~= qlines_view(acc.queries@) + Seq::<
                QueryLineV,
            >::empty());
            assert(cmuts_view(acc.muts@) =~= cmuts_view(acc.muts@) + Seq::<
                CondMutationV,
            >::empty());
            assert(residuals_view(acc.residuals@) =~= residuals_view(acc.residuals@) + Seq::<
                ResidualV,
            >::empty());
        }
        return Ok((Vec::new(), off));
    }
    if matches_key(sel, &fs[i].0) {
        return compile_fields(sel, index, off, fs, i + 1, acc);
    }
    if is_node(&fs[i].1) {
        proof {
            assert(decreases_to!(fs@ => fs@[i as int]));
            assert(decreases_to!(fs@[i as int] => fs@[i as int].1));
            assert(decreases_to!(fs@ => fs@[i as int].1));
        }
        let cr = compile_node_inner(sel, index, off, &fs[i].1, acc);
        match cr {
            Err(e) => Err(e),
            Ok((cid, coff)) => {
                let ghost no = compile_node_s(*sel, index, off, gfs[i as int].1)->Ok_0;
                let rr = compile_fields(sel, index, coff, fs, i + 1, acc);
                match rr {
                    Err(e) => Err(e),
                    Ok((mut kept, off2)) => {
                        let ghost fo = compile_fields_s(*sel, index, coff, gfs, i as int + 1)->Ok_0;
                        let stub_fields: Vec<(String, Json)> = vec![
                            ("uid".to_owned(), Json::Str(render_ref(&cid))),
                        ];
                        let stub = Json::Obj(stub_fields);
                        proof {
                            lemma_jview_fields(stub.arrow_Obj_0()@);
                            assert(jview(stub) =~= stub_of(cid)) by {
                                assert(jview_fields(stub.arrow_Obj_0()@) =~= seq![
                                    ("uid"@, JsonV::Str(ref_text(cid))),
                                ]);
                            }
                        }
                        let key = fs[i].0.clone();
                        let ghost kold = kept@;
                        kept.insert(0, (key, stub));
                        proof {
                            lemma_jview_fields(kept@);
                            lemma_jview_fields(kold);
                            assert(kept@ =~= seq![(key, stub)] + kold);
                            assert(jview_fields(kept@) =~= seq![(gfs[i as int].0, stub_of(cid))]
                                + fo.fields);
                            assert(qlines_view(acc.queries@) =~= qlines_view(old(acc).queries@) + (
                            no.queries + fo.queries));
                            assert(cmuts_view(acc.muts@) =~= cmuts_view(old(acc).muts@) + (no.muts
                                + fo.muts));
                            assert(residuals_view(acc.residuals@) =~= residuals_view(
                                old(acc).residuals@,
                            ) + (no.residuals + fo.residuals));
                        }
                        Ok((kept, off2))
                    },
                }
            },
        }
    } else {
        let node_arr: bool = match &fs[i].1 {
            Json::Arr(xs) => all_items_nodes(xs),
            _ => false,
        };
        if node_arr {
            match &fs[i].1 {
                Json::Arr(xs) => {
                    proof {
                        assert(decreases_to!(fs@ => fs@[i as int]));
                        assert(decreases_to!(fs@[i as int] => fs@[i as int].1));
                        assert(fs@[i as int].1 == Json::Arr(*xs));
                        assert(decreases_to!(fs@[i as int].1 => fs@[i as int].1->Arr_0));
                        assert(decreases_to!(*xs => xs@));
                        assert(decreases_to!(fs@ => xs@));
                        assert(is_node_array(gfs[i as int].1));
                    }
                    let ir = compile_items(sel, index, off, xs, 0, acc);
                    match ir {
                        Err(e) => Err(e),
                        Ok((stubs, ioff)) => {
                            let ghost io = compile_items_s(
                                *sel,
                                index,
                                off,
                                jview_seq(xs@),
                                0,
                            )->Ok_0;
                            let rr = compile_fields(sel, index, ioff, fs, i + 1, acc);
                            match rr {
                                Err(e) => Err(e),
                                Ok((mut kept, off2)) => {
                                    let ghost fo = compile_fields_s(
                                        *sel,
                                        index,
                                        ioff,
                                        gfs,
                                        i as int + 1,
                                    )->Ok_0;
                                    let key = fs[i].0.clone();
                                    let ghost kold = kept@;
                                    kept.insert(0, (key, Json::Arr(stubs)));
                                    proof {
                                        lemma_jview_fields(kept@);
                                        lemma_jview_fields(kold);
                                        assert(kept@ =~= seq![(key, Json::Arr(stubs))] + kold);
                                        assert(jview_fields(kept@) =~= seq![
                                            (gfs[i as int].0, JsonV::Arr(io.items)),
                                        ] + fo.fields);
                                        assert(qlines_view(acc.queries@) =~= qlines_view(
                                            old(acc).queries@,
                                        ) + (io.queries + fo.queries));
                                        assert(cmuts_view(acc.muts@) =~= cmuts_view(old(acc).muts@)
                                            + (io.muts + fo.muts));
                                        assert(residuals_view(acc.residuals@) =~= residuals_view(
                                            old(acc).residuals@,
                                        ) + (io.residuals + fo.residuals));
                                    }
                                    Ok((kept, off2))
                                },
                            }
                        },
                    }
                },
                _ => {
                    proof {
                        assert(false);
                    }
                    Err(CompileError::NotObject { index })
                },
            }
        } else {
            let rr = compile_fields(sel, index, off, fs, i + 1, acc);
            match rr {
                Err(e) => Err(e),
                Ok((mut kept, off2)) => {
                    let ghost fo = compile_fields_s(*sel, index, off, gfs, i as int + 1)->Ok_0;
                    let key = fs[i].0.clone();
                    let val = json_clone(&fs[i].1);
                    let ghost kold = kept@;
                    kept.insert(0, (key, val));
                    proof {
                        lemma_jview_fields(kept@);
                        lemma_jview_fields(kold);
                        assert(kept@ =~= seq![(key, val)] + kold);
                        assert(jview_fields(kept@) =~= seq![gfs[i as int]] + fo.fields);
                    }
                    Ok((kept, off2))
                },
            }
        }
    }
}

/// Compile the items of an all-node array from position `i` on, returning
/// the identity stubs that replace the items.
fn compile_items(
    sel: &KeySelector,
    index: u64,
    off: u64,
    xs: &Vec<Json>,
    i: usize,
    acc: &mut ChunkAcc,
) -> (r: Result<(Vec<Json>, u64), CompileError>)
    ensures
        match compile_items_s(*sel, index, off, jview_seq(xs@), i as int) {
            Ok(io) => r is Ok && jview_seq(r->Ok_0.0@) == io.items && r->Ok_0.1 == io.off
                && qlines_view(final(acc).queries@) == qlines_view(old(acc).queries@) + io.queries
                && cmuts_view(final(acc).muts@) == cmuts_view(old(acc).muts@) + io.muts
                && residuals_view(final(acc).residuals@) == residuals_view(old(acc).residuals@)
                + io.residuals,
            Err(e) => r is Err && r->Err_0 == err_with_index(e, index),
        },
    decreases xs@, xs@.len() - i, 1int,
{
    proof {
        lemma_jview_seq(xs@);
    }
    let ghost gxs = jview_seq(xs@);
    if i >= xs.len() {
        proof {
            assert(qlines_view(acc.queries@) =~= qlines_view(acc.queries@) + Seq::<
                QueryLineV,
            >::empty());
            assert(cmuts_view(acc.muts@) =~= cmuts_view(acc.muts@) + Seq::<
                CondMutationV,
            >::empty());
            assert(residuals_view(acc.residuals@) =~= residuals_view(acc.residuals@) + Seq::<
                ResidualV,
            >::empty());
        }
        return Ok((Vec::new(), off));
    }
    proof {
        assert(decreases_to!(xs@ => xs@[i as int]));
    }
    let cr = compile_node_inner(sel, index, off, &xs[i], acc);
    match cr {
        Err(e) => Err(e),
        Ok((cid, coff)) => {
            let ghost no = compile_node_s(*sel, index, off, gxs[i as int])->Ok_0;
            let rr = compile_items(sel, index, coff, xs, i + 1, acc);
            match rr {
                Err(e) => Err(e),
                Ok((mut stubs, off2)) => {
                    let ghost io = compile_items_s(*sel, index, coff, gxs, i as int + 1)->Ok_0;
                    let stub_fields: Vec<(String, Json)> = vec![
                        ("uid".to_owned(), Json::Str(render_ref(&cid))),
                    ];
                    let stub = Json::Obj(stub_fields);
                    proof {
                        lemma_jview_fields(stub.arrow_Obj_0()@);
                        assert(jview(stub) =~= stub_of(cid)) by {
                            assert(jview_fields(stub.arrow_Obj_0()@) =~= seq![
                                ("uid"@, JsonV::Str(ref_text(cid))),
                            ]);
                        }
                    }
                    let ghost sold = stubs@;
                    stubs.insert(0, stub);
                    proof {
                        lemma_jview_seq(stubs@);
                        lemma_jview_seq(sold);
                        assert(stubs@ =~= seq![stub] + sold);
                        assert(jview_seq(stubs@) =~= seq![stub_of(cid)] + io.items);
                        assert(qlines_view(acc.queries@) =~= qlines_view(old(acc).queries@) + (
                        no.queries + io.queries));
                        assert(cmuts_view(acc.muts@) =~= cmuts_view(old(acc).muts@) + (no.muts
                            + io.muts));
                        assert(residuals_view(acc.residuals@) =~= residuals_view(
                            old(acc).residuals@,
                        ) + (no.residuals + io.residuals));
                    }
                    Ok((stubs, off2))
                },
            }
        },
    }
}

pub proof fn lemma_qlines_view_concat(a: Seq<QueryLine>, b: Seq<QueryLine>)
    ensures
        qlines_view(a + b) == qlines_view(a) + qlines_view(b),
    decreases b,
{
    if b.len() == 0 {
        assert(a + b =~= a);
        assert(qlines_view(a) + qlines_view(b) =~= qlines_view(a));
    } else {
        lemma_qlines_view_concat(a, b.drop_last());
        assert((a + b).drop_last() =~= a + b.drop_last());
        assert(qlines_view(a) + qlines_view(b) =~= (qlines_view(a) + qlines_view(
            b.drop_last(),
        )).push(qline_view(b.last())));
    }
}

pub proof fn lemma_cmuts_view_concat(a: Seq<CondMutation>, b: Seq<CondMutation>)
    ensures
        cmuts_view(a + b) == cmuts_view(a) + cmuts_view(b),
    decreases b,
{
    if b.len() == 0 {
        assert(a + b =~= a);
        assert(cmuts_view(a) + cmuts_view(b) =~= cmuts_view(a));
    } else {
        lemma_cmuts_view_concat(a, b.drop_last());
        assert((a + b).drop_last() =~= a + b.drop_last());
        assert(cmuts_view(a) + cmuts_view(b) =~= (cmuts_view(a) + cmuts_view(
            b.drop_last(),
        )).push(cmut_view(b.last())));
    }
}

pub proof fn lemma_residuals_view_concat(a: Seq<ResidualDoc>, b: Seq<ResidualDoc>)
    ensures
        residuals_view(a + b) == residuals_view(a) + residuals_view(b),
    decreases b,
{
    if b.len() == 0 {
        assert(a + b =~= a);
        assert(residuals_view(a) + residuals_view(b) =~= residuals_view(a));
    } else {
        lemma_residuals_view_concat(a, b.drop_last());
        assert((a + b).drop_last() =~= a + b.drop_last());
        assert(residuals_view(a) + residuals_view(b) =~= (residuals_view(a) + residuals_view(
            b.drop_last(),
        )).push(residual_view(b.last())));
    }
}

/// Compile one document node, appending its query lines, guarded mutations
/// and residual entries to the accumulator. On an error, the accumulator is
/// left exactly as it was.
pub fn compile_node(
    sel: &KeySelector,
    index: u64,
    off: u64,
    doc: &Json,
    acc: &mut ChunkAcc,
) -> (r: Result<(IdentRef, u64), CompileError>)
    ensures
        match compile_node_s(*sel, index, off, jview(*doc)) {
            Ok(no) => r is Ok && r->Ok_0.0 == no.ident && r->Ok_0.1 == no.off && qlines_view(
                final(acc).queries@,
            ) == qlines_view(old(acc).queries@) + no.queries && cmuts_view(final(acc).muts@)
                == cmuts_view(old(acc).muts@) + no.muts && residuals_view(final(acc).residuals@)
                == residuals_view(old(acc).residuals@) + no.residuals,
            Err(e) => r is Err && r->Err_0 == err_with_index(e, index) && *final(acc) == *old(acc),
        },
{
    let mut local = ChunkAcc::new();
    let cr = compile_node_inner(sel, index, off, doc, &mut local);
    match cr {
        Err(e) => Err(e),
        Ok(pair) => {
            let ghost no = compile_node_s(*sel, index, off, jview(*doc))->Ok_0;
            let ghost q0 = acc.queries@;
            let ghost m0 = acc.muts@;
            let ghost r0 = acc.residuals@;
            let ghost lq = local.queries@;
            let ghost lm = local.muts@;
            let ghost lr = local.residuals@;
            acc.queries.append(&mut local.queries);
            acc.muts.append(&mut local.muts);
            acc.residuals.append(&mut local.residuals);
            proof {
                lemma_qlines_view_concat(q0, lq);
                lemma_cmuts_view_concat(m0, lm);
                lemma_residuals_view_concat(r0, lr);
                assert(qlines_view(lq) =~= Seq::<QueryLineV>::empty() + no.queries);
                assert(Seq::<QueryLineV>::empty() + no.queries =~= no.queries);
                assert(cmuts_view(lm) =~= Seq::<CondMutationV>::empty() + no.muts);
                assert(Seq::<CondMutationV>::empty() + no.muts =~= no.muts);
                assert(residuals_view(lr) =~= Seq::<ResidualV>::empty() + no.residuals);
                assert(Seq::<ResidualV>::empty() + no.residuals =~= no.residuals);
            }
            Ok(pair)
        },
    }
}

} // verus!
