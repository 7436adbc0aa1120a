use vstd::prelude::*;

use vstd::string::StringExecFns;

use crate::vars::VarName;
use crate::json::{
    Json, JsonV, jview, jview_fields, jview_seq, json_clone, lemma_jview_fields,
    lemma_jview_fields_push, lemma_jview_seq_push,
};
use crate::compile::{
    QueryLine, QueryLineV, qline_view, qlines_view, lemma_qlines_view, CondMutation, CondMutationV,
    cmut_view, cmuts_view, lemma_cmuts_view, ResidualDoc, ResidualV, residual_view, residuals_view,
    lemma_residuals_view,
};
use crate::chunk::ChunkPayload;
use crate::render::{var_text, render_var, json_text, json_to_text, ref_text, cond_text, render_ref, render_cond};

verus! {

/// The comma-separated names of the first `i` member variables.
pub open spec fn members_prefix(ms: Seq<VarName>, i: int) -> Seq<char>
    decreases i,
{
    if i <= 0 || i > ms.len() {
        Seq::empty()
    } else if i == 1 {
        var_text(ms[0])
    } else {
        members_prefix(ms, i - 1) + seq![','] + var_text(ms[i - 1])
    }
}

/// The text of one query line: a lookup binding its variable to the first
/// entity whose key equals the value, or a union binding its variable to
/// the first entity among the member variables' matches.
pub open spec fn qline_text(q: QueryLineV) -> Seq<char> {
    match q {
        QueryLineV::Lookup { var, key, value } => var_text(var) + " as var(func: eq(<"@ + key
            + ">, "@ + json_text(value) + "), first: 1)\n"@,
        QueryLineV::Union { var, members } => var_text(var) + " as var(func: uid("@
            + members_prefix(members, members.len() as int) + "), first: 1)\n"@,
    }
}

/// The concatenated text of the first `i` query lines.
pub open spec fn lines_prefix(qs: Seq<QueryLineV>, i: int) -> Seq<char>
    decreases i,
{
    if i <= 0 || i > qs.len() {
        Seq::empty()
    } else {
        lines_prefix(qs, i - 1) + qline_text(qs[i - 1])
    }
}

/// The whole query block: every line, wrapped in one outer block.
pub open spec fn query_text(qs: Seq<QueryLineV>) -> Seq<char> {
    "{\n"@ + lines_prefix(qs, qs.len() as int) + "}"@
}

/// Render the compiled query lines as one query block in the transport's
/// syntax.
pub fn render_query(lines: &Vec<QueryLine>) -> (s: String)
    ensures
        s@ == query_text(qlines_view(lines@)),
{
    proof {
        lemma_qlines_view(lines@);
    }
    let ghost gls = qlines_view(lines@);
    let mut s: String = "{\n".to_owned();
    proof {
        reveal_strlit("{\n");
        reveal_strlit("}");
    }
    let mut i: usize = 0;
    while i < lines.len()
        invariant
            i <= lines.len(),
            gls == qlines_view(lines@),
            gls.len() == lines@.len(),
            forall|k: int| 0 <= k < lines@.len() ==> #[trigger] gls[k] == qline_view(lines@[k]),
            s@ == "{\n"@ + lines_prefix(gls, i as int),
        decreases lines.len() - i,
    {
        match &lines[i] {
            QueryLine::Lookup { var, key, value } => {
                s.append(render_var(var).as_str());
                s.append(" as var(func: eq(<");
                s.append(key.as_str());
                s.append(">, ");
                s.append(json_to_text(value).as_str());
                s.append("), first: 1)\n");
                proof {
                    reveal_strlit(" as var(func: eq(<");
                    reveal_strlit(">, ");
                    reveal_strlit("), first: 1)\n");
                    assert(s@ =~= "{\n"@ + lines_prefix(gls, i as int + 1));
                }
            },
            QueryLine::Union { var, members } => {
                s.append(render_var(var).as_str());
                s.append(" as var(func: uid(");
                proof {
                    reveal_strlit(" as var(func: uid(");
                    reveal_strlit(",");
                }
                let ghost base = s@;
                let mut k: usize = 0;
                while k < members.len()
                    invariant
                        k <= members.len(),
                        ","@ =~= seq![','],
                        s@ == base + members_prefix(members@, k as int),
                    decreases members.len() - k,
                {
                    if k > 0 {
                        s.append(",");
                    }
                    s.append(render_var(&members[k]).as_str());
                    proof {
                        assert(s@ =~= base + members_prefix(members@, k as int + 1));
                    }
                    k = k + 1;
                }
                s.append("), first: 1)\n");
                proof {
                    reveal_strlit("), first: 1)\n");
                    assert(s@ =~= "{\n"@ + lines_prefix(gls, i as int + 1));
                }
            },
        }
        i = i + 1;
    }
    s.append("}");
    proof {
        assert(s@ =~= query_text(gls));
    }
    s
}

/// One mutation as handed to the transport: its set-JSON payload, and the
/// guard condition where the mutation is conditional.
pub struct WireMutation {
    pub set_json: String,
    pub cond: Option<String>,
}

pub open spec fn wire_view(w: WireMutation) -> (Seq<char>, Option<Seq<char>>) {
    (
        w.set_json@,
        match w.cond {
            Option::Some(c) => Option::Some(c@),
            Option::None => Option::None,
        },
    )
}

pub open spec fn wires_view(ws: Seq<WireMutation>) -> Seq<(Seq<char>, Option<Seq<char>>)>
    decreases ws,
{
    if ws.len() == 0 {
        Seq::empty()
    } else {
        wires_view(ws.drop_last()).push(wire_view(ws.last()))
    }
}

pub proof fn lemma_wires_view_push(ws: Seq<WireMutation>, w: WireMutation)
    ensures
        wires_view(ws.push(w)) == wires_view(ws).push(wire_view(w)),
{
    assert(ws.push(w).drop_last() =~= ws);
    assert(ws.push(w).last() == w);
}

/// The set-JSON payload of one guarded mutation: a single object binding
/// the target's identity and the extracted key.
pub open spec fn cmut_payload(m: CondMutationV) -> JsonV {
    JsonV::Arr(
        seq![JsonV::Obj(seq![("uid"@, JsonV::Str(ref_text(m.target))), (m.key, m.value)])],
    )
}

/// The object a residual entry contributes to the combined set mutation.
pub open spec fn residual_obj(r: ResidualV) -> JsonV {
    JsonV::Obj(seq![("uid"@, JsonV::Str(ref_text(r.ident)))] + r.fields)
}

/// The objects of the first `i` residual entries.
pub open spec fn residual_objs(rs: Seq<ResidualV>, i: int) -> Seq<JsonV>
    decreases i,
{
    if i <= 0 || i > rs.len() {
        Seq::empty()
    } else {
        residual_objs(rs, i - 1).push(residual_obj(rs[i - 1]))
    }
}

/// The ordered mutation list of one chunk, as text: every guarded mutation
/// in document order, each with its zero-match condition, followed by one
/// combined unconditional set mutation exactly when any residual entry
/// exists.
pub open spec fn wire_mutations_s(muts: Seq<CondMutationV>, residuals: Seq<ResidualV>) -> Seq<
    (Seq<char>, Option<Seq<char>>),
> {
    Seq::new(
        muts.len(),
        |i: int| (json_text(cmut_payload(muts[i])), Option::Some(cond_text(muts[i].guard))),
    ) + if residuals.len() > 0 {
        seq![
            (
                json_text(JsonV::Arr(residual_objs(residuals, residuals.len() as int))),
                Option::None,
            ),
        ]
    } else {
        Seq::empty()
    }
}

/// Render a compiled chunk's mutation list for the transport: the guarded
/// mutations in order, then one combined set mutation if any residual
/// exists.
pub fn render_mutations(payload: &ChunkPayload) -> (r: Vec<WireMutation>)
    ensures
        wires_view(r@) == wire_mutations_s(
            cmuts_view(payload.muts@),
            residuals_view(payload.residuals@),
        ),
{
    proof {
        lemma_cmuts_view(payload.muts@);
        lemma_residuals_view(payload.residuals@);
    }
    let ghost mv = cmuts_view(payload.muts@);
    let ghost rv = residuals_view(payload.residuals@);
    let ghost conds = Seq::new(
        mv.len(),
        |i: int| (json_text(cmut_payload(mv[i])), Option::<Seq<char>>::Some(cond_text(mv[i].guard))),
    );
    let mut out: Vec<WireMutation> = Vec::new();
    let mut i: usize = 0;
    while i < payload.muts.len()
        invariant
            i <= payload.muts.len(),
            mv == cmuts_view(payload.muts@),
            mv.len() == payload.muts@.len(),
            forall|k: int| 0 <= k < payload.muts@.len() ==> #[trigger] mv[k] == cmut_view(
                payload.muts@[k],
            ),
            conds == Seq::new(
                mv.len(),
                |k: int| (
                    json_text(cmut_payload(mv[k])),
                    Option::<Seq<char>>::Some(cond_text(mv[k].guard)),
                ),
            ),
            wires_view(out@) == conds.take(i as int),
        decreases payload.muts.len() - i,
    {
        let m = &payload.muts[i];
        let entry_fields: Vec<(String, Json)> = vec![
            ("uid".to_owned(), Json::Str(render_ref(&m.target))),
            (m.key.clone(), json_clone(&m.value)),
        ];
        let entry = Json::Obj(entry_fields);
        let arr = Json::Arr(vec![entry]);
        let w = WireMutation { set_json: json_to_text(&arr), cond: Some(render_cond(&m.guard)) };
        let ghost oold = out@;
        out.push(w);
        proof {
            lemma_wires_view_push(oold, w);
            let af = arr.arrow_Arr_0();
            lemma_jview_fields(af@[0].arrow_Obj_0()@);
            assert(jview_fields(af@[0].arrow_Obj_0()@) =~= seq![
                ("uid"@, JsonV::Str(ref_text(mv[i as int].target))),
                (mv[i as int].key, mv[i as int].value),
            ]);
            crate::json::lemma_jview_seq(af@);
            assert(jview(arr) =~= cmut_payload(mv[i as int])) by {
                assert(jview_seq(af@) =~= seq![jview(af@[0])]);
            }
            assert(wire_view(w) == conds[i as int]);
            assert(wires_view(out@) =~= conds.take(i as int + 1));
        }
        i = i + 1;
    }
    proof {
        assert(conds.take(mv.len() as int) =~= conds);
    }
    if payload.residuals.len() > 0 {
        let mut objs: Vec<Json> = Vec::new();
        let mut k: usize = 0;
        while k < payload.residuals.len()
            invariant
                k <= payload.residuals.len(),
                rv == residuals_view(payload.residuals@),
                rv.len() == payload.residuals@.len(),
                forall|t: int| 0 <= t < payload.residuals@.len() ==> #[trigger] rv[t]
                    == residual_view(payload.residuals@[t]),
                jview_seq(objs@) == residual_objs(rv, k as int),
            decreases payload.residuals.len() - k,
        {
            let rd = &payload.residuals[k];
            let mut fields: Vec<(String, Json)> = vec![
                ("uid".to_owned(), Json::Str(render_ref(&rd.ident))),
            ];
            let ghost f0 = fields@;
            proof {
                lemma_jview_fields(f0);
                lemma_jview_fields(payload.residuals@[k as int].fields@);
                assert(jview_fields(f0) =~= seq![
                    ("uid"@, JsonV::Str(ref_text(payload.residuals@[k as int].ident))),
                ]);
                assert(jview_fields(fields@) =~= jview_fields(f0) + jview_fields(
                    payload.residuals@[k as int].fields@,
                ).take(0));
            }
            let mut t: usize = 0;
            while t < rd.fields.len()
                invariant
                    *rd == payload.residuals@[k as int],
                    t <= rd.fields.len(),
                    jview_fields(payload.residuals@[k as int].fields@).len()
                        == payload.residuals@[k as int].fields@.len(),
                    f0.len() == 1,
                    jview_fields(f0) =~= seq![
                        ("uid"@, JsonV::Str(ref_text(payload.residuals@[k as int].ident))),
                    ],
                    k < payload.residuals@.len(),
                    rv == residuals_view(payload.residuals@),
                    rv.len() == payload.residuals@.len(),
                    forall|u: int| 0 <= u < payload.residuals@.len() ==> #[trigger] rv[u]
                        == residual_view(payload.residuals@[u]),
                    fields@.len() == 1 + t,
                    jview_fields(fields@) == jview_fields(f0) + jview_fields(
                        payload.residuals@[k as int].fields@,
                    ).take(t as int),
                decreases rd.fields.len() - t,
            {
                proof {
                    lemma_jview_fields(payload.residuals@[k as int].fields@);
                }
                let key = rd.fields[t].0.clone();
                let val = json_clone(&rd.fields[t].1);
                let ghost fold_ = fields@;
                fields.push((key, val));
                proof {
                    lemma_jview_fields_push(fold_, (key, val));
                    let gfs = jview_fields(payload.residuals@[k as int].fields@);
                    assert(gfs.take(t as int + 1).drop_last() =~= gfs.take(t as int));
                    assert(gfs.take(t as int + 1).last() == gfs[t as int]);
                    assert(jview_fields(fields@) =~= jview_fields(f0) + gfs.take(t as int + 1));
                }
                t = t + 1;
            }
            proof {
                lemma_jview_fields(payload.residuals@[k as int].fields@);
                let gfs = jview_fields(payload.residuals@[k as int].fields@);
                assert(gfs.take(gfs.len() as int) =~= gfs);
            }
            let obj = Json::Obj(fields);
            proof {
                assert(jview(obj) =~= residual_obj(rv[k as int]));
            }
            let ghost sold = objs@;
            objs.push(obj);
            proof {
                lemma_jview_seq_push(sold, obj);
                assert(jview_seq(objs@) =~= residual_objs(rv, k as int + 1));
            }
            k = k + 1;
        }
        let arr = Json::Arr(objs);
        let w = WireMutation { set_json: json_to_text(&arr), cond: None };
        let ghost oold = out@;
        out.push(w);
        proof {
            lemma_wires_view_push(oold, w);
            assert(jview(arr) =~= JsonV::Arr(residual_objs(rv, rv.len() as int)));
            assert(wires_view(out@) =~= wire_mutations_s(mv, rv));
        }
    } else {
        proof {
            assert(wires_view(out@) =~= wire_mutations_s(mv, rv));
        }
    }
    out
}

} // verus!
