use vstd::prelude::*;

use crate::json::JsonV;
use crate::keys::{KeySelector, key_matches};
use crate::classify::spec_is_node;
use crate::vars::{VarName, IdentRef};
use crate::classify::is_node_array;
use crate::compile::{
    compile_node_s, compile_fields_s, compile_items_s, matched_of, CErr, ident_of, union_var,
    var_at, self_queries, cond_muts_of, QueryLineV, off_after_self,
};
use crate::txn::{ChunkStats, sum_docs, sum_nquads, sum_aborts};

verus! {

/// No field of `fs` matches a deduplication key.
pub open spec fn keys_unmatched(sel: KeySelector, fs: Seq<(Seq<char>, JsonV)>) -> bool {
    forall|k: int| 0 <= k < fs.len() ==> !key_matches(sel, (#[trigger] fs[k]).0)
}

/// Every field of `fs` matches a deduplication key.
pub open spec fn keys_all_match(sel: KeySelector, fs: Seq<(Seq<char>, JsonV)>) -> bool {
    forall|k: int| 0 <= k < fs.len() ==> key_matches(sel, (#[trigger] fs[k]).0)
}

/// Every identity in `ids` is a fresh blank-node reference.
pub open spec fn all_fresh(ids: Seq<IdentRef>) -> bool {
    forall|k: int| 0 <= k < ids.len() ==> (#[trigger] ids[k]) is Fresh
}

pub proof fn lemma_matched_of_none(sel: KeySelector, fs: Seq<(Seq<char>, JsonV)>)
    requires
        keys_unmatched(sel, fs),
    ensures
        matched_of(sel, fs).len() == 0,
    decreases fs,
{
    if fs.len() > 0 {
        assert(keys_unmatched(sel, fs.drop_last())) by {
            assert(forall|k: int| 0 <= k < fs.len() - 1 ==> fs.drop_last()[k] == fs[k]);
        }
        lemma_matched_of_none(sel, fs.drop_last());
    }
}

/// Every element of `matched_of(sel, fs)` does match a key.
pub proof fn lemma_matched_of_match(sel: KeySelector, fs: Seq<(Seq<char>, JsonV)>)
    ensures
        keys_all_match(sel, matched_of(sel, fs)),
    decreases fs,
{
    if fs.len() > 0 {
        lemma_matched_of_match(sel, fs.drop_last());
    }
}

/// The kept fields a compiled node leaves behind never hold a field that
/// matches a deduplication key: every key was stripped out.
pub proof fn lemma_kept_keys_unmatched(
    sel: KeySelector,
    index: u64,
    off: u64,
    fs: Seq<(Seq<char>, JsonV)>,
    i: int,
)
    requires
        compile_fields_s(sel, index, off, fs, i) is Ok,
    ensures
        keys_unmatched(sel, compile_fields_s(sel, index, off, fs, i)->Ok_0.fields),
    decreases fs.len() - i,
{
    if 0 <= i < fs.len() {
        let f = fs[i];
        if key_matches(sel, f.0) {
            lemma_kept_keys_unmatched(sel, index, off, fs, i + 1);
        } else if spec_is_node(f.1) {
            let no = compile_node_s(sel, index, off, f.1)->Ok_0;
            lemma_kept_keys_unmatched(sel, index, no.off, fs, i + 1);
        } else if is_node_array(f.1) {
            let io = compile_items_s(sel, index, off, f.1->Arr_0, 0)->Ok_0;
            lemma_kept_keys_unmatched(sel, index, io.off, fs, i + 1);
        } else {
            lemma_kept_keys_unmatched(sel, index, off, fs, i + 1);
        }
    }
}

/// Whether the deduplication configuration finds no key anywhere in the
/// parts of a value that compilation visits.
pub open spec fn node_match_free(sel: KeySelector, j: JsonV) -> bool
    decreases j, 0int, 0int,
{
    j is Obj ==> fields_match_free(sel, j->Obj_0, 0)
}

pub open spec fn fields_match_free(sel: KeySelector, fs: Seq<(Seq<char>, JsonV)>, i: int) -> bool
    decreases fs, fs.len() - i, 1int,
{
    if i < 0 || i >= fs.len() {
        true
    } else {
        &&& !key_matches(sel, fs[i].0)
        &&& (if spec_is_node(fs[i].1) {
            node_match_free(sel, fs[i].1)
        } else if is_node_array(fs[i].1) {
            items_match_free(sel, fs[i].1->Arr_0, 0)
        } else {
            true
        })
        &&& fields_match_free(sel, fs, i + 1)
    }
}

pub open spec fn items_match_free(sel: KeySelector, xs: Seq<JsonV>, i: int) -> bool
    decreases xs, xs.len() - i, 1int,
{
    if i < 0 || i >= xs.len() {
        true
    } else {
        node_match_free(sel, xs[i]) && items_match_free(sel, xs, i + 1)
    }
}

pub proof fn lemma_fmf_unmatched(sel: KeySelector, fs: Seq<(Seq<char>, JsonV)>, i: int)
    requires
        0 <= i,
        fields_match_free(sel, fs, i),
    ensures
        forall|k: int| i <= k < fs.len() ==> !key_matches(sel, (#[trigger] fs[k]).0),
    decreases fs.len() - i,
{
    if i < fs.len() {
        lemma_fmf_unmatched(sel, fs, i + 1);
    }
}

/// A document in which no deduplication key matches at any nesting level
/// compiles to an empty query block, an empty conditional-mutation list,
/// and a fresh (never looked-up) identity for every node.
pub proof fn lemma_match_free_all_fresh(sel: KeySelector, index: u64, off: u64, j: JsonV)
    requires
        node_match_free(sel, j),
        compile_node_s(sel, index, off, j) is Ok,
    ensures
        compile_node_s(sel, index, off, j)->Ok_0.queries.len() == 0,
        compile_node_s(sel, index, off, j)->Ok_0.muts.len() == 0,
        compile_node_s(sel, index, off, j)->Ok_0.ident is Fresh,
        all_fresh(compile_node_s(sel, index, off, j)->Ok_0.idents),
    decreases j, 0int, 0int,
{
    let fs = j->Obj_0;
    lemma_fmf_unmatched(sel, fs, 0);
    assert(keys_unmatched(sel, fs));
    lemma_matched_of_none(sel, fs);
    let off1 = off_after_self(off, 0);
    lemma_match_free_fields(sel, index, off1, fs, 0);
    let no = compile_node_s(sel, index, off, j)->Ok_0;
    let fo = compile_fields_s(sel, index, off1, fs, 0)->Ok_0;
    assert(no.idents == seq![no.ident] + fo.idents);
    assert(forall|k: int| 0 <= k < no.idents.len() ==> (#[trigger] no.idents[k]) is Fresh) by {
        assert(no.idents[0] == no.ident);
        assert(forall|k: int| 1 <= k < no.idents.len() ==> no.idents[k] == fo.idents[k - 1]);
    }
}

pub proof fn lemma_match_free_fields(
    sel: KeySelector,
    index: u64,
    off: u64,
    fs: Seq<(Seq<char>, JsonV)>,
    i: int,
)
    requires
        fields_match_free(sel, fs, i),
        compile_fields_s(sel, index, off, fs, i) is Ok,
    ensures
        compile_fields_s(sel, index, off, fs, i)->Ok_0.queries.len() == 0,
        compile_fields_s(sel, index, off, fs, i)->Ok_0.muts.len() == 0,
        all_fresh(compile_fields_s(sel, index, off, fs, i)->Ok_0.idents),
    decreases fs, fs.len() - i, 1int,
{
    if 0 <= i < fs.len() {
        let f = fs[i];
        if spec_is_node(f.1) {
            let no = compile_node_s(sel, index, off, f.1)->Ok_0;
            lemma_match_free_all_fresh(sel, index, off, f.1);
            lemma_match_free_fields(sel, index, no.off, fs, i + 1);
        } else if is_node_array(f.1) {
            let io = compile_items_s(sel, index, off, f.1->Arr_0, 0)->Ok_0;
            lemma_match_free_items(sel, index, off, f.1->Arr_0, 0);
            lemma_match_free_fields(sel, index, io.off, fs, i + 1);
        } else {
            lemma_match_free_fields(sel, index, off, fs, i + 1);
        }
    }
}

pub proof fn lemma_match_free_items(sel: KeySelector, index: u64, off: u64, xs: Seq<JsonV>, i: int)
    requires
        items_match_free(sel, xs, i),
        compile_items_s(sel, index, off, xs, i) is Ok,
    ensures
        compile_items_s(sel, index, off, xs, i)->Ok_0.queries.len() == 0,
        compile_items_s(sel, index, off, xs, i)->Ok_0.muts.len() == 0,
        all_fresh(compile_items_s(sel, index, off, xs, i)->Ok_0.idents),
    decreases xs, xs.len() - i, 1int,
{
    if 0 <= i < xs.len() {
        let no = compile_node_s(sel, index, off, xs[i])->Ok_0;
        lemma_match_free_all_fresh(sel, index, off, xs[i]);
        lemma_match_free_items(sel, index, no.off, xs, i + 1);
    }
}

/// A node whose own fields hold exactly one deduplication key compiles to
/// exactly one conditional mutation of its own, guarded by the key's
/// variable having matched nothing, targeting the key's own bound variable
/// as the node's identity; and the key never reappears among the node's
/// residual fields.
pub proof fn lemma_single_key_node(sel: KeySelector, index: u64, off: u64, j: JsonV)
    requires
        j is Obj,
        matched_of(sel, j->Obj_0).len() == 1,
        compile_node_s(sel, index, off, j) is Ok,
    ensures
        ({
            let no = compile_node_s(sel, index, off, j)->Ok_0;
            let key = matched_of(sel, j->Obj_0)[0].0;
            &&& no.ident == IdentRef::Bound(var_at(index, off, 0))
            &&& cond_muts_of(index, off, matched_of(sel, j->Obj_0), no.ident).len() == 1
            &&& no.muts[0].guard == var_at(index, off, 0)
            &&& no.muts[0].target == no.ident
            &&& no.muts[0].key == key
            &&& keys_unmatched(sel, compile_fields_s(
                sel,
                index,
                off_after_self(off, 1),
                j->Obj_0,
                0,
            )->Ok_0.fields)
            &&& key_matches(sel, key)
        }),
{
    let fs = j->Obj_0;
    let ms = matched_of(sel, fs);
    let no = compile_node_s(sel, index, off, j)->Ok_0;
    let fo = compile_fields_s(sel, index, off_after_self(off, 1), fs, 0)->Ok_0;
    assert(no.muts == cond_muts_of(index, off, ms, no.ident) + fo.muts);
    assert(no.muts[0] == cond_muts_of(index, off, ms, no.ident)[0]);
    lemma_kept_keys_unmatched(sel, index, off_after_self(off, 1), fs, 0);
    lemma_matched_of_match(sel, fs);
    assert(key_matches(sel, ms[0].0));
}

/// A node whose own fields hold `m >= 2` deduplication keys compiles to one
/// lookup line per key plus exactly one union line; its identity is the
/// union variable, which (while the counter has not wrapped) differs from
/// every per-key variable.
pub proof fn lemma_multi_key_node(sel: KeySelector, index: u64, off: u64, j: JsonV)
    requires
        j is Obj,
        matched_of(sel, j->Obj_0).len() >= 2,
        compile_node_s(sel, index, off, j) is Ok,
        off + matched_of(sel, j->Obj_0).len() + 1 <= u64::MAX,
    ensures
        ({
            let no = compile_node_s(sel, index, off, j)->Ok_0;
            let ms = matched_of(sel, j->Obj_0);
            let m = ms.len() as int;
            &&& self_queries(index, off, ms).len() == m + 1
            &&& (forall|k: int| 0 <= k < m ==> (#[trigger] no.queries[k]) == QueryLineV::Lookup {
                var: var_at(index, off, k),
                key: ms[k].0,
                value: ms[k].1,
            })
            &&& no.queries[m] == QueryLineV::Union {
                var: union_var(index, off, m),
                members: crate::compile::member_vars(index, off, m),
            }
            &&& no.ident == IdentRef::Bound(union_var(index, off, m))
            &&& (forall|k: int| 0 <= k < m ==> union_var(index, off, m) != var_at(index, off, k))
        }),
{
    let no = compile_node_s(sel, index, off, j)->Ok_0;
    let ms = matched_of(sel, j->Obj_0);
    let m = ms.len() as int;
    let sq = self_queries(index, off, ms);
    let fo = compile_fields_s(sel, index, off_after_self(off, m), j->Obj_0, 0)->Ok_0;
    assert(no.queries == sq + fo.queries);
    assert(forall|k: int| 0 <= k < m ==> (#[trigger] no.queries[k]) == sq[k]);
    assert(no.queries[m] == sq[m]);
    assert(forall|k: int| 0 <= k < m ==> union_var(index, off, m) != var_at(index, off, k)) by {
        assert(forall|k: int| 0 <= k < m ==> (#[trigger] var_at(index, off, k)).seq == off + k
            + 1);
        assert(union_var(index, off, m).seq == off + m + 1);
    }
}

/// A document that supplies the reserved identity field itself is rejected
/// with a structural error before any query or mutation is produced.
pub proof fn lemma_uid_field_rejected(sel: KeySelector, index: u64, off: u64, j: JsonV)
    requires
        j is Obj,
        crate::json::has_key(j->Obj_0, "uid"@),
    ensures
        compile_node_s(sel, index, off, j) == Err::<crate::compile::NodeOutS, CErr>(CErr::UidField),
{
}

/// All identities of a compiled subtree: every conditional mutation of the
/// whole output targets a bound (looked-up) identity, never a fresh one; so
/// re-submitting the same transaction cannot create a duplicate entity for
/// any node that carried a deduplication key, whose guard then finds the
/// existing match.
pub proof fn lemma_muts_target_bound(sel: KeySelector, index: u64, off: u64, j: JsonV)
    requires
        compile_node_s(sel, index, off, j) is Ok,
    ensures
        forall|k: int|
            0 <= k < compile_node_s(sel, index, off, j)->Ok_0.muts.len() ==> (
            #[trigger] compile_node_s(sel, index, off, j)->Ok_0.muts[k]).target is Bound,
    decreases j, 0int, 0int,
{
    let fs = j->Obj_0;
    let ms = matched_of(sel, fs);
    let m = ms.len() as int;
    let ident = ident_of(index, off, m);
    let off1 = off_after_self(off, m);
    let no = compile_node_s(sel, index, off, j)->Ok_0;
    let fo = compile_fields_s(sel, index, off1, fs, 0)->Ok_0;
    lemma_muts_bound_fields(sel, index, off1, fs, 0);
    assert(no.muts == cond_muts_of(index, off, ms, ident) + fo.muts);
    assert(m >= 1 ==> ident is Bound);
    assert(m == 0 ==> cond_muts_of(index, off, ms, ident).len() == 0);
}

pub proof fn lemma_muts_bound_fields(
    sel: KeySelector,
    index: u64,
    off: u64,
    fs: Seq<(Seq<char>, JsonV)>,
    i: int,
)
    requires
        compile_fields_s(sel, index, off, fs, i) is Ok,
    ensures
        forall|k: int|
            0 <= k < compile_fields_s(sel, index, off, fs, i)->Ok_0.muts.len() ==> (
            #[trigger] compile_fields_s(sel, index, off, fs, i)->Ok_0.muts[k]).target is Bound,
    decreases fs, fs.len() - i, 1int,
{
    if 0 <= i < fs.len() {
        let f = fs[i];
        if key_matches(sel, f.0) {
            lemma_muts_bound_fields(sel, index, off, fs, i + 1);
        } else if spec_is_node(f.1) {
            let no = compile_node_s(sel, index, off, f.1)->Ok_0;
            lemma_muts_target_bound(sel, index, off, f.1);
            lemma_muts_bound_fields(sel, index, no.off, fs, i + 1);
        } else if is_node_array(f.1) {
            let io = compile_items_s(sel, index, off, f.1->Arr_0, 0)->Ok_0;
            lemma_muts_bound_items(sel, index, off, f.1->Arr_0, 0);
            lemma_muts_bound_fields(sel, index, io.off, fs, i + 1);
        } else {
            lemma_muts_bound_fields(sel, index, off, fs, i + 1);
        }
    }
}

pub proof fn lemma_muts_bound_items(
    sel: KeySelector,
    index: u64,
    off: u64,
    xs: Seq<JsonV>,
    i: int,
)
    requires
        compile_items_s(sel, index, off, xs, i) is Ok,
    ensures
        forall|k: int|
            0 <= k < compile_items_s(sel, index, off, xs, i)->Ok_0.muts.len() ==> (
            #[trigger] compile_items_s(sel, index, off, xs, i)->Ok_0.muts[k]).target is Bound,
    decreases xs, xs.len() - i, 1int,
{
    if 0 <= i < xs.len() {
        let no = compile_node_s(sel, index, off, xs[i])->Ok_0;
        lemma_muts_target_bound(sel, index, off, xs[i]);
        lemma_muts_bound_items(sel, index, no.off, xs, i + 1);
    }
}

/// Number of node-shaped values that compilation visits in `j`: the node
/// itself plus every node or node-array element reachable through fields
/// that are not extracted as deduplication keys.
pub open spec fn node_count(sel: KeySelector, j: JsonV) -> nat
    decreases j, 0int, 0int,
{
    if j is Obj {
        1 + fields_node_count(sel, j->Obj_0, 0)
    } else {
        0
    }
}

pub open spec fn fields_node_count(sel: KeySelector, fs: Seq<(Seq<char>, JsonV)>, i: int) -> nat
    decreases fs, fs.len() - i, 1int,
{
    if i < 0 || i >= fs.len() {
        0
    } else {
        (if key_matches(sel, fs[i].0) {
            0nat
        } else if spec_is_node(fs[i].1) {
            node_count(sel, fs[i].1)
        } else if is_node_array(fs[i].1) {
            items_node_count(sel, fs[i].1->Arr_0, 0)
        } else {
            0nat
        }) + fields_node_count(sel, fs, i + 1)
    }
}

pub open spec fn items_node_count(sel: KeySelector, xs: Seq<JsonV>, i: int) -> nat
    decreases xs, xs.len() - i, 1int,
{
    if i < 0 || i >= xs.len() {
        0
    } else {
        node_count(sel, xs[i]) + items_node_count(sel, xs, i + 1)
    }
}

/// Compilation assigns exactly one identity per node-shaped value it
/// visits: applied against an empty database, where every guard holds, the
/// mutations create or bind exactly one entity per input node.
pub proof fn lemma_one_ident_per_node(sel: KeySelector, index: u64, off: u64, j: JsonV)
    requires
        compile_node_s(sel, index, off, j) is Ok,
    ensures
        compile_node_s(sel, index, off, j)->Ok_0.idents.len() == node_count(sel, j),
    decreases j, 0int, 0int,
{
    let fs = j->Obj_0;
    let m = matched_of(sel, fs).len() as int;
    let off1 = off_after_self(off, m);
    lemma_ident_count_fields(sel, index, off1, fs, 0);
}

pub proof fn lemma_ident_count_fields(
    sel: KeySelector,
    index: u64,
    off: u64,
    fs: Seq<(Seq<char>, JsonV)>,
    i: int,
)
    requires
        compile_fields_s(sel, index, off, fs, i) is Ok,
    ensures
        compile_fields_s(sel, index, off, fs, i)->Ok_0.idents.len() == fields_node_count(
            sel,
            fs,
            i,
        ),
    decreases fs, fs.len() - i, 1int,
{
    if 0 <= i < fs.len() {
        let f = fs[i];
        if key_matches(sel, f.0) {
            lemma_ident_count_fields(sel, index, off, fs, i + 1);
        } else if spec_is_node(f.1) {
            let no = compile_node_s(sel, index, off, f.1)->Ok_0;
            lemma_one_ident_per_node(sel, index, off, f.1);
            lemma_ident_count_fields(sel, index, no.off, fs, i + 1);
        } else if is_node_array(f.1) {
            let io = compile_items_s(sel, index, off, f.1->Arr_0, 0)->Ok_0;
            lemma_ident_count_items(sel, index, off, f.1->Arr_0, 0);
            lemma_ident_count_fields(sel, index, io.off, fs, i + 1);
        } else {
            lemma_ident_count_fields(sel, index, off, fs, i + 1);
        }
    }
}

pub proof fn lemma_ident_count_items(
    sel: KeySelector,
    index: u64,
    off: u64,
    xs: Seq<JsonV>,
    i: int,
)
    requires
        compile_items_s(sel, index, off, xs, i) is Ok,
    ensures
        compile_items_s(sel, index, off, xs, i)->Ok_0.idents.len() == items_node_count(sel, xs, i),
    decreases xs, xs.len() - i, 1int,
{
    if 0 <= i < xs.len() {
        let no = compile_node_s(sel, index, off, xs[i])->Ok_0;
        lemma_one_ident_per_node(sel, index, off, xs[i]);
        lemma_ident_count_items(sel, index, no.off, xs, i + 1);
    }
}

/// The variable a query line binds.
pub open spec fn line_var(q: QueryLineV) -> VarName {
    match q {
        QueryLineV::Lookup { var, .. } => var,
        QueryLineV::Union { var, .. } => var,
    }
}

/// The variable inside an identity reference.
pub open spec fn ident_var(r: IdentRef) -> VarName {
    match r {
        IdentRef::Bound(v) => v,
        IdentRef::Fresh(v) => v,
    }
}

/// Every variable a compiled node emits is scoped to its own document.
pub open spec fn vars_scoped(o: crate::compile::NodeOutS, index: u64) -> bool {
    &&& forall|k: int| 0 <= k < o.queries.len() ==> line_var(#[trigger] o.queries[k]).doc == index
    &&& forall|k: int| 0 <= k < o.muts.len() ==> (#[trigger] o.muts[k]).guard.doc == index
    &&& forall|k: int| 0 <= k < o.idents.len() ==> ident_var(#[trigger] o.idents[k]).doc == index
    &&& ident_var(o.ident).doc == index
}

pub open spec fn fields_vars_scoped(o: crate::compile::FieldsOutS, index: u64) -> bool {
    &&& forall|k: int| 0 <= k < o.queries.len() ==> line_var(#[trigger] o.queries[k]).doc == index
    &&& forall|k: int| 0 <= k < o.muts.len() ==> (#[trigger] o.muts[k]).guard.doc == index
    &&& forall|k: int| 0 <= k < o.idents.len() ==> ident_var(#[trigger] o.idents[k]).doc == index
}

pub open spec fn items_vars_scoped(o: crate::compile::ItemsOutS, index: u64) -> bool {
    &&& forall|k: int| 0 <= k < o.queries.len() ==> line_var(#[trigger] o.queries[k]).doc == index
    &&& forall|k: int| 0 <= k < o.muts.len() ==> (#[trigger] o.muts[k]).guard.doc == index
    &&& forall|k: int| 0 <= k < o.idents.len() ==> ident_var(#[trigger] o.idents[k]).doc == index
}

/// Every query variable, guard and identity a document compiles to carries
/// that document's input position, so variables of different documents in
/// one chunk can never collide.
pub proof fn lemma_vars_scoped_to_document(sel: KeySelector, index: u64, off: u64, j: JsonV)
    requires
        compile_node_s(sel, index, off, j) is Ok,
    ensures
        vars_scoped(compile_node_s(sel, index, off, j)->Ok_0, index),
    decreases j, 0int, 0int,
{
    let fs = j->Obj_0;
    let m = matched_of(sel, fs).len() as int;
    let off1 = off_after_self(off, m);
    lemma_vars_scoped_fields(sel, index, off1, fs, 0);
}

pub proof fn lemma_vars_scoped_fields(
    sel: KeySelector,
    index: u64,
    off: u64,
    fs: Seq<(Seq<char>, JsonV)>,
    i: int,
)
    requires
        compile_fields_s(sel, index, off, fs, i) is Ok,
    ensures
        fields_vars_scoped(compile_fields_s(sel, index, off, fs, i)->Ok_0, index),
    decreases fs, fs.len() - i, 1int,
{
    if 0 <= i < fs.len() {
        let f = fs[i];
        if key_matches(sel, f.0) {
            lemma_vars_scoped_fields(sel, index, off, fs, i + 1);
        } else if spec_is_node(f.1) {
            let no = compile_node_s(sel, index, off, f.1)->Ok_0;
            lemma_vars_scoped_to_document(sel, index, off, f.1);
            lemma_vars_scoped_fields(sel, index, no.off, fs, i + 1);
        } else if is_node_array(f.1) {
            let io = compile_items_s(sel, index, off, f.1->Arr_0, 0)->Ok_0;
            lemma_vars_scoped_items(sel, index, off, f.1->Arr_0, 0);
            lemma_vars_scoped_fields(sel, index, io.off, fs, i + 1);
        } else {
            lemma_vars_scoped_fields(sel, index, off, fs, i + 1);
        }
    }
}

pub proof fn lemma_vars_scoped_items(
    sel: KeySelector,
    index: u64,
    off: u64,
    xs: Seq<JsonV>,
    i: int,
)
    requires
        compile_items_s(sel, index, off, xs, i) is Ok,
    ensures
        items_vars_scoped(compile_items_s(sel, index, off, xs, i)->Ok_0, index),
    decreases xs, xs.len() - i, 1int,
{
    if 0 <= i < xs.len() {
        let no = compile_node_s(sel, index, off, xs[i])->Ok_0;
        lemma_vars_scoped_to_document(sel, index, off, xs[i]);
        lemma_vars_scoped_items(sel, index, no.off, xs, i + 1);
    }
}

/// Variables a node allocates for itself: one per matched key, plus one
/// union or fresh variable unless a single key doubles as the identity.
pub open spec fn self_allocs(m: nat) -> nat {
    if m == 1 {
        1
    } else {
        m + 1
    }
}

/// Total variables allocated while compiling a node.
pub open spec fn alloc_node(sel: KeySelector, j: JsonV) -> nat
    decreases j, 0int, 0int,
{
    if j is Obj {
        self_allocs(matched_of(sel, j->Obj_0).len()) + alloc_fields(sel, j->Obj_0, 0)
    } else {
        0
    }
}

pub open spec fn alloc_fields(sel: KeySelector, fs: Seq<(Seq<char>, JsonV)>, i: int) -> nat
    decreases fs, fs.len() - i, 1int,
{
    if i < 0 || i >= fs.len() {
        0
    } else {
        (if key_matches(sel, fs[i].0) {
            0nat
        } else if spec_is_node(fs[i].1) {
            alloc_node(sel, fs[i].1)
        } else if is_node_array(fs[i].1) {
            alloc_items(sel, fs[i].1->Arr_0, 0)
        } else {
            0nat
        }) + alloc_fields(sel, fs, i + 1)
    }
}

pub open spec fn alloc_items(sel: KeySelector, xs: Seq<JsonV>, i: int) -> nat
    decreases xs, xs.len() - i, 1int,
{
    if i < 0 || i >= xs.len() {
        0
    } else {
        alloc_node(sel, xs[i]) + alloc_items(sel, xs, i + 1)
    }
}

/// The query-line variables lie inside the window and strictly increase in
/// emission order — so they are pairwise distinct.
pub open spec fn queries_windowed(qs: Seq<QueryLineV>, lo: u64, hi: u64) -> bool {
    &&& forall|k: int| 0 <= k < qs.len() ==> lo < line_var(#[trigger] qs[k]).seq <= hi
    &&& forall|k1: int, k2: int|
        0 <= k1 < k2 < qs.len() ==> line_var(#[trigger] qs[k1]).seq < line_var(
            #[trigger] qs[k2],
        ).seq
}

/// The identity variables lie inside the window and strictly increase in
/// emission order — so they are pairwise distinct.
pub open spec fn idents_windowed(ids: Seq<IdentRef>, lo: u64, hi: u64) -> bool {
    &&& forall|k: int| 0 <= k < ids.len() ==> lo < ident_var(#[trigger] ids[k]).seq <= hi
    &&& forall|k1: int, k2: int|
        0 <= k1 < k2 < ids.len() ==> ident_var(#[trigger] ids[k1]).seq < ident_var(
            #[trigger] ids[k2],
        ).seq
}

/// While the per-document counter does not wrap, a document's query
/// variables are pairwise distinct, and so are its node identities: every
/// allocation takes the next counter value, so names can never collide.
/// Together with their per-document scoping this gives the uniqueness of
/// query variable names within a chunk.
pub proof fn lemma_vars_distinct_node(sel: KeySelector, index: u64, off: u64, j: JsonV)
    requires
        compile_node_s(sel, index, off, j) is Ok,
        off + alloc_node(sel, j) <= u64::MAX,
    ensures
        ({
            let no = compile_node_s(sel, index, off, j)->Ok_0;
            &&& no.off == off + alloc_node(sel, j)
            &&& queries_windowed(no.queries, off, no.off)
            &&& idents_windowed(no.idents, off, no.off)
        }),
    decreases j, 0int, 0int,
{
    let no = compile_node_s(sel, index, off, j)->Ok_0;
    let fs = j->Obj_0;
    let ms = matched_of(sel, fs);
    let m = ms.len() as int;
    let off1 = off_after_self(off, m);
    assert(off1 == off + self_allocs(ms.len()));
    lemma_vars_distinct_fields(sel, index, off1, fs, 0);
    let fo = compile_fields_s(sel, index, off1, fs, 0)->Ok_0;
    let sq = self_queries(index, off, ms);
    assert(forall|k: int| 0 <= k < m ==> line_var(#[trigger] sq[k]).seq == off + k + 1);
    assert(m >= 2 ==> line_var(sq[m]).seq == off + m + 1);
    assert(no.queries == sq + fo.queries);
    assert(queries_windowed(no.queries, off, no.off)) by {
        assert(forall|k: int| 0 <= k < sq.len() ==> #[trigger] no.queries[k] == sq[k]);
        assert(forall|k: int|
            sq.len() <= k < no.queries.len() ==> #[trigger] no.queries[k] == fo.queries[k
                - sq.len()]);
    }
    assert(no.idents == seq![no.ident] + fo.idents);
    assert(off < ident_var(no.ident).seq <= off1);
    assert(idents_windowed(no.idents, off, no.off)) by {
        assert(no.idents[0] == no.ident);
        assert(forall|k: int| 1 <= k < no.idents.len() ==> #[trigger] no.idents[k] == fo.idents[k
            - 1]);
    }
}

pub proof fn lemma_vars_distinct_fields(
    sel: KeySelector,
    index: u64,
    off: u64,
    fs: Seq<(Seq<char>, JsonV)>,
    i: int,
)
    requires
        compile_fields_s(sel, index, off, fs, i) is Ok,
        off + alloc_fields(sel, fs, i) <= u64::MAX,
    ensures
        ({
            let fo = compile_fields_s(sel, index, off, fs, i)->Ok_0;
            &&& fo.off == off + alloc_fields(sel, fs, i)
            &&& queries_windowed(fo.queries, off, fo.off)
            &&& idents_windowed(fo.idents, off, fo.off)
        }),
    decreases fs, fs.len() - i, 1int,
{
    if 0 <= i < fs.len() {
        let f = fs[i];
        if key_matches(sel, f.0) {
            lemma_vars_distinct_fields(sel, index, off, fs, i + 1);
        } else if spec_is_node(f.1) {
            let no = compile_node_s(sel, index, off, f.1)->Ok_0;
            lemma_vars_distinct_node(sel, index, off, f.1);
            lemma_vars_distinct_fields(sel, index, no.off, fs, i + 1);
            let fo = compile_fields_s(sel, index, no.off, fs, i + 1)->Ok_0;
            let out = compile_fields_s(sel, index, off, fs, i)->Ok_0;
            assert(out.queries == no.queries + fo.queries);
            assert(queries_windowed(out.queries, off, out.off)) by {
                assert(forall|k: int|
                    0 <= k < no.queries.len() ==> #[trigger] out.queries[k] == no.queries[k]);
                assert(forall|k: int|
                    no.queries.len() <= k < out.queries.len() ==> #[trigger] out.queries[k]
                        == fo.queries[k - no.queries.len()]);
            }
            assert(out.idents == no.idents + fo.idents);
            assert(idents_windowed(out.idents, off, out.off)) by {
                assert(forall|k: int|
                    0 <= k < no.idents.len() ==> #[trigger] out.idents[k] == no.idents[k]);
                assert(forall|k: int|
                    no.idents.len() <= k < out.idents.len() ==> #[trigger] out.idents[k]
                        == fo.idents[k - no.idents.len()]);
            }
        } else if is_node_array(f.1) {
            let io = compile_items_s(sel, index, off, f.1->Arr_0, 0)->Ok_0;
            lemma_vars_distinct_items(sel, index, off, f.1->Arr_0, 0);
            lemma_vars_distinct_fields(sel, index, io.off, fs, i + 1);
            let fo = compile_fields_s(sel, index, io.off, fs, i + 1)->Ok_0;
            let out = compile_fields_s(sel, index, off, fs, i)->Ok_0;
            assert(out.queries == io.queries + fo.queries);
            assert(queries_windowed(out.queries, off, out.off)) by {
                assert(forall|k: int|
                    0 <= k < io.queries.len() ==> #[trigger] out.queries[k] == io.queries[k]);
                assert(forall|k: int|
                    io.queries.len() <= k < out.queries.len() ==> #[trigger] out.queries[k]
                        == fo.queries[k - io.queries.len()]);
            }
            assert(out.idents == io.idents + fo.idents);
            assert(idents_windowed(out.idents, off, out.off)) by {
                assert(forall|k: int|
                    0 <= k < io.idents.len() ==> #[trigger] out.idents[k] == io.idents[k]);
                assert(forall|k: int|
                    io.idents.len() <= k < out.idents.len() ==> #[trigger] out.idents[k]
                        == fo.idents[k - io.idents.len()]);
            }
        } else {
            lemma_vars_distinct_fields(sel, index, off, fs, i + 1);
        }
    }
}

pub proof fn lemma_vars_distinct_items(
    sel: KeySelector,
    index: u64,
    off: u64,
    xs: Seq<JsonV>,
    i: int,
)
    requires
        compile_items_s(sel, index, off, xs, i) is Ok,
        off + alloc_items(sel, xs, i) <= u64::MAX,
    ensures
        ({
            let io = compile_items_s(sel, index, off, xs, i)->Ok_0;
            &&& io.off == off + alloc_items(sel, xs, i)
            &&& queries_windowed(io.queries, off, io.off)
            &&& idents_windowed(io.idents, off, io.off)
        }),
    decreases xs, xs.len() - i, 1int,
{
    if 0 <= i < xs.len() {
        let no = compile_node_s(sel, index, off, xs[i])->Ok_0;
        lemma_vars_distinct_node(sel, index, off, xs[i]);
        lemma_vars_distinct_items(sel, index, no.off, xs, i + 1);
        let io = compile_items_s(sel, index, no.off, xs, i + 1)->Ok_0;
        let out = compile_items_s(sel, index, off, xs, i)->Ok_0;
        assert(out.queries == no.queries + io.queries);
        assert(queries_windowed(out.queries, off, out.off)) by {
            assert(forall|k: int|
                0 <= k < no.queries.len() ==> #[trigger] out.queries[k] == no.queries[k]);
            assert(forall|k: int|
                no.queries.len() <= k < out.queries.len() ==> #[trigger] out.queries[k]
                    == io.queries[k - no.queries.len()]);
        }
        assert(out.idents == no.idents + io.idents);
        assert(idents_windowed(out.idents, off, out.off)) by {
            assert(forall|k: int|
                0 <= k < no.idents.len() ==> #[trigger] out.idents[k] == no.idents[k]);
            assert(forall|k: int|
                no.idents.len() <= k < out.idents.len() ==> #[trigger] out.idents[k] == io.idents[k
                    - no.idents.len()]);
        }
    }
}

pub proof fn lemma_sums_remove(ss: Seq<ChunkStats>, i: int)
    requires
        0 <= i < ss.len(),
    ensures
        sum_docs(ss.remove(i)) + ss[i].docs == sum_docs(ss),
        sum_nquads(ss.remove(i)) + ss[i].nquads == sum_nquads(ss),
        sum_aborts(ss.remove(i)) + ss[i].aborted == sum_aborts(ss),
    decreases ss.len(),
{
    if i == ss.len() - 1 {
        assert(ss.remove(i) =~= ss.drop_last());
    } else {
        assert(ss.remove(i).drop_last() =~= ss.drop_last().remove(i));
        assert(ss.remove(i).last() == ss.last());
        lemma_sums_remove(ss.drop_last(), i);
    }
}

/// The running totals depend only on which chunk reports arrived, never on
/// the order in which concurrently completing chunks delivered them: two
/// runs over the same multiset of reports sum to the same totals.
pub proof fn lemma_totals_order_independent(s1: Seq<ChunkStats>, s2: Seq<ChunkStats>)
    requires
        s1.to_multiset() == s2.to_multiset(),
    ensures
        sum_docs(s1) == sum_docs(s2),
        sum_nquads(s1) == sum_nquads(s2),
        sum_aborts(s1) == sum_aborts(s2),
    decreases s1.len(),
{
    broadcast use vstd::seq_lib::group_to_multiset_ensures;

    if s1.len() == 0 {
        assert(s2.to_multiset().len() == 0);
        assert(s2.len() == 0);
    } else {
        let x = s1.last();
        assert(s1.drop_last().push(x) =~= s1);
        assert(s1.to_multiset() == s1.drop_last().to_multiset().insert(x));
        assert(s2.to_multiset().count(x) > 0);
        assert(s2.contains(x));
        let i = choose|i: int| 0 <= i < s2.len() && s2[i] == x;
        assert(s2.remove(i).to_multiset() =~= s2.to_multiset().remove(x));
        assert(s1.drop_last().to_multiset() =~= s1.to_multiset().remove(x));
        lemma_totals_order_independent(s1.drop_last(), s2.remove(i));
        lemma_sums_remove(s2, i);
    }
}

} // verus!
