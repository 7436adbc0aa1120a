use vstd::prelude::*;

verus! {

/// Mathematical model of a JSON document tree. Numbers are kept as their
/// literal text, so the model never holds a floating-point value.
pub enum JsonV {
    Null,
    Bool(bool),
    Num(Seq<char>),
    Str(Seq<char>),
    Arr(Seq<JsonV>),
    Obj(Seq<(Seq<char>, JsonV)>),
}

/// Executable JSON document tree, the library's own representation of one
/// input record. Object fields keep their original order.
#[derive(Debug)]
pub enum Json {
    Null,
    Bool(bool),
    Num(String),
    Str(String),
    Arr(Vec<Json>),
    Obj(Vec<(String, Json)>),
}

/// Model of an executable JSON tree.
pub open spec fn jview(j: Json) -> JsonV
    decreases j,
{
    match j {
        Json::Null => JsonV::Null,
        Json::Bool(b) => JsonV::Bool(b),
        Json::Num(s) => JsonV::Num(s@),
        Json::Str(s) => JsonV::Str(s@),
        Json::Arr(xs) => JsonV::Arr(jview_seq(xs@)),
        Json::Obj(fs) => JsonV::Obj(jview_fields(fs@)),
    }
}

pub open spec fn jview_seq(xs: Seq<Json>) -> Seq<JsonV>
    decreases xs,
{
    if xs.len() == 0 {
        Seq::empty()
    } else {
        seq![jview(xs[0])] + jview_seq(xs.drop_first())
    }
}

pub open spec fn jview_fields(fs: Seq<(String, Json)>) -> Seq<(Seq<char>, JsonV)>
    decreases fs,
{
    if fs.len() == 0 {
        Seq::empty()
    } else {
        seq![(fs[0].0@, jview(fs[0].1))] + jview_fields(fs.drop_first())
    }
}

/// The length and the elements of a viewed element sequence.
pub proof fn lemma_jview_seq(xs: Seq<Json>)
    ensures
        jview_seq(xs).len() == xs.len(),
        forall|i: int| 0 <= i < xs.len() ==> jview_seq(xs)[i] == jview(xs[i]),
    decreases xs,
{
    if xs.len() > 0 {
        lemma_jview_seq(xs.drop_first());
    }
}

/// The length and the elements of a viewed field sequence.
pub proof fn lemma_jview_fields(fs: Seq<(String, Json)>)
    ensures
        jview_fields(fs).len() == fs.len(),
        forall|i: int| 0 <= i < fs.len() ==> jview_fields(fs)[i] == (fs[i].0@, jview(fs[i].1)),
    decreases fs,
{
    if fs.len() > 0 {
        lemma_jview_fields(fs.drop_first());
    }
}

pub proof fn lemma_jview_seq_push(xs: Seq<Json>, x: Json)
    ensures
        jview_seq(xs.push(x)) == jview_seq(xs).push(jview(x)),
{
    lemma_jview_seq(xs);
    lemma_jview_seq(xs.push(x));
    assert(jview_seq(xs.push(x)) =~= jview_seq(xs).push(jview(x)));
}

pub proof fn lemma_jview_fields_push(fs: Seq<(String, Json)>, x: (String, Json))
    ensures
        jview_fields(fs.push(x)) == jview_fields(fs).push((x.0@, jview(x.1))),
{
    lemma_jview_fields(fs);
    lemma_jview_fields(fs.push(x));
    assert(jview_fields(fs.push(x)) =~= jview_fields(fs).push((x.0@, jview(x.1))));
}

/// Whether an object's own field list holds the given key.
pub open spec fn has_key(fs: Seq<(Seq<char>, JsonV)>, key: Seq<char>) -> bool {
    exists|i: int| 0 <= i < fs.len() && fs[i].0 == key
}

/// An exact copy of a JSON tree.
pub fn json_clone(j: &Json) -> (r: Json)
    ensures
        jview(r) == jview(*j),
    decreases *j,
{
    match j {
        Json::Null => Json::Null,
        Json::Bool(b) => Json::Bool(*b),
        Json::Num(s) => Json::Num(s.clone()),
        Json::Str(s) => Json::Str(s.clone()),
        Json::Arr(xs) => {
            let mut out: Vec<Json> = Vec::new();
            let mut i: usize = 0;
            proof {
                lemma_jview_seq(xs@);
            }
            while i < xs.len()
                invariant
                    *j == Json::Arr(*xs),
                    i <= xs.len(),
                    out@.len() == i,
                    forall|k: int| 0 <= k < i ==> jview(out@[k]) == jview(xs@[k]),
                decreases xs.len() - i,
            {
                proof {
                    assert(*j == Json::Arr(*xs));
                    assert(decreases_to!(*j => j->Arr_0));
                    assert(decreases_to!(*xs => xs@));
                    assert(decreases_to!(xs@ => xs@[i as int]));
                    assert(decreases_to!(*j => xs@[i as int]));
                }
                let c = json_clone(&xs[i]);
                out.push(c);
                i = i + 1;
            }
            proof {
                lemma_jview_seq(out@);
                assert(jview_seq(out@) =~= jview_seq(xs@));
            }
            Json::Arr(out)
        },
        Json::Obj(fs) => {
            let mut out: Vec<(String, Json)> = Vec::new();
            let mut i: usize = 0;
            proof {
                lemma_jview_fields(fs@);
            }
            while i < fs.len()
                invariant
                    *j == Json::Obj(*fs),
                    i <= fs.len(),
                    out@.len() == i,
                    forall|k: int| 0 <= k < i ==> out@[k].0@ == fs@[k].0@ && jview(out@[k].1)
                        == jview(fs@[k].1),
                decreases fs.len() - i,
            {
                proof {
                    assert(*j == Json::Obj(*fs));
                    assert(decreases_to!(*j => j->Obj_0));
                    assert(decreases_to!(*fs => fs@));
                    assert(decreases_to!(fs@ => fs@[i as int]));
                    assert(decreases_to!(fs@[i as int] => fs@[i as int].1));
                    assert(decreases_to!(*j => fs@[i as int].1));
                }
                let key = fs[i].0.clone();
                let val = json_clone(&fs[i].1);
                out.push((key, val));
                i = i + 1;
            }
            proof {
                lemma_jview_fields(out@);
                assert(jview_fields(out@) =~= jview_fields(fs@));
            }
            Json::Obj(out)
        },
    }
}

} // verus!
