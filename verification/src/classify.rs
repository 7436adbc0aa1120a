use vstd::prelude::*;

use crate::json::{Json, JsonV, jview, jview_fields, jview_seq, lemma_jview_fields, lemma_jview_seq};

verus! {

/// The geometry and feature type names whose objects are stored inline as
/// opaque geospatial values rather than treated as graph nodes.
pub open spec fn is_geo_type_name(s: Seq<char>) -> bool {
    ||| s == "Point"@
    ||| s == "LineString"@
    ||| s == "Polygon"@
    ||| s == "MultiPoint"@
    ||| s == "MultiLineString"@
    ||| s == "MultiPolygon"@
    ||| s == "GeometryCollection"@
    ||| s == "Feature"@
    ||| s == "FeatureCollection"@
}

/// The first field of `fs` named `key`, if any.
pub open spec fn obj_lookup(fs: Seq<(Seq<char>, JsonV)>, key: Seq<char>) -> Option<JsonV>
    decreases fs,
{
    if fs.len() == 0 {
        Option::None
    } else if fs[0].0 == key {
        Option::Some(fs[0].1)
    } else {
        obj_lookup(fs.drop_first(), key)
    }
}

pub proof fn lemma_obj_lookup_at(fs: Seq<(Seq<char>, JsonV)>, key: Seq<char>, i: int)
    requires
        0 <= i <= fs.len(),
        forall|k: int| 0 <= k < i ==> fs[k].0 != key,
    ensures
        i < fs.len() && fs[i].0 == key ==> obj_lookup(fs, key) == Option::Some(fs[i].1),
        i == fs.len() ==> obj_lookup(fs, key) is None,
    decreases i,
{
    if i > 0 {
        lemma_obj_lookup_at(fs.drop_first(), key, i - 1);
    }
}

/// Whether a value looks like a geospatial object: its own `type` field is a
/// string holding one of the recognized geometry type names.
pub open spec fn is_geo_value(j: JsonV) -> bool {
    match j {
        JsonV::Obj(fs) => match obj_lookup(fs, "type"@) {
            Option::Some(JsonV::Str(s)) => is_geo_type_name(s),
            _ => false,
        },
        _ => false,
    }
}

/// Whether a value is a distinct graph node: a mapping that does not look
/// like a geospatial value.
pub open spec fn spec_is_node(j: JsonV) -> bool {
    j is Obj && !is_geo_value(j)
}

fn is_geo_name_exec(s: &String) -> (r: bool)
    ensures
        r == is_geo_type_name(s@),
{
    *s == "Point".to_owned() || *s == "LineString".to_owned() || *s == "Polygon".to_owned()
        || *s == "MultiPoint".to_owned() || *s == "MultiLineString".to_owned()
        || *s == "MultiPolygon".to_owned() || *s == "GeometryCollection".to_owned()
        || *s == "Feature".to_owned() || *s == "FeatureCollection".to_owned()
}

/// Whether a JSON value is an object that is not recognized as a geospatial
/// value, and therefore represents a distinct graph node.
pub fn is_node(v: &Json) -> (r: bool)
    ensures
        r == spec_is_node(jview(*v)),
{
    match v {
        Json::Obj(fs) => {
            proof {
                lemma_jview_fields(fs@);
            }
            let key: String = "type".to_owned();
            let mut i: usize = 0;
            while i < fs.len()
                invariant
                    *v == Json::Obj(*fs),
                    key@ == "type"@,
                    i <= fs.len(),
                    jview_fields(fs@).len() == fs@.len(),
                    forall|k: int| 0 <= k < fs@.len() ==> #[trigger] jview_fields(fs@)[k]
                        == (fs@[k].0@, jview(fs@[k].1)),
                    forall|k: int| 0 <= k < i ==> jview_fields(fs@)[k].0 != "type"@,
                decreases fs.len() - i,
            {
                if fs[i].0 == key {
                    proof {
                        lemma_obj_lookup_at(jview_fields(fs@), "type"@, i as int);
                    }
                    let geo = match &fs[i].1 {
                        Json::Str(s) => is_geo_name_exec(s),
                        _ => false,
                    };
                    return !geo;
                }
                i = i + 1;
            }
            proof {
                lemma_obj_lookup_at(jview_fields(fs@), "type"@, fs@.len() as int);
            }
            true
        },
        _ => false,
    }
}

/// Whether every element of `xs` is a node.
pub open spec fn all_nodes(xs: Seq<JsonV>) -> bool {
    forall|i: int| 0 <= i < xs.len() ==> spec_is_node(#[trigger] xs[i])
}

/// Whether a value is an array whose elements are all nodes. Such an array
/// is walked element by element, both by the compiler and by the leaf
/// estimator, so that progress accounting stays consistent with
/// compilation.
pub open spec fn is_node_array(j: JsonV) -> bool {
    j is Arr && all_nodes(j->Arr_0)
}

/// Whether every element of the array is a node.
pub fn all_items_nodes(xs: &Vec<Json>) -> (r: bool)
    ensures
        r == all_nodes(jview_seq(xs@)),
{
    proof {
        lemma_jview_seq(xs@);
    }
    let mut i: usize = 0;
    while i < xs.len()
        invariant
            i <= xs.len(),
            jview_seq(xs@).len() == xs@.len(),
            forall|k: int| 0 <= k < xs@.len() ==> #[trigger] jview_seq(xs@)[k] == jview(xs@[k]),
            forall|k: int| 0 <= k < i ==> spec_is_node(#[trigger] jview_seq(xs@)[k]),
        decreases xs.len() - i,
    {
        if !is_node(&xs[i]) {
            proof {
                assert(!spec_is_node(jview_seq(xs@)[i as int]));
            }
            return false;
        }
        i = i + 1;
    }
    true
}

/// Number of leaf values a document is expected to produce: over every node,
/// each field other than the identity field contributes the count of its
/// value; an array of nodes contributes the sum over its elements, exactly
/// as the compiler walks it; and anything else counts as a single leaf.
pub open spec fn leaf_count(j: JsonV) -> nat
    decreases j, 0int,
{
    if spec_is_node(j) {
        leaf_count_fields(j->Obj_0)
    } else if is_node_array(j) {
        leaf_count_items(j->Arr_0)
    } else {
        1
    }
}

pub open spec fn leaf_count_items(xs: Seq<JsonV>) -> nat
    decreases xs, 1int,
{
    if xs.len() == 0 {
        0
    } else {
        leaf_count_items(xs.drop_last()) + leaf_count(xs.last())
    }
}

pub open spec fn leaf_count_fields(fs: Seq<(Seq<char>, JsonV)>) -> nat
    decreases fs, 1int,
{
    if fs.len() == 0 {
        0
    } else {
        leaf_count_fields(fs.drop_last()) + (if fs.last().0 == "uid"@ {
            0nat
        } else {
            leaf_count(fs.last().1)
        })
    }
}

/// `n`, capped at the largest value a 64-bit counter can hold.
pub open spec fn cap64(n: nat) -> nat {
    if n > u64::MAX {
        u64::MAX as nat
    } else {
        n
    }
}

/// Estimated number of leaf values (n-quads) that `v` will produce,
/// saturating at the counter's maximum.
pub fn count_nquads(v: &Json) -> (r: u64)
    ensures
        r as nat == cap64(leaf_count(jview(*v))),
    decreases *v,
{
    if !is_node(v) {
        match v {
            Json::Arr(xs) => {
                if !all_items_nodes(xs) {
                    return 1;
                }
                proof {
                    lemma_jview_seq(xs@);
                }
                let mut acc: u64 = 0;
                let mut i: usize = 0;
                while i < xs.len()
                    invariant
                        *v == Json::Arr(*xs),
                        i <= xs.len(),
                        jview_seq(xs@).len() == xs@.len(),
                        forall|k: int| 0 <= k < xs@.len() ==> #[trigger] jview_seq(xs@)[k]
                            == jview(xs@[k]),
                        acc as nat == cap64(leaf_count_items(jview_seq(xs@).take(i as int))),
                    decreases xs.len() - i,
                {
                    proof {
                        assert(*v == Json::Arr(*xs));
                        assert(decreases_to!(*v => v->Arr_0));
                        assert(decreases_to!(*xs => xs@));
                        assert(decreases_to!(xs@ => xs@[i as int]));
                        assert(decreases_to!(*v => xs@[i as int]));
                    }
                    let step: u64 = count_nquads(&xs[i]);
                    proof {
                        let gxs = jview_seq(xs@);
                        assert(gxs.take(i as int + 1).drop_last() =~= gxs.take(i as int));
                        assert(gxs.take(i as int + 1).last() == gxs[i as int]);
                    }
                    acc = acc.saturating_add(step);
                    i = i + 1;
                }
                proof {
                    assert(jview_seq(xs@).take(xs@.len() as int) =~= jview_seq(xs@));
                    assert(is_node_array(jview(*v)));
                }
                return acc;
            },
            _ => {
                proof {
                    assert(!is_node_array(jview(*v)));
                }
                return 1;
            },
        }
    }
    match v {
        Json::Obj(fs) => {
            proof {
                lemma_jview_fields(fs@);
            }
            let uid: String = "uid".to_owned();
            let mut acc: u64 = 0;
            let mut i: usize = 0;
            while i < fs.len()
                invariant
                    *v == Json::Obj(*fs),
                    spec_is_node(jview(*v)),
                    uid@ == "uid"@,
                    i <= fs.len(),
                    jview_fields(fs@).len() == fs@.len(),
                    forall|k: int| 0 <= k < fs@.len() ==> #[trigger] jview_fields(fs@)[k]
                        == (fs@[k].0@, jview(fs@[k].1)),
                    acc as nat == cap64(leaf_count_fields(jview_fields(fs@).take(i as int))),
                decreases fs.len() - i,
            {
                proof {
                    assert(*v == Json::Obj(*fs));
                    assert(decreases_to!(*v => v->Obj_0));
                    assert(decreases_to!(*fs => fs@));
                    assert(decreases_to!(fs@ => fs@[i as int]));
                    assert(decreases_to!(fs@[i as int] => fs@[i as int].1));
                    assert(decreases_to!(*v => fs@[i as int].1));
                }
                let step: u64 = if fs[i].0 == uid {
                    0
                } else {
                    count_nquads(&fs[i].1)
                };
                proof {
                    let gfs = jview_fields(fs@);
                    assert(gfs.take(i as int + 1).drop_last() =~= gfs.take(i as int));
                    assert(gfs.take(i as int + 1).last() == gfs[i as int]);
                }
                acc = acc.saturating_add(step);
                i = i + 1;
            }
            proof {
                assert(jview_fields(fs@).take(fs@.len() as int) =~= jview_fields(fs@));
            }
            acc
        },
        _ => {
            proof {
                assert(spec_is_node(jview(*v)));
                assert(false);
            }
            1
        },
    }
}

} // verus!
