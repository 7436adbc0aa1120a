use upsert_loader::json::Json;
use upsert_loader::classify::{is_node, count_nquads};
use upsert_loader::keys::{KeySelector, Pattern, matches_key};
use upsert_loader::vars::{VarName, IdentRef};
use upsert_loader::compile::{QueryLine, CompileError};
use upsert_loader::chunk::compile_chunk;
use upsert_loader::query_text::{render_mutations, render_query};

fn by_names(names: &[&str]) -> KeySelector {
    KeySelector::ByName(names.iter().map(|n| n.to_string()).collect())
}

fn obj(fields: Vec<(&str, Json)>) -> Json {
    Json::Obj(fields.into_iter().map(|(k, v)| (k.to_string(), v)).collect())
}

fn s(v: &str) -> Json {
    Json::Str(v.to_string())
}

#[test]
fn geo_object_is_not_a_node() {
    let geo = obj(vec![
        ("type", s("Point")),
        ("coordinates", Json::Arr(vec![Json::Num("1".to_string()), Json::Num("2".to_string())])),
    ]);
    assert!(!is_node(&geo));
    assert_eq!(count_nquads(&geo), 1);
    let plain = obj(vec![("type", s("House"))]);
    assert!(is_node(&plain));
    assert!(!is_node(&Json::Arr(vec![])));
    assert!(!is_node(&s("Point")));
}

#[test]
fn geo_value_counts_as_one_leaf_and_is_not_recursed() {
    let sel = by_names(&["name"]);
    let line = r#"{"name":"p","geo":{"type":"Point","coordinates":[1,2]}}"#;
    let payload = compile_chunk(&sel, &vec![(0, line.to_string())]).unwrap();
    // one lookup for `name`; the geospatial object gets no identity of its own
    assert_eq!(payload.queries.len(), 1);
    assert_eq!(payload.muts.len(), 1);
    assert_eq!(payload.residuals.len(), 1);
    let root = &payload.residuals[0];
    assert_eq!(root.fields.len(), 1);
    assert_eq!(root.fields[0].0, "geo");
    match &root.fields[0].1 {
        Json::Obj(fs) => {
            // the geo value is carried over unchanged: coordinates + type
            // (parsed objects iterate in sorted key order)
            assert_eq!(fs.len(), 2);
            assert_eq!(fs[0].0, "coordinates");
            assert_eq!(fs[1].0, "type");
        },
        other => panic!("geo value was rewritten: {:?}", other_kind(other)),
    }
    assert_eq!(payload.nquads, 2);
}

fn other_kind(j: &Json) -> &'static str {
    match j {
        Json::Null => "null",
        Json::Bool(_) => "bool",
        Json::Num(_) => "num",
        Json::Str(_) => "str",
        Json::Arr(_) => "arr",
        Json::Obj(_) => "obj",
    }
}

#[test]
fn nested_name_keys_make_two_lookups_and_two_guarded_mutations() {
    let sel = by_names(&["name"]);
    let line = r#"{"name":"Alice","dept":{"name":"Eng"}}"#;
    let payload = compile_chunk(&sel, &vec![(0, line.to_string())]).unwrap();

    assert_eq!(payload.docs, 1);
    assert_eq!(payload.nquads, 2);
    assert_eq!(payload.queries.len(), 2);
    match &payload.queries[0] {
        QueryLine::Lookup { var, key, value } => {
            assert_eq!(*var, VarName { doc: 0, seq: 1 });
            assert_eq!(key, "name");
            match value {
                Json::Str(t) => assert_eq!(t, "Alice"),
                _ => panic!("wrong lookup value"),
            }
        },
        _ => panic!("expected a lookup line"),
    }
    match &payload.queries[1] {
        QueryLine::Lookup { var, key, value } => {
            assert_eq!(*var, VarName { doc: 0, seq: 2 });
            assert_eq!(key, "name");
            match value {
                Json::Str(t) => assert_eq!(t, "Eng"),
                _ => panic!("wrong lookup value"),
            }
        },
        _ => panic!("expected a lookup line"),
    }

    assert_eq!(payload.muts.len(), 2);
    let m0 = &payload.muts[0];
    assert_eq!(m0.guard, VarName { doc: 0, seq: 1 });
    assert_eq!(m0.target, IdentRef::Bound(VarName { doc: 0, seq: 1 }));
    assert_eq!(m0.key, "name");
    let m1 = &payload.muts[1];
    assert_eq!(m1.guard, VarName { doc: 0, seq: 2 });
    assert_eq!(m1.target, IdentRef::Bound(VarName { doc: 0, seq: 2 }));

    // both nodes had only their key field, so the only residual entry is the
    // parent's identity stub for `dept`
    assert_eq!(payload.residuals.len(), 1);
    let root = &payload.residuals[0];
    assert_eq!(root.ident, IdentRef::Bound(VarName { doc: 0, seq: 1 }));
    assert_eq!(root.fields.len(), 1);
    assert_eq!(root.fields[0].0, "dept");
    match &root.fields[0].1 {
        Json::Obj(fs) => {
            assert_eq!(fs.len(), 1);
            assert_eq!(fs[0].0, "uid");
            match &fs[0].1 {
                Json::Str(t) => assert_eq!(t, "uid(v_0_2)"),
                _ => panic!("stub is not a string"),
            }
        },
        _ => panic!("expected an identity stub"),
    }
}

#[test]
fn residual_never_contains_a_matched_key() {
    let sel = by_names(&["email"]);
    let line = r#"{"email":"a@b","age":30}"#;
    let payload = compile_chunk(&sel, &vec![(0, line.to_string())]).unwrap();
    assert_eq!(payload.muts.len(), 1);
    assert_eq!(payload.residuals.len(), 1);
    for (k, _) in &payload.residuals[0].fields {
        assert_ne!(k, "email");
    }
    assert_eq!(payload.residuals[0].fields.len(), 1);
    assert_eq!(payload.residuals[0].fields[0].0, "age");
}

#[test]
fn multiple_keys_make_a_union_identity() {
    let sel = by_names(&["k1", "k2"]);
    let line = r#"{"k1":"a","k2":"b","rest":1}"#;
    let payload = compile_chunk(&sel, &vec![(0, line.to_string())]).unwrap();
    // one lookup per key plus exactly one union line
    assert_eq!(payload.queries.len(), 3);
    match &payload.queries[2] {
        QueryLine::Union { var, members } => {
            assert_eq!(*var, VarName { doc: 0, seq: 3 });
            assert_eq!(
                members.as_slice(),
                &[VarName { doc: 0, seq: 1 }, VarName { doc: 0, seq: 2 }]
            );
        },
        _ => panic!("expected the union line"),
    }
    // the identity is the union variable, not any per-key variable
    let union_ident = IdentRef::Bound(VarName { doc: 0, seq: 3 });
    assert_eq!(payload.residuals[0].ident, union_ident);
    for m in &payload.muts {
        assert_eq!(m.target, union_ident);
    }
    assert_eq!(payload.muts[0].guard, VarName { doc: 0, seq: 1 });
    assert_eq!(payload.muts[1].guard, VarName { doc: 0, seq: 2 });
}

#[test]
fn no_key_matches_means_fresh_identities_and_no_queries() {
    let sel = by_names(&[]);
    let line = r#"{"a":1,"child":{"b":2}}"#;
    let payload = compile_chunk(&sel, &vec![(0, line.to_string())]).unwrap();
    assert_eq!(payload.queries.len(), 0);
    assert_eq!(payload.muts.len(), 0);
    assert_eq!(payload.residuals.len(), 2);
    for r in &payload.residuals {
        assert!(matches!(r.ident, IdentRef::Fresh(_)));
    }
}

#[test]
fn uid_field_is_rejected() {
    let sel = by_names(&["name"]);
    let line = r#"{"uid":"0x1","name":"x"}"#;
    let r = compile_chunk(&sel, &vec![(4, line.to_string())]);
    assert_eq!(r.unwrap_err(), CompileError::UidField { index: 4 });
}

#[test]
fn nested_uid_field_is_rejected() {
    let sel = by_names(&[]);
    let line = r#"{"child":{"uid":"0x1"}}"#;
    let r = compile_chunk(&sel, &vec![(2, line.to_string())]);
    assert_eq!(r.unwrap_err(), CompileError::UidField { index: 2 });
}

#[test]
fn non_object_root_is_rejected() {
    let sel = by_names(&[]);
    let r = compile_chunk(&sel, &vec![(3, "5".to_string())]);
    assert_eq!(r.unwrap_err(), CompileError::NotObject { index: 3 });
}

#[test]
fn malformed_json_is_rejected() {
    let sel = by_names(&[]);
    let r = compile_chunk(&sel, &vec![(0, "{".to_string())]);
    assert_eq!(r.unwrap_err(), CompileError::BadJson { index: 0 });
}

#[test]
fn first_failing_document_wins() {
    let sel = by_names(&[]);
    let chunk = vec![
        (0, r#"{"a":1}"#.to_string()),
        (1, "nonsense".to_string()),
        (2, r#"{"uid":1}"#.to_string()),
    ];
    let r = compile_chunk(&sel, &chunk);
    assert_eq!(r.unwrap_err(), CompileError::BadJson { index: 1 });
}

#[test]
fn node_arrays_are_compiled_item_by_item() {
    let sel = by_names(&[]);
    let line = r#"{"items":[{"x":1},{"y":2}]}"#;
    let payload = compile_chunk(&sel, &vec![(0, line.to_string())]).unwrap();
    // the estimator walks the node array exactly as the compiler does
    assert_eq!(payload.nquads, 2);
    // two children plus the root each leave a residual
    assert_eq!(payload.residuals.len(), 3);
    // the root's items field holds two identity stubs
    let root = &payload.residuals[2];
    match &root.fields[0].1 {
        Json::Arr(items) => {
            assert_eq!(items.len(), 2);
            for it in items {
                match it {
                    Json::Obj(fs) => assert_eq!(fs[0].0, "uid"),
                    _ => panic!("stub expected"),
                }
            }
        },
        _ => panic!("items should stay an array"),
    }
}

#[test]
fn mixed_arrays_stay_opaque() {
    let sel = by_names(&[]);
    let line = r#"{"items":[{"x":1},2]}"#;
    let payload = compile_chunk(&sel, &vec![(0, line.to_string())]).unwrap();
    // nothing inside the mixed array is compiled: only the root residual
    assert_eq!(payload.residuals.len(), 1);
}

#[test]
fn pattern_selector_matches_by_regex() {
    let p = Pattern::new("^name$").unwrap();
    let sel = KeySelector::ByPattern(vec![p]);
    assert!(matches_key(&sel, &"name".to_string()));
    assert!(!matches_key(&sel, &"names".to_string()));
    let line = r#"{"name":"n","names":"m"}"#;
    let payload = compile_chunk(&sel, &vec![(0, line.to_string())]).unwrap();
    assert_eq!(payload.queries.len(), 1);
    assert_eq!(payload.muts.len(), 1);
    assert_eq!(payload.residuals[0].fields.len(), 1);
    assert_eq!(payload.residuals[0].fields[0].0, "names");
}

#[test]
fn bad_pattern_is_refused() {
    assert!(Pattern::new("(").is_none());
}

#[test]
fn leaf_count_excludes_identity_field() {
    let doc = obj(vec![("a", Json::Num("1".to_string())), ("uid", s("x"))]);
    assert_eq!(count_nquads(&doc), 1);
    let doc2 = obj(vec![
        ("a", Json::Num("1".to_string())),
        ("b", Json::Arr(vec![Json::Num("1".to_string()), Json::Num("2".to_string())])),
        ("c", obj(vec![("d", Json::Bool(true)), ("e", Json::Null)])),
    ]);
    // a: 1, b (opaque array): 1, c is a node: d + e = 2
    assert_eq!(count_nquads(&doc2), 4);
}

#[test]
fn document_indices_scope_the_variables() {
    let sel = by_names(&["name"]);
    let chunk = vec![
        (7, r#"{"name":"x"}"#.to_string()),
        (9, r#"{"name":"y"}"#.to_string()),
    ];
    let payload = compile_chunk(&sel, &chunk).unwrap();
    assert_eq!(payload.docs, 2);
    match &payload.queries[0] {
        QueryLine::Lookup { var, .. } => assert_eq!(*var, VarName { doc: 7, seq: 1 }),
        _ => panic!("lookup expected"),
    }
    match &payload.queries[1] {
        QueryLine::Lookup { var, .. } => assert_eq!(*var, VarName { doc: 9, seq: 1 }),
        _ => panic!("lookup expected"),
    }
}

#[test]
fn parsed_values_round_trip_into_residuals() {
    let sel = by_names(&[]);
    let line = r#"{"n":1.5,"t":true,"z":null,"s":"txt","l":[1,"a"]}"#;
    let payload = compile_chunk(&sel, &vec![(0, line.to_string())]).unwrap();
    // parsed objects iterate in sorted key order: l, n, s, t, z
    let fs = &payload.residuals[0].fields;
    assert_eq!(fs.len(), 5);
    assert_eq!(fs[0].0, "l");
    match &fs[0].1 {
        Json::Arr(items) => assert_eq!(items.len(), 2),
        _ => panic!("array expected"),
    }
    assert_eq!(fs[1].0, "n");
    match &fs[1].1 {
        Json::Num(t) => assert_eq!(t, "1.5"),
        _ => panic!("number expected"),
    }
    assert_eq!(fs[2].0, "s");
    match &fs[2].1 {
        Json::Str(t) => assert_eq!(t, "txt"),
        _ => panic!("string expected"),
    }
    assert!(matches!(&fs[3].1, Json::Bool(true)));
    assert!(matches!(&fs[4].1, Json::Null));
}

#[test]
fn nested_name_keys_render_to_two_lookup_lines() {
    let sel = by_names(&["name"]);
    let line = r#"{"name":"Alice","dept":{"name":"Eng"}}"#;
    let payload = compile_chunk(&sel, &vec![(0, line.to_string())]).unwrap();
    let q = render_query(&payload.queries);
    let expected = "{\n\
        v_0_1 as var(func: eq(<name>, \"Alice\"), first: 1)\n\
        v_0_2 as var(func: eq(<name>, \"Eng\"), first: 1)\n\
        }";
    assert_eq!(q, expected);
}

#[test]
fn node_array_leaves_are_counted_through() {
    let doc = obj(vec![(
        "items",
        Json::Arr(vec![
            obj(vec![("x", Json::Num("1".to_string())), ("y", Json::Num("2".to_string()))]),
            obj(vec![("z", Json::Num("3".to_string()))]),
        ]),
    )]);
    assert_eq!(count_nquads(&doc), 3);
    // a mixed array stays a single opaque leaf
    let mixed = obj(vec![(
        "items",
        Json::Arr(vec![
            obj(vec![("x", Json::Num("1".to_string()))]),
            Json::Num("2".to_string()),
        ]),
    )]);
    assert_eq!(count_nquads(&mixed), 1);
}

#[test]
fn mutation_list_rendering() {
    let sel = by_names(&["email"]);
    let line = r#"{"age":30,"email":"a@b"}"#;
    let payload = compile_chunk(&sel, &vec![(0, line.to_string())]).unwrap();
    let wms = render_mutations(&payload);
    // the guarded key mutation, then the one combined set mutation
    assert_eq!(wms.len(), 2);
    assert_eq!(wms[0].set_json, "[{\"uid\":\"uid(v_0_1)\",\"email\":\"a@b\"}]");
    assert_eq!(wms[0].cond.as_deref(), Some("@if(eq(len(v_0_1), 0))"));
    assert_eq!(wms[1].set_json, "[{\"uid\":\"uid(v_0_1)\",\"age\":30}]");
    assert!(wms[1].cond.is_none());
}

#[test]
fn key_only_document_renders_no_set_mutation() {
    let sel = by_names(&["email"]);
    let line = r#"{"email":"x"}"#;
    let payload = compile_chunk(&sel, &vec![(0, line.to_string())]).unwrap();
    let wms = render_mutations(&payload);
    assert_eq!(wms.len(), 1);
    assert!(wms[0].cond.is_some());
}

#[test]
fn keyless_document_renders_one_unconditional_mutation() {
    let sel = by_names(&[]);
    let line = r#"{"a":1}"#;
    let payload = compile_chunk(&sel, &vec![(0, line.to_string())]).unwrap();
    let wms = render_mutations(&payload);
    assert_eq!(wms.len(), 1);
    assert_eq!(wms[0].set_json, "[{\"uid\":\"_:v_0_1\",\"a\":1}]");
    assert!(wms[0].cond.is_none());
}
