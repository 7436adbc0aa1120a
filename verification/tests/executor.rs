use upsert_loader::txn::{
    CommitOutcome, TxnStep, next_step, ChunkStats, RunTotals, fold_all, GRPC_ABORTED,
    GRPC_RESOURCE_EXHAUSTED,
};
use upsert_loader::render::{render_var, render_ref, render_cond, u64_string};
use upsert_loader::vars::{VarName, IdentRef};
use upsert_loader::json::Json;
use upsert_loader::render::json_to_text;
use upsert_loader::compile::QueryLine;
use upsert_loader::query_text::render_query;

#[test]
fn commit_success_ends_the_attempt_loop() {
    assert_eq!(next_step(&CommitOutcome::Committed), TxnStep::Done);
}

#[test]
fn conflict_and_overload_are_retried_with_bounded_backoff() {
    for code in [GRPC_ABORTED, GRPC_RESOURCE_EXHAUSTED] {
        match next_step(&CommitOutcome::GrpcStatus { code }) {
            TxnStep::Retry { backoff_ms } => {
                assert!((500..1500).contains(&backoff_ms));
            },
            other => panic!("expected a retry, got {:?}", other),
        }
    }
}

#[test]
fn other_failures_are_fatal() {
    assert_eq!(next_step(&CommitOutcome::GrpcStatus { code: 3 }), TxnStep::Fail);
    assert_eq!(next_step(&CommitOutcome::GrpcStatus { code: 0 }), TxnStep::Fail);
    assert_eq!(next_step(&CommitOutcome::OtherError), TxnStep::Fail);
}

#[test]
fn totals_fold_exactly() {
    let reports = vec![
        ChunkStats { docs: 2, nquads: 5, aborted: 1 },
        ChunkStats { docs: 3, nquads: 7, aborted: 0 },
        ChunkStats { docs: 1, nquads: 1, aborted: 4 },
    ];
    let t = fold_all(&reports);
    assert_eq!(t, RunTotals { txns: 3, docs: 6, nquads: 13, aborts: 5 });
}

#[test]
fn totals_do_not_depend_on_completion_order() {
    let a = ChunkStats { docs: 2, nquads: 5, aborted: 1 };
    let b = ChunkStats { docs: 3, nquads: 7, aborted: 0 };
    let c = ChunkStats { docs: 1, nquads: 1, aborted: 4 };
    let t1 = fold_all(&vec![a, b, c]);
    let t2 = fold_all(&vec![c, a, b]);
    assert_eq!(t1, t2);
}

#[test]
fn incremental_fold_matches_batch_fold() {
    let a = ChunkStats { docs: 10, nquads: 20, aborted: 0 };
    let b = ChunkStats { docs: 1, nquads: 2, aborted: 3 };
    let mut t = RunTotals::new();
    t.fold_chunk(&a);
    t.fold_chunk(&b);
    assert_eq!(t, fold_all(&vec![a, b]));
}

#[test]
fn decimal_rendering_is_exact() {
    assert_eq!(u64_string(0), "0");
    assert_eq!(u64_string(7), "7");
    assert_eq!(u64_string(10), "10");
    assert_eq!(u64_string(1234567890), "1234567890");
    assert_eq!(u64_string(u64::MAX), "18446744073709551615");
}

#[test]
fn variable_and_reference_rendering() {
    let v = VarName { doc: 3, seq: 12 };
    assert_eq!(render_var(&v), "v_3_12");
    assert_eq!(render_ref(&IdentRef::Bound(v)), "uid(v_3_12)");
    assert_eq!(render_ref(&IdentRef::Fresh(v)), "_:v_3_12");
    assert_eq!(render_cond(&v), "@if(eq(len(v_3_12), 0))");
}

#[test]
fn json_text_rendering_is_compact_and_escaped() {
    let v = Json::Obj(vec![
        ("a".to_string(), Json::Num("1.5".to_string())),
        ("b".to_string(), Json::Arr(vec![Json::Null, Json::Bool(true)])),
        ("c".to_string(), Json::Str("say \"hi\"\\\n".to_string())),
    ]);
    assert_eq!(
        json_to_text(&v),
        "{\"a\":1.5,\"b\":[null,true],\"c\":\"say \\\"hi\\\"\\\\\\u000a\"}"
    );
}

#[test]
fn query_block_rendering() {
    let lines = vec![
        QueryLine::Lookup {
            var: VarName { doc: 0, seq: 1 },
            key: "name".to_string(),
            value: Json::Str("Alice".to_string()),
        },
        QueryLine::Lookup {
            var: VarName { doc: 0, seq: 2 },
            key: "email".to_string(),
            value: Json::Str("a@b".to_string()),
        },
        QueryLine::Union {
            var: VarName { doc: 0, seq: 3 },
            members: vec![VarName { doc: 0, seq: 1 }, VarName { doc: 0, seq: 2 }],
        },
    ];
    let expected = "{\n\
        v_0_1 as var(func: eq(<name>, \"Alice\"), first: 1)\n\
        v_0_2 as var(func: eq(<email>, \"a@b\"), first: 1)\n\
        v_0_3 as var(func: uid(v_0_1,v_0_2), first: 1)\n\
        }";
    assert_eq!(render_query(&lines), expected);
}

#[test]
fn empty_query_block_rendering() {
    assert_eq!(render_query(&vec![]), "{\n}");
}
