use micromegas_lakehouse::audience_guard::{
    distinct_misses, is_readable, owner_query_sql, IdKind, merge_owner_rows, not_found_message, readable_ids, resolve_misses, owners_to_fetch, resolve_owners, resolve_many,
    AudienceGuard, OwnerAudience, ReadScope, ViewInstanceCheck,
};
use micromegas_lakehouse::error::LakehouseError;
use micromegas_lakehouse::ownership_rewrite::{
    canonical_view_instance_id, OwnershipRewrite, ResolvedPredicate, ScanPredicate, ScanTarget,
};

fn scope(auds: &[&str]) -> ReadScope {
    ReadScope::Audiences(auds.iter().map(|a| a.to_string()).collect())
}

fn aud(a: &str) -> OwnerAudience {
    OwnerAudience::Audience(a.to_string())
}

const UUID: &str = "67E55044-10B1-426F-9247-BB680E5FE0C8";
const UUID_LOWER: &str = "67e55044-10b1-426f-9247-bb680e5fe0c8";

#[test]
fn readability_rule() {
    let s = scope(&["team-a", "team-b"]);
    assert!(is_readable(&ReadScope::All, &OwnerAudience::Unknown));
    assert!(is_readable(&s, &aud("team-a")));
    assert!(!is_readable(&s, &aud("team-c")));
    assert!(!is_readable(&s, &OwnerAudience::Unknown));
    assert!(is_readable(&s, &OwnerAudience::Ambiguous(vec![aud("team-a"), aud("team-b")])));
    assert!(!is_readable(&s, &OwnerAudience::Ambiguous(vec![aud("team-a"), aud("team-c")])));
    assert!(!is_readable(&s, &OwnerAudience::Ambiguous(vec![])));
    assert!(!is_readable(&s, &OwnerAudience::Ambiguous(vec![aud("team-a"), OwnerAudience::Unknown])));
    assert!(!is_readable(&scope(&[]), &aud("team-a")));
}

#[test]
fn denial_message_is_uniform() {
    assert_eq!(
        not_found_message("get_payload", "abc"),
        "get_payload: 'abc' not found or not accessible"
    );
}

#[test]
fn guard_decisions() {
    let g = AudienceGuard::new(scope(&["team-a"]), false, vec!["log_stats".to_string()]);
    assert!(g.needs_resolution());
    assert!(g.is_public_view_set("log_stats"));
    assert!(!g.is_public_view_set("log_entries"));
    assert!(g.global_rows_visible("log_stats"));
    assert!(!g.global_rows_visible("log_entries"));
    let admin = AudienceGuard::new(scope(&["team-a"]), true, vec![]);
    assert!(admin.global_rows_visible("log_entries"));
    let all = AudienceGuard::new(ReadScope::All, false, vec![]);
    assert!(!all.needs_resolution());
    assert!(all.global_rows_visible("anything"));
    assert_eq!(all.authorize_owner(5, None, "f", "5").unwrap().id(), 5);

    assert_eq!(g.authorize_owner(7, Some(&aud("team-a")), "f", "7").unwrap().id(), 7);
    assert_eq!(
        g.authorize_owner(7, Some(&aud("team-b")), "f", "7").err(),
        Some("f: '7' not found or not accessible".to_string())
    );
    assert_eq!(
        g.authorize_owner(7, None, "f", "7").err(),
        Some("f: '7' not found or not accessible".to_string())
    );
}

#[test]
fn view_instance_checks() {
    let g = AudienceGuard::new(scope(&["team-a"]), false, vec!["log_stats".to_string()]);
    assert!(matches!(g.check_view_instance("log_stats", "whatever"), ViewInstanceCheck::Allowed));
    assert!(matches!(g.check_view_instance("log_entries", "global"), ViewInstanceCheck::Allowed));
    assert!(matches!(
        g.check_view_instance("log_entries", UUID_LOWER),
        ViewInstanceCheck::Authorize { id: 0x67e5504410b1426f9247bb680e5fe0c8, kind: IdKind::ProcessOrStream }
    ));
    match g.check_view_instance("log_entries", "nope") {
        ViewInstanceCheck::Denied(m) => assert_eq!(m, "view_instance: 'nope' not found or not accessible"),
        _ => panic!("expected a denial"),
    }
    let all = AudienceGuard::new(ReadScope::All, false, vec![]);
    assert!(matches!(all.check_view_instance("log_entries", "nope"), ViewInstanceCheck::Allowed));
    let id = 0x67e5504410b1426f9247bb680e5fe0c8u128;
    assert_eq!(g.view_instance_verdict(id, Some(&OwnerAudience::Audience("team-a".to_string()))), Ok(()));
    let denial = "view_instance: '67e55044-10b1-426f-9247-bb680e5fe0c8' not found or not accessible".to_string();
    assert_eq!(g.view_instance_verdict(id, Some(&OwnerAudience::Audience("team-b".to_string()))), Err(denial.clone()));
    assert_eq!(g.view_instance_verdict(id, None), Err(denial));
    assert_eq!(all.view_instance_verdict(id, None), Ok(()));
}

#[test]
fn batch_resolution_fetches_misses_once() {
    let ids = vec![4u128, 7, 7, 9];
    let cached = vec![Some(OwnerAudience::Audience("t4".to_string())), None, None, None];
    let mut calls = Vec::new();
    let out = resolve_many(&ids, cached, |m: Vec<u128>| {
        calls.push(m.clone());
        Ok::<_, String>(vec![(7u128, Some("t7".to_string()))])
    })
    .unwrap();
    assert_eq!(calls, vec![vec![7u128, 9]]);
    let mut out = out;
    out.sort_by_key(|e| e.0);
    assert!(matches!(&out[1], (7, OwnerAudience::Audience(a), true) if a == "t7"));
    assert!(matches!(out[2], (9, OwnerAudience::Unknown, false)));
    let mut fetched = false;
    let all_hit = resolve_many(&vec![4u128], vec![Some(OwnerAudience::Unknown)], |_m: Vec<u128>| {
        fetched = true;
        Ok::<_, String>(vec![])
    })
    .unwrap();
    assert!(!fetched);
    assert_eq!(all_hit.len(), 1);
    let failed = resolve_many(&vec![1u128], vec![None], |_m: Vec<u128>| Err::<Vec<(u128, Option<String>)>, String>("down".to_string()));
    assert_eq!(failed.err(), Some("down".to_string()));
}

#[test]
fn readable_id_filtering_fails_closed() {
    let s = scope(&["team-a"]);
    let owners = vec![(1u128, aud("team-a")), (2u128, aud("team-b"))];
    assert_eq!(readable_ids(&s, &vec![1, 2, 3, 1], &owners), vec![1, 1]);
    assert_eq!(readable_ids(&ReadScope::All, &vec![1, 2, 3], &owners), vec![1, 2, 3]);
}

#[test]
fn owner_rows_merge_per_id() {
    let rows = vec![
        (1u128, Some("team-a".to_string())),
        (2u128, None),
        (1u128, Some("team-a".to_string())),
        (3u128, Some("team-a".to_string())),
        (3u128, Some("team-b".to_string())),
    ];
    let merged = merge_owner_rows(rows);
    assert_eq!(merged.len(), 3);
    assert_eq!(merged[0].0, 1);
    assert!(matches!(&merged[0].1, OwnerAudience::Audience(a) if a == "team-a"));
    assert_eq!(merged[1].0, 2);
    assert!(matches!(&merged[1].1, OwnerAudience::Unknown));
    assert_eq!(merged[2].0, 3);
    match &merged[2].1 {
        OwnerAudience::Ambiguous(os) => assert_eq!(os.len(), 2),
        _ => panic!("expected an ambiguous owner"),
    }
    let s = scope(&["team-a"]);
    assert!(!is_readable(&s, &merged[2].1));
    assert!(is_readable(&scope(&["team-a", "team-b"]), &merged[2].1));
}

#[test]
fn cache_misses_are_distinct() {
    let misses = distinct_misses(&vec![5, 6, 5, 7, 6], &vec![false, true, false, false, false]);
    assert_eq!(misses, vec![5, 7, 6]);
    assert!(distinct_misses(&vec![1, 2], &vec![true, true]).is_empty());
}

#[test]
fn canonical_instance_ids() {
    assert_eq!(canonical_view_instance_id(UUID), Ok(UUID_LOWER.to_string()));
    assert_eq!(canonical_view_instance_id(UUID_LOWER), Ok(UUID_LOWER.to_string()));
    assert_eq!(canonical_view_instance_id("global"), Err(LakehouseError::InvalidViewInstanceId));
}

fn target(set: &str, instance: &str, audience_field: Option<bool>, pid: bool) -> ScanTarget {
    ScanTarget {
        view_set_name: set.to_string(),
        view_instance_id: instance.to_string(),
        audience_field,
        has_process_id_field: pid,
    }
}

#[test]
fn scan_predicates() {
    let r = OwnershipRewrite::new(scope(&["team-a"]), vec!["log_stats".to_string()], (), ());
    assert!(r.rewrites());
    assert_eq!(r.audiences(), vec!["team-a".to_string()]);
    assert!(matches!(r.resolved_predicate(), ResolvedPredicate::AudienceIn(a) if a == vec!["team-a".to_string()]));
    assert!(matches!(r.predicate_for(&target("log_stats", "global", Some(true), true)), Ok(None)));
    match r.predicate_for(&target("processes", "global", Some(false), false)) {
        Ok(Some(ScanPredicate::AudienceColumnIn { cast_to_utf8, audiences })) => {
            assert!(cast_to_utf8);
            assert_eq!(audiences, vec!["team-a".to_string()]);
        }
        _ => panic!("expected an audience column predicate"),
    }
    assert!(matches!(
        r.predicate_for(&target("log_entries", "global", None, true)),
        Ok(Some(ScanPredicate::ProcessIdReadable))
    ));
    match r.predicate_for(&target("async_events", UUID, None, false)) {
        Ok(Some(ScanPredicate::ProcessReadable(id))) => assert_eq!(id, UUID_LOWER),
        _ => panic!("expected a process predicate"),
    }
    match r.predicate_for(&target("thread_spans", UUID, None, false)) {
        Ok(Some(ScanPredicate::StreamReadable(id))) => assert_eq!(id, UUID_LOWER),
        _ => panic!("expected a stream predicate"),
    }
    assert!(matches!(
        r.predicate_for(&target("async_events", "bad", None, false)),
        Err(LakehouseError::InvalidViewInstanceId)
    ));
    assert!(matches!(
        r.predicate_for(&target("mystery", "global", None, false)),
        Err(LakehouseError::NoAudienceRule)
    ));
}

#[test]
fn no_audience_means_false_everywhere() {
    let r = OwnershipRewrite::new(scope(&[]), vec![], (), ());
    assert!(matches!(r.resolved_predicate(), ResolvedPredicate::Never));
    assert!(matches!(
        r.predicate_for(&target("processes", "global", Some(true), false)),
        Ok(Some(ScanPredicate::Never))
    ));
    let all = OwnershipRewrite::new(ReadScope::All, vec![], (), ());
    assert!(!all.rewrites());
    assert!(all.audiences().is_empty());
}

#[test]
fn owner_queries_per_id_kind() {
    let p = owner_query_sql(IdKind::Process);
    assert!(p.starts_with("SELECT p.process_id AS id, COALESCE(a.value, $3) AS audience"));
    assert!(p.ends_with("WHERE p.process_id = ANY($1::uuid[])"));
    assert!(!p.contains("UNION ALL"));
    let b = owner_query_sql(IdKind::Block);
    assert!(b.starts_with("SELECT b.block_id AS id"));
    assert!(b.contains("JOIN processes p ON p.process_id = b.process_id"));
    let ps = owner_query_sql(IdKind::ProcessOrStream);
    assert!(ps.starts_with(p));
    assert!(ps.contains("\n             UNION ALL\n"));
    assert!(ps.ends_with("WHERE s.stream_id = ANY($1::uuid[])"));
}

#[test]
fn resolved_misses_cache_all_but_unknown() {
    let resolved = vec![
        (7u128, OwnerAudience::Audience("team-a".to_string())),
        (3u128, OwnerAudience::Ambiguous(vec![OwnerAudience::Audience("x".to_string()), OwnerAudience::Audience("y".to_string())])),
        (9u128, OwnerAudience::Unknown),
    ];
    let out = resolve_misses(&vec![3, 5, 7, 9], resolved);
    assert_eq!(out.len(), 4);
    assert_eq!(out[0].0, 3);
    assert!(matches!(&out[0].1, OwnerAudience::Ambiguous(v) if v.len() == 2));
    assert!(out[0].2);
    assert!(matches!(out[1], (5, OwnerAudience::Unknown, false)));
    assert!(matches!(&out[2], (7, OwnerAudience::Audience(a), true) if a == "team-a"));
    assert!(matches!(out[3], (9, OwnerAudience::Unknown, false)));
}

#[test]
fn batch_resolution_keys_every_id_once() {
    let ids = vec![4u128, 7, 4, 9, 7];
    let team = |t: &str| Some(OwnerAudience::Audience(t.to_string()));
    let cached = vec![team("old"), None, team("t4"), None, None];
    assert_eq!(owners_to_fetch(&ids, &cached), vec![7, 9]);
    let rows = vec![(7u128, Some("t7".to_string())), (7u128, Some("t7".to_string()))];
    let mut out = resolve_owners(&ids, cached, rows);
    out.sort_by_key(|e| e.0);
    assert_eq!(out.len(), 3);
    assert!(matches!(&out[0], (4, OwnerAudience::Audience(a), false) if a == "t4"));
    assert!(matches!(&out[1], (7, OwnerAudience::Audience(a), true) if a == "t7"));
    assert!(matches!(out[2], (9, OwnerAudience::Unknown, false)));
    let all_cached = vec![team("a"), team("b")];
    assert!(owners_to_fetch(&vec![1, 2], &all_cached).is_empty());
    let out = resolve_owners(&vec![1, 2], all_cached, vec![]);
    assert_eq!(out.len(), 2);
    assert!(out.iter().all(|e| !e.2));
}
