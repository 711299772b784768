use cw_graph::error::ContractError;
use cw_graph::msg::{Cyberlink, InstantiateMsg};
use cw_graph::semcores::SemanticCore;
use cw_graph::state::GraphStore;

const NOW: u64 = 1_571_797_419_879_305_533;

fn s(x: &str) -> String {
    x.to_string()
}

fn init(admins: Vec<&str>, executers: Vec<&str>, sender: &str) -> GraphStore {
    let msg = InstantiateMsg {
        admins: admins.into_iter().map(s).collect(),
        executers: executers.into_iter().map(s).collect(),
        semantic_cores: Vec::new(),
    };
    let (store, errors) = GraphStore::instantiate(msg, Vec::new(), sender, NOW);
    assert!(errors.is_empty());
    store
}

fn plain(type_: &str, value: Option<&str>) -> Cyberlink {
    Cyberlink {
        type_: s(type_),
        from: None,
        to: None,
        value: value.map(s),
    }
}

fn edge(type_: &str, from: &str, to: &str, value: Option<&str>) -> Cyberlink {
    Cyberlink {
        type_: s(type_),
        from: Some(s(from)),
        to: Some(s(to)),
        value: value.map(s),
    }
}

#[test]
fn ids_strictly_increase_without_gaps() {
    let mut store = init(vec!["admin"], vec!["user"], "admin");
    store
        .execute_create_named_cyberlink("admin", NOW, s("Note"), plain("Type", None))
        .unwrap();
    let base = store.query_last_gid();
    let mut previous = base;
    for i in 0..20u64 {
        let (gid, _) = store
            .execute_create_cyberlink("user", NOW, plain("Note", Some("n")))
            .unwrap();
        assert_eq!(gid, base + i + 1, "ids are exactly the next integers");
        assert!(gid > previous);
        previous = gid;
    }
}

#[test]
fn formatted_ids_stable_across_deletions() {
    let mut store = init(vec!["admin"], vec!["user"], "admin");
    store
        .execute_create_named_cyberlink("admin", NOW, s("Post"), plain("Type", None))
        .unwrap();
    store
        .execute_create_named_cyberlink("admin", NOW, s("Comment"), plain("Type", None))
        .unwrap();

    let (_, p1) = store
        .execute_create_cyberlink("user", NOW, plain("Post", Some("a")))
        .unwrap();
    let (_, c1) = store
        .execute_create_cyberlink("user", NOW, plain("Comment", Some("b")))
        .unwrap();
    assert_eq!(p1, "Post:1");
    assert_eq!(c1, "Comment:1");

    // deleting a Comment never disturbs the Post sequence
    store.execute_delete_cyberlink("user", c1).unwrap();
    let (_, p2) = store
        .execute_create_cyberlink("user", NOW, plain("Post", Some("c")))
        .unwrap();
    assert_eq!(p2, "Post:2");
    let (_, c2) = store
        .execute_create_cyberlink("user", NOW, plain("Comment", Some("d")))
        .unwrap();
    assert_eq!(c2, "Comment:2", "a deleted id is never reused");
}

#[test]
fn tombstones_are_permanent() {
    let mut store = init(vec!["admin"], vec!["user"], "admin");
    store
        .execute_create_named_cyberlink("admin", NOW, s("Post"), plain("Type", None))
        .unwrap();
    let (gid, fid) = store
        .execute_create_cyberlink("user", NOW, plain("Post", Some("gone soon")))
        .unwrap();

    store.execute_delete_cyberlink("user", fid.clone()).unwrap();

    // the formatted id keeps answering "deleted", never "unknown"
    let err = store
        .query_cyberlink_by_formatted_id(fid.clone())
        .unwrap_err();
    assert!(matches!(err, ContractError::DeletedCyberlink { .. }));
    let err = store.query_cyberlink_by_gid(gid).unwrap_err();
    assert!(matches!(err, ContractError::DeletedCyberlink { .. }));

    // a second deletion is refused
    let err = store
        .execute_delete_cyberlink("user", fid.clone())
        .unwrap_err();
    assert!(matches!(err, ContractError::DeletedCyberlink { .. }));

    // an auto-generated id carries the separator, so it can never come back
    // as a caller-supplied name
    let err = store
        .execute_create_named_cyberlink("admin", NOW, fid.clone(), plain("Type", None))
        .unwrap_err();
    assert!(matches!(err, ContractError::InvalidNameFormat { .. }));

    // a deleted caller-supplied name can never be assigned again either
    let (_, temp) = store
        .execute_create_named_cyberlink("admin", NOW, s("Temp"), plain("Type", None))
        .unwrap();
    store.execute_delete_cyberlink("admin", temp.clone()).unwrap();
    let err = store
        .execute_create_named_cyberlink("admin", NOW, temp, plain("Type", None))
        .unwrap_err();
    assert!(matches!(err, ContractError::NameTaken { .. }));

    // later activity never resurrects it
    store
        .execute_create_cyberlink("user", NOW, plain("Post", Some("later")))
        .unwrap();
    let err = store.query_cyberlink_by_formatted_id(fid).unwrap_err();
    assert!(matches!(err, ContractError::DeletedCyberlink { .. }));
}

#[test]
fn constraint_violation_is_a_type_conflict() {
    let mut store = init(vec!["admin"], vec!["user"], "admin");
    store
        .execute_create_named_cyberlink("admin", NOW, s("Account"), plain("Type", None))
        .unwrap();
    store
        .execute_create_named_cyberlink("admin", NOW, s("Post"), plain("Type", None))
        .unwrap();
    store
        .execute_create_named_cyberlink(
            "admin",
            NOW,
            s("Follow"),
            edge("Type", "Account", "Account", None),
        )
        .unwrap();

    let (_, account1) = store
        .execute_create_cyberlink("user", NOW, plain("Account", None))
        .unwrap();
    let (_, account2) = store
        .execute_create_cyberlink("user", NOW, plain("Account", None))
        .unwrap();
    let (_, post1) = store
        .execute_create_cyberlink("user", NOW, plain("Post", None))
        .unwrap();

    // a Follow whose `from` is a Post breaks the Account constraint
    let err = store
        .execute_create_cyberlink("user", NOW, edge("Follow", &post1, &account2, None))
        .unwrap_err();
    match err {
        ContractError::TypeConflict {
            expected_from,
            received_from,
            ..
        } => {
            assert_eq!(expected_from, "Account");
            assert_eq!(received_from, "Post");
        }
        other => panic!("expected a type conflict, got {:?}", other),
    }

    // a Follow between Accounts is admitted
    store
        .execute_create_cyberlink("user", NOW, edge("Follow", &account1, &account2, None))
        .unwrap();
}

#[test]
fn counters_match_live_links_after_every_operation() {
    let mut store = init(vec!["admin"], vec!["alice", "bob"], "admin");
    store
        .execute_create_named_cyberlink("admin", NOW, s("Post"), plain("Type", None))
        .unwrap();
    store
        .execute_create_named_cyberlink("admin", NOW, s("Note"), plain("Type", None))
        .unwrap();

    let mut fids: Vec<String> = Vec::new();
    for (who, ty) in [
        ("alice", "Post"),
        ("alice", "Note"),
        ("bob", "Post"),
        ("alice", "Post"),
        ("bob", "Note"),
    ] {
        let (_, fid) = store
            .execute_create_cyberlink(who, NOW, plain(ty, Some("x")))
            .unwrap();
        fids.push(fid);
        recount(&store);
    }
    for fid in [fids[0].clone(), fids[4].clone(), fids[2].clone()] {
        store.execute_delete_cyberlink("admin", fid).unwrap();
        recount(&store);
    }
}

fn recount(store: &GraphStore) {
    let state = store.query_state();
    for who in ["alice", "bob", "admin", "nobody"] {
        let expected = state
            .cyberlinks
            .iter()
            .filter(|(_, l)| l.owner == who)
            .count() as u64;
        let counts = store.query_get_counts(Some(s(who)), None);
        let got = counts.owner_count.unwrap_or(0);
        assert_eq!(got, expected, "owner counter of {} drifted", who);
    }
    for ty in ["Post", "Note", "Type"] {
        let expected = state
            .cyberlinks
            .iter()
            .filter(|(_, l)| l.type_ == ty)
            .count() as u64;
        let counts = store.query_get_counts(None, Some(s(ty)));
        assert_eq!(counts.type_count.unwrap_or(0), expected);
    }
    for who in ["alice", "bob"] {
        for ty in ["Post", "Note"] {
            let expected = state
                .cyberlinks
                .iter()
                .filter(|(_, l)| l.owner == who && l.type_ == ty)
                .count() as u64;
            let counts = store.query_get_counts(Some(s(who)), Some(s(ty)));
            assert_eq!(counts.owner_type_count.unwrap_or(0), expected);
        }
    }
}

#[test]
fn indices_agree_with_primary_records() {
    let mut store = init(vec!["admin"], vec!["alice", "bob"], "admin");
    store
        .execute_create_named_cyberlink("admin", NOW, s("Post"), plain("Type", None))
        .unwrap();
    let (g1, f1) = store
        .execute_create_cyberlink("alice", NOW, plain("Post", Some("a")))
        .unwrap();
    let (g2, _) = store
        .execute_create_cyberlink("alice", NOW, plain("Post", Some("b")))
        .unwrap();
    let (g3, _) = store
        .execute_create_cyberlink("bob", NOW, plain("Post", Some("c")))
        .unwrap();

    let alice_scan = store.query_cyberlinks_by_owner(s("alice"), None, None);
    assert_eq!(
        alice_scan.iter().filter(|(g, _)| *g == g1).count(),
        1,
        "a live link appears in its owner's index exactly once"
    );
    assert_eq!(alice_scan.iter().filter(|(g, _)| *g == g2).count(), 1);
    assert_eq!(alice_scan.iter().filter(|(g, _)| *g == g3).count(), 0);

    let post_scan = store.query_cyberlinks_by_type(s("Post"), None, None);
    assert_eq!(post_scan.iter().filter(|(g, _)| *g == g1).count(), 1);

    store.execute_delete_cyberlink("alice", f1).unwrap();
    let alice_scan = store.query_cyberlinks_by_owner(s("alice"), None, None);
    assert_eq!(
        alice_scan.iter().filter(|(g, _)| *g == g1).count(),
        0,
        "a deleted link leaves every index"
    );
    let post_scan = store.query_cyberlinks_by_type(s("Post"), None, None);
    assert_eq!(post_scan.iter().filter(|(g, _)| *g == g1).count(), 0);
}

#[test]
fn pagination_with_limit_one_reproduces_the_scan() {
    let mut store = init(vec!["admin"], vec!["alice"], "admin");
    store
        .execute_create_named_cyberlink("admin", NOW, s("Post"), plain("Type", None))
        .unwrap();
    for i in 0..7 {
        store
            .execute_create_cyberlink("alice", NOW, plain("Post", Some(&format!("p{}", i))))
            .unwrap();
    }

    let unbounded = store.query_cyberlinks_by_owner(s("alice"), None, Some(100));
    let mut chained: Vec<(u64, String)> = Vec::new();
    let mut cursor: Option<u64> = None;
    loop {
        let page = store.query_cyberlinks_by_owner(s("alice"), cursor, Some(1));
        if page.is_empty() {
            break;
        }
        assert_eq!(page.len(), 1);
        cursor = Some(page[0].0);
        chained.push((page[0].0, page[0].1.value.clone()));
    }
    assert_eq!(chained.len(), unbounded.len());
    for (got, want) in chained.iter().zip(unbounded.iter()) {
        assert_eq!(got.0, want.0);
        assert_eq!(got.1, want.1.value);
    }
}

#[test]
fn bootstrap_scenario() {
    let mut store = init(vec!["admin"], vec!["executor"], "admin");

    // the bootstrap links exist with ids 1 and 2
    let type_link = store.query_cyberlink_by_gid(1).unwrap();
    assert_eq!(type_link.type_, "Type");
    assert_eq!(type_link.from, "Any");
    assert_eq!(type_link.to, "Any");
    let any_link = store.query_cyberlink_by_gid(2).unwrap();
    assert_eq!(any_link.type_, "Type");
    assert_eq!(any_link.from, "Null");
    assert_eq!(any_link.to, "Null");

    let (post_gid, post_fid) = store
        .execute_create_named_cyberlink("admin", NOW, s("Post"), plain("Type", None))
        .unwrap();
    assert_eq!(post_gid, 3);
    assert_eq!(post_fid, "Post");

    let (gid, fid) = store
        .execute_create_cyberlink("executor", NOW, plain("Post", Some("hello")))
        .unwrap();
    assert_eq!(gid, 4);
    assert_eq!(fid, "Post:1");

    let state = store.query_cyberlink_by_formatted_id(s("Post:1")).unwrap();
    assert_eq!(state.value, "hello");
    assert_eq!(state.owner, "executor");
    assert_eq!(state.updated_at, None);

    let later = NOW + 5;
    store
        .execute_update_cyberlink("executor", later, s("Post:1"), Some(s("hi")))
        .unwrap();
    let state = store.query_cyberlink_by_formatted_id(s("Post:1")).unwrap();
    assert_eq!(state.value, "hi");
    assert_eq!(state.updated_at, Some(later));

    store
        .execute_delete_cyberlink("executor", s("Post:1"))
        .unwrap();
    let err = store.query_cyberlink_by_formatted_id(s("Post:1")).unwrap_err();
    assert!(matches!(err, ContractError::DeletedCyberlink { .. }));
    let counts = store.query_get_counts(Some(s("executor")), None);
    assert_eq!(counts.owner_count, None, "the executor owns nothing again");
}

#[test]
fn every_error_variant_has_its_trigger() {
    let mut store = init(vec!["admin"], vec!["user"], "admin");
    store
        .execute_create_named_cyberlink("admin", NOW, s("Post"), plain("Type", None))
        .unwrap();

    // exactly one endpoint given
    let one_sided = Cyberlink {
        type_: s("Post"),
        from: Some(s("Any")),
        to: None,
        value: None,
    };
    let err = store
        .execute_create_cyberlink("user", NOW, one_sided)
        .unwrap_err();
    assert!(matches!(err, ContractError::InvalidCyberlink { .. }));
    assert!(err.text().contains("invalid cyberlink"));

    // unknown type
    let err = store
        .execute_create_cyberlink("user", NOW, plain("Ghost", None))
        .unwrap_err();
    assert!(matches!(err, ContractError::TypeNotExists { type_ } if type_ == "Ghost"));

    // unknown endpoints
    let err = store
        .execute_create_cyberlink("user", NOW, edge("Post", "Missing:1", "Any", None))
        .unwrap_err();
    assert!(matches!(err, ContractError::FromNotExists { from } if from == "Missing:1"));
    let err = store
        .execute_create_cyberlink("user", NOW, edge("Post", "Any", "Missing:2", None))
        .unwrap_err();
    assert!(matches!(err, ContractError::ToNotExists { to } if to == "Missing:2"));

    // a name with the reserved separator
    let err = store
        .execute_create_named_cyberlink("admin", NOW, s("Bad:Name"), plain("Type", None))
        .unwrap_err();
    assert!(matches!(err, ContractError::InvalidNameFormat { name } if name == "Bad:Name"));

    // a name that is already mapped
    let err = store
        .execute_create_named_cyberlink("admin", NOW, s("Post"), plain("Type", None))
        .unwrap_err();
    assert!(matches!(err, ContractError::NameTaken { name } if name == "Post"));

    // missing capability
    let err = store
        .execute_create_cyberlink("stranger", NOW, plain("Post", None))
        .unwrap_err();
    assert!(matches!(err, ContractError::Unauthorized {}));
    let err = store
        .execute_create_named_cyberlink("user", NOW, s("Another"), plain("Type", None))
        .unwrap_err();
    assert!(matches!(err, ContractError::Unauthorized {}));

    // unknown formatted id
    let err = store
        .execute_update_cyberlink("user", NOW, s("Nope:1"), None)
        .unwrap_err();
    assert!(matches!(err, ContractError::NotFound { fid } if fid == "Nope:1"));
    assert!(store
        .query_cyberlink_by_formatted_id(s("Nope:1"))
        .unwrap_err()
        .text()
        .contains("not found"));

    // an id that was soft-deleted
    let (_, fid) = store
        .execute_create_cyberlink("user", NOW, plain("Post", Some("z")))
        .unwrap();
    store.execute_delete_cyberlink("user", fid.clone()).unwrap();
    let err = store
        .execute_update_cyberlink("user", NOW, fid, None)
        .unwrap_err();
    assert!(matches!(err, ContractError::DeletedCyberlink { .. }));

    // a numeric id that never existed
    let err = store.query_cyberlink_by_gid(999).unwrap_err();
    assert!(matches!(err, ContractError::NotFound { fid } if fid == "999"));
}

#[test]
fn semantic_core_names_resolve_case_insensitively() {
    assert!(matches!(
        SemanticCore::from_str("social"),
        Some(SemanticCore::Social)
    ));
    assert!(matches!(
        SemanticCore::from_str("Social"),
        Some(SemanticCore::Social)
    ));
    assert!(matches!(
        SemanticCore::from_str("CHAT"),
        Some(SemanticCore::Chat)
    ));
    assert!(matches!(
        SemanticCore::from_str("project"),
        Some(SemanticCore::Project)
    ));
    assert!(matches!(
        SemanticCore::from_str("deep"),
        Some(SemanticCore::Deep)
    ));
    assert!(matches!(
        SemanticCore::from_str("chatgpt"),
        Some(SemanticCore::ChatGPT)
    ));
    assert!(SemanticCore::from_str("social_example").is_none());
    assert!(SemanticCore::from_str("lens").is_none());
}

#[test]
fn batch_creation_reports_failures_per_item() {
    let mut store = init(vec!["admin"], vec!["user"], "admin");
    store
        .execute_create_named_cyberlink("admin", NOW, s("Post"), plain("Type", None))
        .unwrap();

    let batch = vec![
        plain("Post", Some("first")),
        plain("Ghost", Some("breaks")),
        plain("Post", Some("second")),
    ];
    let results = store.execute_create_cyberlinks("user", NOW, batch).unwrap();
    assert_eq!(results.len(), 3);
    let first = results[0].as_ref().unwrap();
    assert_eq!(first.1, "Post:1");
    assert!(
        matches!(results[1].as_ref().unwrap_err(), ContractError::TypeNotExists { type_ } if type_ == "Ghost")
    );
    let third = results[2].as_ref().unwrap();
    assert_eq!(third.1, "Post:2");
    assert!(first.0 < third.0);

    let err = store
        .execute_create_cyberlinks("stranger", NOW, vec![plain("Post", None)])
        .unwrap_err();
    assert!(matches!(err, ContractError::Unauthorized {}));
}
