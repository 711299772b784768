use cw_graph::contract::ExecuteOutcome;
use cw_graph::error::ContractError;
use cw_graph::msg::{Cyberlink, ExecuteMsg, InstantiateMsg, QueryMsg};
use cw_graph::query::QueryAnswer;
use cw_graph::state::GraphStore;

const NOW: u64 = 1_571_797_419_879_305_533;

fn s(x: &str) -> String {
    x.to_string()
}

fn init(admins: Vec<&str>, executers: Vec<&str>, cores: Vec<&str>, sender: &str) -> GraphStore {
    let msg = InstantiateMsg {
        admins: admins.into_iter().map(s).collect(),
        executers: executers.into_iter().map(s).collect(),
        semantic_cores: cores.into_iter().map(s).collect(),
    };
    let (store, errors) = GraphStore::instantiate(msg, Vec::new(), sender, NOW);
    assert!(errors.is_empty());
    store
}

fn plain(type_: &str, value: Option<&str>) -> Cyberlink {
    Cyberlink {
        type_: s(type_),
        from: None,
        to: None,
        value: value.map(s),
    }
}

#[test]
fn test_instantiate() {
    let store = init(
        vec!["admin"],
        vec!["executor"],
        vec!["chat", "social_example"],
        "admin",
    );
    let config = store.query_config();
    assert_eq!(config.admins, vec![s("admin")]);
    assert_eq!(config.executors, vec![s("executor")]);
}

#[test]
fn test_fids() {
    let mut store = init(vec!["admin"], vec!["test_user"], vec![], "admin");

    store
        .execute_create_named_cyberlink(
            "admin",
            NOW,
            s("Post"),
            plain("Type", None),
        )
        .unwrap();

    let (_, fid) = store
        .execute_create_cyberlink("test_user", NOW, plain("Post", Some("Test post content")))
        .unwrap();
    assert_eq!(fid, "Post:1");

    let state = store
        .query_cyberlink_by_formatted_id(fid.clone())
        .unwrap();
    assert_eq!(state.type_, "Post");
    assert_eq!(state.value, "Test post content");

    let (_, fid2) = store
        .execute_create_cyberlink("test_user", NOW, plain("Post", Some("Second post")))
        .unwrap();
    assert_eq!(fid2, "Post:2");

    store
        .execute_create_named_cyberlink(
            "admin",
            NOW,
            s("Comment"),
            plain("Type", None),
        )
        .unwrap();

    let (_, comment_id) = store
        .execute_create_cyberlink("test_user", NOW, plain("Comment", Some("This is a comment")))
        .unwrap();
    assert_eq!(comment_id, "Comment:1");
}

#[test]
fn test_update_cyberlink() {
    let mut store = init(vec!["admin"], vec!["executor", "user"], vec![], "creator");

    store
        .execute_create_named_cyberlink("admin", NOW, s("Post"), plain("Type", None))
        .unwrap();

    let (_, fid) = store
        .execute_create_cyberlink("user", NOW, plain("Post", Some("Original content")))
        .unwrap();

    store
        .execute_update_cyberlink("user", NOW, fid.clone(), Some(s("Updated content")))
        .unwrap();

    let state = store.query_cyberlink_by_formatted_id(fid.clone()).unwrap();
    assert_eq!(state.type_, "Post");
    assert_eq!(state.value, "Updated content");
    assert!(state.updated_at.is_some(), "Updated timestamp should be set");

    let err = store
        .execute_update_cyberlink("other_user", NOW, fid.clone(), Some(s("Updated content")))
        .unwrap_err();
    assert!(matches!(err, ContractError::Unauthorized {}));

    store
        .execute_update_cyberlink("admin", NOW, fid.clone(), Some(s("Admin updated")))
        .unwrap();

    let state = store.query_cyberlink_by_formatted_id(fid).unwrap();
    assert_eq!(state.value, "Admin updated");
}

#[test]
fn test_delete_cyberlink() {
    let mut store = init(
        vec!["admin"],
        vec!["executor", "user"],
        vec!["chat", "social_example"],
        "creator",
    );

    store
        .execute_create_named_cyberlink("admin", NOW, s("Post"), plain("Type", None))
        .unwrap();

    let (_, fid) = store
        .execute_create_cyberlink("user", NOW, plain("Post", Some("Content to be deleted")))
        .unwrap();

    store.query_cyberlink_by_formatted_id(fid.clone()).unwrap();

    let err = store
        .execute_delete_cyberlink("other_user", fid.clone())
        .unwrap_err();
    assert!(matches!(err, ContractError::Unauthorized {}));

    store
        .execute_update_admins("admin", vec![s("admin"), s("user")])
        .unwrap();

    store.execute_delete_cyberlink("user", fid.clone()).unwrap();

    let err = store
        .query_cyberlink_by_formatted_id(fid.clone())
        .unwrap_err();
    assert!(
        err.text().contains("deleted cyberlink"),
        "Query for deleted cyberlink should fail"
    );

    let (_, fid2) = store
        .execute_create_cyberlink("executor", NOW, plain("Post", Some("Admin will delete this")))
        .unwrap();

    store.execute_delete_cyberlink("admin", fid2.clone()).unwrap();

    let err = store
        .query_cyberlink_by_formatted_id(fid2.clone())
        .unwrap_err();
    assert!(
        err.text().contains("deleted cyberlink"),
        "Query for deleted cyberlink should fail"
    );

    let err = store.query_cyberlink_by_formatted_id(fid2).unwrap_err();
    assert!(
        err.text().contains("not found") || err.text().contains("deleted"),
        "Query by formatted ID should fail for deleted cyberlink"
    );
}

#[test]
fn test_update_type_restriction() {
    let mut store = init(vec!["admin"], vec!["test_user"], vec![], "admin");

    store
        .execute_create_named_cyberlink("admin", NOW, s("Post"), plain("Type", None))
        .unwrap();
    store
        .execute_create_named_cyberlink("admin", NOW, s("Comment"), plain("Type", None))
        .unwrap();

    let (_, fid) = store
        .execute_create_cyberlink("test_user", NOW, plain("Post", Some("Original post content")))
        .unwrap();

    store
        .execute_update_cyberlink("test_user", NOW, fid.clone(), Some(s("Valid update")))
        .unwrap();

    let updated = store.query_cyberlink_by_formatted_id(fid).unwrap();
    assert_eq!(updated.type_, "Post");
    assert_eq!(updated.value, "Valid update");
}

#[test]
fn test_delete_keeps_fids() {
    let mut store = init(vec!["admin"], vec!["test_user"], vec![], "admin");

    store
        .execute_create_named_cyberlink("admin", NOW, s("Post"), plain("Type", None))
        .unwrap();

    let (_, fid) = store
        .execute_create_cyberlink("test_user", NOW, plain("Post", Some("Post to be deleted")))
        .unwrap();

    store.execute_delete_cyberlink("admin", fid.clone()).unwrap();

    let err = store
        .query_cyberlink_by_formatted_id(fid.clone())
        .unwrap_err();
    assert!(err.text().contains("deleted cyberlink"));

    let err = store
        .query_cyberlink_by_formatted_id(fid.clone())
        .unwrap_err();
    assert!(err.text().contains("not found") || err.text().contains("deleted"));

    let state = store.query_state();
    assert!(
        state.named_cyberlinks.iter().any(|(name, _)| *name == fid),
        "Formatted ID entry should still exist in storage"
    );
}

#[test]
fn test_update_and_query_by_fid() {
    let mut store = init(vec!["admin"], vec!["user"], vec![], "admin");

    store
        .execute_create_named_cyberlink("admin", NOW, s("Article"), plain("Type", None))
        .unwrap();

    let initial_content = s("Initial article content");
    let (_, fid) = store
        .execute_create_cyberlink(
            "user",
            NOW,
            plain("Article", Some("Initial article content")),
        )
        .unwrap();
    assert_eq!(fid, "Article:1");

    let initial_state = store.query_cyberlink_by_formatted_id(fid.clone()).unwrap();
    assert_eq!(initial_state.type_, "Article");
    assert_eq!(initial_state.value, initial_content);
    assert_eq!(initial_state.owner, "user");
    assert!(
        initial_state.updated_at.is_none(),
        "updated_at should be None initially"
    );

    let updated_content = s("Updated article content");
    let update_time = NOW + 100 * 1_000_000_000;
    store
        .execute_update_cyberlink("user", update_time, fid.clone(), Some(updated_content.clone()))
        .unwrap();

    let updated_state = store.query_cyberlink_by_formatted_id(fid.clone()).unwrap();
    assert_eq!(updated_state.type_, "Article");
    assert_eq!(updated_state.from, s("Any"));
    assert_eq!(updated_state.to, s("Any"));
    assert_eq!(updated_state.value, updated_content);
    assert_eq!(updated_state.owner, "user");
    assert!(
        updated_state.updated_at.is_some(),
        "updated_at should be Some after update"
    );
    assert_eq!(
        updated_state.updated_at.unwrap(),
        update_time,
        "updated_at timestamp should match update time"
    );
    assert_eq!(updated_state.created_at, NOW, "created_at should not change");

    store.execute_delete_cyberlink("admin", fid.clone()).unwrap();

    let err = store.query_cyberlink_by_formatted_id(fid).unwrap_err();
    assert!(
        err.text().contains("not found") || err.text().contains("deleted"),
        "Query by formatted ID should fail for deleted cyberlink"
    );
}

#[test]
fn test_execute_dispatch() {
    let mut store = init(vec!["admin"], vec!["executor"], vec![], "admin");

    let out = store
        .execute(
            "admin",
            NOW,
            ExecuteMsg::CreateNamedCyberlink {
                name: s("Post"),
                cyberlink: plain("Type", None),
            },
        )
        .unwrap();
    assert!(matches!(out, ExecuteOutcome::Created { gid: 3, .. }));

    let out = store
        .execute(
            "executor",
            NOW,
            ExecuteMsg::CreateCyberlink {
                cyberlink: plain("Post", Some("hello")),
            },
        )
        .unwrap();
    match out {
        ExecuteOutcome::Created { gid, fid } => {
            assert_eq!(gid, 4);
            assert_eq!(fid, "Post:1");
        }
        _ => panic!("unexpected outcome"),
    }

    let answer = store
        .query(NOW, QueryMsg::CyberlinkByFID { fid: s("Post:1") })
        .unwrap();
    match answer {
        QueryAnswer::Link(state) => assert_eq!(state.value, "hello"),
        _ => panic!("unexpected answer"),
    }

    let answer = store.query(NOW, QueryMsg::LastGID {}).unwrap();
    assert!(matches!(answer, QueryAnswer::LastGID(4)));
}
