use cw_graph::error::ContractError;
use cw_graph::msg::{Cyberlink, InstantiateMsg};
use cw_graph::state::GraphStore;

const NOW: u64 = 1_571_797_419_879_305_533;

fn s(x: &str) -> String {
    x.to_string()
}

fn init(admins: Vec<&str>, executers: Vec<&str>, cores: Vec<&str>, sender: &str) -> GraphStore {
    let msg = InstantiateMsg {
        admins: admins.into_iter().map(s).collect(),
        executers: executers.into_iter().map(s).collect(),
        semantic_cores: cores.into_iter().map(s).collect(),
    };
    let (store, errors) = GraphStore::instantiate(msg, Vec::new(), sender, NOW);
    assert!(errors.is_empty());
    store
}

fn plain(type_: &str, value: Option<&str>) -> Cyberlink {
    Cyberlink {
        type_: s(type_),
        from: None,
        to: None,
        value: value.map(s),
    }
}

fn edge(type_: &str, from: &str, to: &str, value: Option<&str>) -> Cyberlink {
    Cyberlink {
        type_: s(type_),
        from: Some(s(from)),
        to: Some(s(to)),
        value: value.map(s),
    }
}

#[test]
fn test_query_cyberlinks_by_owner_time() {
    let mut store = init(
        vec!["admin"],
        vec!["executor", "test_user"],
        vec!["chat", "social_example"],
        "creator",
    );

    let time1 = NOW;
    let time2 = NOW + 100_000_000;
    let time3 = NOW + 200_000_000;
    let time4 = NOW + 300_000_000;

    let (first_gid, fid) = store
        .execute_create_cyberlink(
            "test_user",
            time1,
            edge("Type", "Any", "Any", Some("First cyberlink")),
        )
        .unwrap();
    store
        .execute_create_cyberlink(
            "test_user",
            time2,
            edge("Type", "Any", "Any", Some("Second cyberlink")),
        )
        .unwrap();
    store
        .execute_create_cyberlink(
            "test_user",
            time3,
            edge("Type", "Any", "Any", Some("Third cyberlink")),
        )
        .unwrap();

    store
        .execute_update_cyberlink(
            "test_user",
            time4,
            fid.clone(),
            Some(s("Updated first cyberlink")),
        )
        .unwrap();

    let links = store.query_cyberlinks_by_owner(s("test_user"), None, None);
    assert_eq!(links.len(), 3, "Should return all 3 cyberlinks");

    let links =
        store.query_cyberlinks_by_owner_time(s("test_user"), time1, Some(time2), time1, None, None);
    assert_eq!(
        links.len(),
        2,
        "Should return 2 cyberlinks created between time1 and time2"
    );

    let links =
        store.query_cyberlinks_by_owner_time(s("test_user"), time2, Some(time3), time2, None, None);
    assert_eq!(
        links.len(),
        2,
        "Should return 2 cyberlinks created between time2 and time3"
    );

    let links =
        store.query_cyberlinks_by_owner_time(s("test_user"), time1, Some(time4), time1, None, None);
    assert_eq!(
        links.len(),
        3,
        "Should return all 3 cyberlinks created between time1 and time4"
    );

    let links =
        store.query_cyberlinks_by_owner_time(s("test_user"), time3, Some(time4), time3, None, None);
    assert_eq!(
        links.len(),
        1,
        "Should return 1 cyberlink created between time3 and time4"
    );

    let links = store.query_cyberlinks_by_owner_time_any(
        s("test_user"),
        time3,
        Some(time4),
        time3,
        None,
        None,
    );
    assert_eq!(
        links.len(),
        2,
        "Should return 2 cyberlinks (created or updated) between time3 and time4"
    );
    assert!(
        links.iter().any(|(id, _)| *id == first_gid),
        "Should include the updated cyberlink"
    );

    let links = store.query_cyberlinks_by_owner_time(
        s("test_user"),
        time1,
        Some(time4),
        time1,
        None,
        Some(2),
    );
    assert_eq!(
        links.len(),
        2,
        "Should return only 2 cyberlinks due to pagination limit"
    );

    let start_after = links[0].0;
    let links = store.query_cyberlinks_by_owner_time(
        s("test_user"),
        time1,
        Some(time4),
        time1,
        Some(start_after),
        None,
    );
    assert_eq!(
        links.len(),
        2,
        "Should return 2 cyberlinks after the start_after ID"
    );
}

#[test]
fn test_query_cyberlinks_by_owner_time_any() {
    let mut store = init(
        vec!["admin"],
        vec!["executor", "test_user"],
        vec!["chat", "social_example"],
        "creator",
    );

    let time1 = NOW;
    let time2 = NOW + 100_000_000;
    let time3 = NOW + 200_000_000;
    let time4 = NOW + 300_000_000;

    let (first_gid, fid) = store
        .execute_create_cyberlink(
            "test_user",
            time1,
            edge("Type", "Any", "Any", Some("First cyberlink")),
        )
        .unwrap();
    store
        .execute_create_cyberlink(
            "test_user",
            time2,
            edge("Type", "Any", "Any", Some("Second cyberlink")),
        )
        .unwrap();
    store
        .execute_update_cyberlink(
            "test_user",
            time3,
            fid.clone(),
            Some(s("Updated first cyberlink")),
        )
        .unwrap();
    store
        .execute_create_cyberlink(
            "test_user",
            time4,
            edge("Type", "Any", "Any", Some("Third cyberlink")),
        )
        .unwrap();

    let links =
        store.query_cyberlinks_by_owner_time(s("test_user"), time1, Some(time2), time1, None, None);
    assert_eq!(
        links.len(),
        2,
        "Should return 2 cyberlinks created between time1 and time2"
    );

    let links = store.query_cyberlinks_by_owner_time_any(
        s("test_user"),
        time1,
        Some(time2),
        time1,
        None,
        None,
    );
    assert_eq!(
        links.len(),
        2,
        "Should return 2 cyberlinks created or updated between time1 and time2"
    );

    let links =
        store.query_cyberlinks_by_owner_time(s("test_user"), time3, Some(time4), time3, None, None);
    assert_eq!(
        links.len(),
        1,
        "Should return 1 cyberlink created between time3 and time4"
    );

    let links = store.query_cyberlinks_by_owner_time_any(
        s("test_user"),
        time3,
        Some(time4),
        time3,
        None,
        None,
    );
    assert_eq!(
        links.len(),
        2,
        "Should return 2 cyberlinks created or updated between time3 and time4"
    );
    assert!(
        links.iter().any(|(id, _)| *id == first_gid),
        "Should include the updated first cyberlink"
    );
    assert!(
        links.iter().any(|(_, d)| d.value == "Third cyberlink"),
        "Should include the third cyberlink"
    );

    let links = store.query_cyberlinks_by_owner_time_any(
        s("test_user"),
        time1,
        Some(time4),
        time1,
        None,
        Some(2),
    );
    assert_eq!(
        links.len(),
        2,
        "Should return only 2 cyberlinks due to pagination limit"
    );

    let start_after = links[0].0;
    let links = store.query_cyberlinks_by_owner_time_any(
        s("test_user"),
        time1,
        Some(time4),
        time1,
        Some(start_after),
        None,
    );
    assert!(
        links.len() > 0,
        "Should return cyberlinks after the start_after ID"
    );
}

#[test]
fn test_query_get_counts() {
    let mut store = init(vec!["admin"], vec!["user1", "user2"], vec![], "admin");

    store
        .execute_create_named_cyberlink("admin", NOW, s("Post"), plain("Type", None))
        .unwrap();
    store
        .execute_create_named_cyberlink("admin", NOW, s("Comment"), plain("Type", None))
        .unwrap();

    let (_, post1_user1_id) = store
        .execute_create_cyberlink("user1", NOW, plain("Post", Some("User1 Post 1")))
        .unwrap();
    store
        .execute_create_cyberlink("user1", NOW, plain("Post", Some("User1 Post 2")))
        .unwrap();
    store
        .execute_create_cyberlink("user1", NOW, plain("Comment", Some("User1 Comment 1")))
        .unwrap();
    store
        .execute_create_cyberlink("user2", NOW, plain("Post", Some("User2 Post 1")))
        .unwrap();

    let counts = store.query_get_counts(Some(s("user1")), None);
    assert_eq!(counts.owner_count, Some(3));
    assert_eq!(counts.type_count, None);
    assert_eq!(counts.owner_type_count, None);

    let counts = store.query_get_counts(None, Some(s("Post")));
    assert_eq!(counts.owner_count, None);
    assert_eq!(counts.type_count, Some(3));
    assert_eq!(counts.owner_type_count, None);

    let counts = store.query_get_counts(Some(s("user1")), Some(s("Post")));
    assert_eq!(counts.owner_count, Some(3));
    assert_eq!(counts.type_count, Some(3));
    assert_eq!(counts.owner_type_count, Some(2));

    let counts = store.query_get_counts(Some(s("user1")), Some(s("Comment")));
    assert_eq!(counts.owner_count, Some(3));
    assert_eq!(counts.type_count, Some(1));
    assert_eq!(counts.owner_type_count, Some(1));

    let counts = store.query_get_counts(Some(s("user2")), Some(s("Post")));
    assert_eq!(counts.owner_count, Some(1));
    assert_eq!(counts.type_count, Some(3));
    assert_eq!(counts.owner_type_count, Some(1));

    let counts = store.query_get_counts(None, None);
    assert_eq!(counts.owner_count, None);
    assert_eq!(counts.type_count, None);
    assert_eq!(counts.owner_type_count, None);

    store
        .execute_delete_cyberlink("user1", post1_user1_id)
        .unwrap();

    let counts = store.query_get_counts(Some(s("user1")), None);
    assert_eq!(counts.owner_count, Some(2));

    let counts = store.query_get_counts(None, Some(s("Post")));
    assert_eq!(counts.type_count, Some(2));

    let counts = store.query_get_counts(Some(s("user1")), Some(s("Post")));
    assert_eq!(counts.owner_count, Some(2));
    assert_eq!(counts.type_count, Some(2));
    assert_eq!(counts.owner_type_count, Some(1));
}

#[test]
fn test_various_queries() {
    let mut store = init(vec!["admin"], vec!["user1", "user2"], vec![], "admin");

    store
        .execute_create_named_cyberlink("admin", NOW, s("Profile"), plain("Type", None))
        .unwrap();
    store
        .execute_create_named_cyberlink(
            "admin",
            NOW,
            s("Follow"),
            edge("Type", "Profile", "Profile", None),
        )
        .unwrap();
    store
        .execute_create_named_cyberlink("admin", NOW, s("Post"), plain("Type", None))
        .unwrap();

    let (_profile1_gid, profile1_fid) = store
        .execute_create_cyberlink("user1", NOW, plain("Profile", Some("User1 Profile")))
        .unwrap();
    let (_profile2_gid, profile2_fid) = store
        .execute_create_cyberlink("user2", NOW, plain("Profile", Some("User2 Profile")))
        .unwrap();

    let (_follow1_gid, follow1_fid) = store
        .execute_create_cyberlink(
            "user1",
            NOW,
            edge("Follow", &profile1_fid, &profile2_fid, None),
        )
        .unwrap();

    let (post1_gid, post1_fid) = store
        .execute_create_cyberlink("user1", NOW, plain("Post", Some("User1 Post 1")))
        .unwrap();
    let (post2_gid, post2_fid) = store
        .execute_create_cyberlink("user2", NOW, plain("Post", Some("User2 Post 1")))
        .unwrap();

    // pagination over the primary order
    let links = store.query_cyberlinks_by_gids(None, Some(3));
    assert_eq!(links.len(), 3);
    assert_eq!(links[0].0, 1);
    assert_eq!(links[1].0, 2);
    assert_eq!(links[2].0, 3);

    let links = store.query_cyberlinks_by_gids(Some(links[2].0), Some(10));
    assert_eq!(links.len(), 7);
    assert_eq!(links[0].0, 4);
    assert_eq!(links[0].1.fid, Some(s("Follow")));
    assert_eq!(links[1].0, 5);
    assert_eq!(links[1].1.fid, Some(s("Post")));
    assert_eq!(links[2].0, 6);
    assert_eq!(links[2].1.fid, Some(profile1_fid.clone()));
    assert_eq!(links[3].0, 7);
    assert_eq!(links[3].1.fid, Some(profile2_fid.clone()));
    assert_eq!(links[4].0, 8);
    assert_eq!(links[4].1.fid, Some(follow1_fid.clone()));
    assert_eq!(links[5].0, 9);
    assert_eq!(links[5].1.fid, Some(post1_fid.clone()));
    assert_eq!(links[6].0, 10);
    assert_eq!(links[6].1.fid, Some(post2_fid.clone()));

    // set lookup by numeric id, skipping the unknown member
    let actual_profile1_gid = 6;
    let actual_post2_gid = 10;
    let links =
        store.query_cyberlinks_set_by_gids(vec![actual_profile1_gid, actual_post2_gid, 999]);
    assert_eq!(links.len(), 2);
    assert!(links.iter().any(|(id, _)| *id == actual_profile1_gid));
    assert!(links.iter().any(|(id, _)| *id == actual_post2_gid));

    // pagination over the formatted-id order
    let mut all_fids_full = vec![
        profile1_fid.clone(),
        profile2_fid.clone(),
        follow1_fid.clone(),
        post1_fid.clone(),
        post2_fid.clone(),
        s("Type"),
        s("Any"),
        s("Profile"),
        s("Follow"),
        s("Post"),
    ];
    all_fids_full.sort();

    let links = store.query_cyberlinks_by_ids(None, Some(3));
    assert_eq!(links.len(), 3);
    assert_eq!(links[0].0, all_fids_full[0]);
    assert_eq!(links[1].0, all_fids_full[1]);
    assert_eq!(links[2].0, all_fids_full[2]);

    let links = store.query_cyberlinks_by_ids(Some(links[2].0.clone()), Some(10));
    assert_eq!(links.len(), 7);
    assert_eq!(links[0].0, all_fids_full[3]);
    assert_eq!(links[1].0, all_fids_full[4]);
    assert_eq!(links[2].0, all_fids_full[5]);
    assert_eq!(links[3].0, all_fids_full[6]);
    assert_eq!(links[4].0, all_fids_full[7]);
    assert_eq!(links[5].0, all_fids_full[8]);
    assert_eq!(links[6].0, all_fids_full[9]);

    // set lookup by formatted id, skipping the unknown member
    let links = store.query_cyberlinks_set_by_ids(vec![
        profile1_fid.clone(),
        post2_fid.clone(),
        s("NonExistent:1"),
    ]);
    assert_eq!(links.len(), 2);
    assert!(links.iter().any(|(id, _)| *id == profile1_fid));
    assert!(links.iter().any(|(id, _)| *id == post2_fid));

    // by type
    let links = store.query_cyberlinks_by_type(s("Profile"), None, None);
    assert_eq!(links.len(), 2);
    assert!(links.iter().all(|(_, state)| state.type_ == "Profile"));

    let links = store.query_cyberlinks_by_type(s("Post"), Some(post1_gid), Some(1));
    assert_eq!(links.len(), 1);
    assert_eq!(links[0].0, post2_gid);
    assert_eq!(links[0].1.type_, "Post");

    // by from
    let links = store.query_cyberlinks_by_from(profile1_fid.clone(), None, None);
    assert_eq!(links.len(), 1);
    assert_eq!(links[0].0, 8);
    assert_eq!(links[0].1.from, profile1_fid);

    // by to
    let links = store.query_cyberlinks_by_to(profile2_fid.clone(), None, None);
    assert_eq!(links.len(), 1);
    assert_eq!(links[0].0, 8);
    assert_eq!(links[0].1.to, profile2_fid);

    // by owner and type
    let links = store.query_cyberlinks_by_owner_and_type(s("user1"), s("Profile"), None, None);
    assert_eq!(links.len(), 1);
    assert_eq!(links[0].0, 6);
    assert_eq!(links[0].1.owner, "user1");
    assert_eq!(links[0].1.type_, "Profile");

    let links = store.query_cyberlinks_by_owner_and_type(s("user1"), s("Post"), None, None);
    assert_eq!(links.len(), 1);
    assert_eq!(links[0].0, 9);
    assert_eq!(links[0].1.owner, "user1");
    assert_eq!(links[0].1.type_, "Post");

    // set queries skip deleted members
    store
        .execute_delete_cyberlink("user1", post1_fid.clone())
        .unwrap();

    let links = store.query_cyberlinks_set_by_gids(vec![post1_gid, post2_gid]);
    assert_eq!(links.len(), 1);
    assert_eq!(links[0].0, post2_gid);

    let links = store.query_cyberlinks_set_by_ids(vec![post1_fid.clone(), post2_fid.clone()]);
    assert_eq!(links.len(), 1);
    assert_eq!(links[0].0, post2_fid);

}

#[test]
fn test_create_cyberlink2() {
    let mut store = init(vec!["admin"], vec!["user"], vec![], "admin");

    store
        .execute_create_named_cyberlink("admin", NOW, s("Thread"), plain("Type", None))
        .unwrap();
    store
        .execute_create_named_cyberlink("admin", NOW, s("Message"), plain("Type", None))
        .unwrap();
    store
        .execute_create_named_cyberlink(
            "admin",
            NOW,
            s("Replies"),
            edge("Type", "Message", "Thread", None),
        )
        .unwrap();

    let (_, existing_thread_id) = store
        .execute_create_cyberlink("user", NOW, plain("Thread", Some("Main Thread")))
        .unwrap();
    assert_eq!(existing_thread_id, "Thread:1");

    // create a Message and link it to the existing Thread
    let ((_, node_fid), (_, link_fid)) = store
        .execute_create_cyberlink2(
            "user",
            NOW,
            s("Message"),
            Some(s("First message")),
            s("Replies"),
            None,
            None,
            Some(existing_thread_id.clone()),
        )
        .unwrap();
    assert_eq!(node_fid, "Message:1");
    assert_eq!(link_fid, "Replies:1");

    let node_state = store
        .query_cyberlink_by_formatted_id(node_fid.clone())
        .unwrap();
    assert_eq!(node_state.type_, "Message");
    assert_eq!(node_state.value, "First message");
    assert_eq!(node_state.owner, "user");

    let link_state = store
        .query_cyberlink_by_formatted_id(link_fid.clone())
        .unwrap();
    assert_eq!(link_state.type_, "Replies");
    assert_eq!(link_state.from, node_fid);
    assert_eq!(link_state.to, existing_thread_id);
    assert_eq!(link_state.owner, "user");

    // neither endpoint given
    let err = store
        .execute_create_cyberlink2(
            "user",
            NOW,
            s("Message"),
            Some(s("Invalid msg")),
            s("Replies"),
            None,
            None,
            None,
        )
        .unwrap_err();
    assert!(matches!(err, ContractError::InvalidLinkSpecification {}));

    // both endpoints given
    let err = store
        .execute_create_cyberlink2(
            "user",
            NOW,
            s("Message"),
            Some(s("Invalid msg")),
            s("Replies"),
            None,
            Some(existing_thread_id.clone()),
            Some(existing_thread_id.clone()),
        )
        .unwrap_err();
    assert!(matches!(err, ContractError::InvalidLinkSpecification {}));

    // unknown link type
    let err = store
        .execute_create_cyberlink2(
            "user",
            NOW,
            s("Message"),
            Some(s("Another message")),
            s("InvalidLinkType"),
            None,
            None,
            Some(existing_thread_id.clone()),
        )
        .unwrap_err();
    assert!(matches!(err, ContractError::TypeNotExists { type_ } if type_ == "InvalidLinkType"));

    // unknown target
    let err = store
        .execute_create_cyberlink2(
            "user",
            NOW,
            s("Message"),
            Some(s("Another message")),
            s("Replies"),
            None,
            None,
            Some(s("Thread:999")),
        )
        .unwrap_err();
    assert!(matches!(err, ContractError::ToNotExists { to } if to == "Thread:999"));

    // type conflict: Replies expects Message -> Thread
    let err = store
        .execute_create_cyberlink2(
            "user",
            NOW,
            s("Thread"),
            Some(s("Nested Thread?")),
            s("Replies"),
            None,
            None,
            Some(existing_thread_id.clone()),
        )
        .unwrap_err();
    assert!(matches!(err, ContractError::TypeConflict { .. }));

    // link from an existing node to the new one
    store
        .execute_create_named_cyberlink(
            "admin",
            NOW,
            s("IsBasedOn"),
            edge("Type", "Message", "Message", None),
        )
        .unwrap();

    let ((_, node_fid_2), (_, link_fid_2)) = store
        .execute_create_cyberlink2(
            "user",
            NOW,
            s("Message"),
            Some(s("Follow-up message")),
            s("IsBasedOn"),
            None,
            Some(s("Message:1")),
            None,
        )
        .unwrap();
    assert_eq!(node_fid_2, "Message:2");
    assert_eq!(link_fid_2, "IsBasedOn:1");

    let link_state = store
        .query_cyberlink_by_formatted_id(link_fid_2.clone())
        .unwrap();
    assert_eq!(link_state.type_, "IsBasedOn");
    assert_eq!(link_state.from, "Message:1");
    assert_eq!(link_state.to, node_fid_2);

    // a sender with no execute capability is refused outright
    let err = store
        .execute_create_cyberlink2(
            "stranger",
            NOW,
            s("Message"),
            None,
            s("Replies"),
            None,
            None,
            Some(existing_thread_id.clone()),
        )
        .unwrap_err();
    assert!(matches!(err, ContractError::Unauthorized {}));

    // a tombstoned node type no longer counts as existing
    store.execute_delete_cyberlink("admin", s("Thread")).unwrap();
    let err = store
        .execute_create_cyberlink2(
            "user",
            NOW,
            s("Thread"),
            None,
            s("Replies"),
            None,
            None,
            Some(existing_thread_id.clone()),
        )
        .unwrap_err();
    assert!(matches!(err, ContractError::TypeNotExists { type_ } if type_ == "Thread"));
}
