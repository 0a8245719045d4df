use tsfs::access::DEPTH_LIMIT;
use tsfs::auth::{parse_bearer, TOKEN_LIFETIME_MS};
use tsfs::files::{
    CreateFolderRequest, RevokeShareFileRequest, ShareFileRequest, UnshareStatus,
    UploadFileRequest, UploadStatus,
};
use tsfs::store::ServerStore;
use tsfs::ApiError;

fn register(store: &mut ServerStore, name: &str) {
    store
        .register_finish(
            name.to_string(),
            vec![1, 2, 3],
            format!("{}-pub", name).into_bytes(),
            format!("{}-priv", name).into_bytes(),
        )
        .unwrap();
}

fn upload_req(parent_uid: Option<u128>, filename: &str, content: &[u8]) -> UploadFileRequest {
    UploadFileRequest {
        parent_uid,
        filename: filename.to_string(),
        file: content.to_vec(),
        encrypted_key: vec![9, 9, 9],
    }
}

#[test]
fn register_login_upload_tree_has_one_edge() {
    let mut store = ServerStore::new();
    register(&mut store, "alice");
    let st = store
        .upload_file("alice", upload_req(None, "enc-notes", b"hello"), 77, 1_000)
        .unwrap();
    assert_eq!(st, UploadStatus::Created);

    let tree = store.get_user_tree("alice").unwrap();
    assert_eq!(tree.keys.len(), 1);
    assert_eq!(tree.keys[0].file.id, 77);
    assert_eq!(tree.keys[0].file.name, "enc-notes");
    assert!(tree.keys[0].file.keyring.is_none());

    let file = store.download_file("alice", 77).unwrap();
    assert_eq!(file.data.as_deref(), Some(b"hello".as_slice()));
    assert_eq!(file.sz, 5);
}

#[test]
fn register_conflict_both_rounds() {
    let mut store = ServerStore::new();
    register(&mut store, "alice");
    assert_eq!(store.register_start("alice"), Err(ApiError::Conflict));
    assert!(store.register_start("bob").is_ok());
    let again = store.register_finish(
        "alice".to_string(),
        vec![7],
        vec![8],
        vec![9],
    );
    assert_eq!(again, Err(ApiError::Conflict));
    assert_eq!(store.users.len(), 1);
}

#[test]
fn idempotent_upload_single_row_later_payload() {
    let mut store = ServerStore::new();
    register(&mut store, "alice");
    let st1 = store
        .upload_file("alice", upload_req(None, "enc-a", b"first"), 1, 10)
        .unwrap();
    assert_eq!(st1, UploadStatus::Created);
    let st2 = store
        .upload_file("alice", upload_req(None, "enc-a", b"second"), 2, 20)
        .unwrap();
    assert_eq!(st2, UploadStatus::Updated);

    assert_eq!(store.files.len(), 1);
    assert_eq!(store.keys.len(), 1);
    let file = store.download_file("alice", 1).unwrap();
    assert_eq!(file.data.as_deref(), Some(b"second".as_slice()));
    assert_eq!(file.mtime, 20);
}

#[test]
fn folder_and_nested_upload() {
    let mut store = ServerStore::new();
    register(&mut store, "alice");
    let folder_keyring = store
        .create_folder(
            "alice",
            CreateFolderRequest {
                parent_uid: None,
                filename: "enc-work".to_string(),
                encrypted_key: vec![1],
            },
            100,
            5,
        )
        .unwrap();
    assert_eq!(folder_keyring, 1); // keyring 0 is alice's root

    let st = store
        .upload_file("alice", upload_req(Some(100), "enc-plan", b"q3"), 101, 6)
        .unwrap();
    assert_eq!(st, UploadStatus::Created);

    // the nested file is reachable through the folder
    assert!(store.has_access(0, 101, DEPTH_LIMIT));
    let tree = store.get_user_tree("alice").unwrap();
    assert_eq!(tree.keys.len(), 1);
    let sub = tree.keys[0].file.keyring.as_ref().unwrap();
    assert_eq!(sub.id, 1);
    assert_eq!(sub.keys.len(), 1);
    assert_eq!(sub.keys[0].file.name, "enc-plan");
    assert_eq!(store.download_file("alice", 101).unwrap().data.as_deref(), Some(b"q3".as_slice()));
}

#[test]
fn upload_to_foreign_or_missing_parent_forbidden() {
    let mut store = ServerStore::new();
    register(&mut store, "alice");
    register(&mut store, "bob");
    let alice_folder = CreateFolderRequest {
        parent_uid: None,
        filename: "enc-f".to_string(),
        encrypted_key: vec![1],
    };
    store.create_folder("alice", alice_folder, 50, 1).unwrap();

    // bob has no path to alice's folder
    let r = store.upload_file("bob", upload_req(Some(50), "enc-x", b"x"), 51, 2);
    assert_eq!(r, Err(ApiError::Forbidden));
    // nobody has a path to a folder that does not exist
    let r = store.upload_file("alice", upload_req(Some(999), "enc-x", b"x"), 52, 3);
    assert_eq!(r, Err(ApiError::Forbidden));
}

#[test]
fn share_grants_and_download_authorizes() {
    let mut store = ServerStore::new();
    register(&mut store, "alice");
    register(&mut store, "bob");
    store
        .upload_file("alice", upload_req(None, "enc-secret", b"42"), 7, 1)
        .unwrap();

    // before the share bob is refused
    assert_eq!(store.download_file("bob", 7), Err(ApiError::Forbidden));

    store
        .share_file(
            "alice",
            ShareFileRequest {
                file_uid: 7,
                encrypted_key: vec![4, 2],
                target_user: "bob".to_string(),
            },
        )
        .unwrap();

    // bob's tree now has exactly one root edge to the file
    let tree = store.get_user_tree("bob").unwrap();
    assert_eq!(tree.keys.len(), 1);
    assert_eq!(tree.keys[0].file.id, 7);
    assert_eq!(tree.keys[0].key, vec![4, 2]);
    assert_eq!(store.download_file("bob", 7).unwrap().data.as_deref(), Some(b"42".as_slice()));

    // sharing with an unknown user changes nothing
    let r = store.share_file(
        "alice",
        ShareFileRequest { file_uid: 7, encrypted_key: vec![1], target_user: "eve".to_string() },
    );
    assert_eq!(r, Err(ApiError::NotFound));
}

#[test]
fn unshare_revokes_other_users() {
    let mut store = ServerStore::new();
    register(&mut store, "alice");
    register(&mut store, "bob");
    store
        .upload_file("alice", upload_req(None, "enc-secret", b"42"), 7, 1)
        .unwrap();
    store
        .share_file(
            "alice",
            ShareFileRequest {
                file_uid: 7,
                encrypted_key: vec![4, 2],
                target_user: "bob".to_string(),
            },
        )
        .unwrap();
    assert!(store.download_file("bob", 7).is_ok());

    let st = store
        .unshare_file(
            "alice",
            RevokeShareFileRequest {
                file_uid: 7,
                parent_uid: None,
                encrypted_key: vec![5, 5],
                filename: "enc-secret-2".to_string(),
                file: b"42-reenc".to_vec(),
            },
            9,
        )
        .unwrap();
    assert_eq!(st, UnshareStatus::Done);

    // bob's next download is refused; alice still reads the re-encrypted file
    assert_eq!(store.download_file("bob", 7), Err(ApiError::Forbidden));
    let f = store.download_file("alice", 7).unwrap();
    assert_eq!(f.data.as_deref(), Some(b"42-reenc".as_slice()));
    assert_eq!(f.name, "enc-secret-2");
}

#[test]
fn unshare_of_folder_is_refused_without_change() {
    let mut store = ServerStore::new();
    register(&mut store, "alice");
    store
        .create_folder(
            "alice",
            CreateFolderRequest {
                parent_uid: None,
                filename: "enc-d".to_string(),
                encrypted_key: vec![1],
            },
            30,
            1,
        )
        .unwrap();
    let st = store
        .unshare_file(
            "alice",
            RevokeShareFileRequest {
                file_uid: 30,
                parent_uid: None,
                encrypted_key: vec![2],
                filename: "enc-d2".to_string(),
                file: vec![],
            },
            2,
        )
        .unwrap();
    assert_eq!(st, UnshareStatus::FolderNotSupported);
    assert_eq!(store.files.len(), 1);
    assert_eq!(store.files[0].name, "enc-d");
}

#[test]
fn delete_removes_file_and_edges() {
    let mut store = ServerStore::new();
    register(&mut store, "alice");
    register(&mut store, "bob");
    store
        .upload_file("alice", upload_req(None, "enc-x", b"x"), 8, 1)
        .unwrap();
    store
        .share_file(
            "alice",
            ShareFileRequest { file_uid: 8, encrypted_key: vec![1], target_user: "bob".to_string() },
        )
        .unwrap();
    assert_eq!(store.keys.len(), 2);

    store.delete_file("alice", 8).unwrap();
    assert_eq!(store.files.len(), 0);
    assert_eq!(store.keys.len(), 0);
    assert_eq!(store.download_file("alice", 8), Err(ApiError::Forbidden));
    // deleting it again is refused: no path remains
    assert_eq!(store.delete_file("alice", 8), Err(ApiError::Forbidden));
}

#[test]
fn session_lifecycle_and_expiry() {
    let mut store = ServerStore::new();
    register(&mut store, "alice");
    let token = "AAAABBBBCCCCDDDDEEEE".to_string();
    store.create_session("alice".to_string(), token.clone(), 1_000);

    // a valid token authenticates and echoes the session
    let s = store.authenticate(&token, 2_000).unwrap();
    assert_eq!(s.user, "alice");
    assert_eq!(s.expiration_date, 1_000 + TOKEN_LIFETIME_MS);

    // past the lifetime the same request is refused and the row is gone
    let r = store.authenticate(&token, 1_000 + TOKEN_LIFETIME_MS);
    assert_eq!(r, Err(ApiError::Unauthorized));
    assert_eq!(store.sessions.len(), 0);
    // and it stays refused
    assert_eq!(store.authenticate(&token, 1_000), Err(ApiError::Unauthorized));
}

#[test]
fn revoke_and_revoke_all_except_current() {
    let mut store = ServerStore::new();
    register(&mut store, "alice");
    register(&mut store, "bob");
    store.create_session("alice".to_string(), "alice-token-1-xxxxx".to_string(), 0);
    store.create_session("alice".to_string(), "alice-token-2-yyyyy".to_string(), 0);
    store.create_session("bob".to_string(), "bob-token-1-zzzzzzz".to_string(), 0);

    let infos = store.active_sessions("alice", "alice-token-1-xxxxx", 1);
    assert_eq!(infos.len(), 2);
    // an expired session is not listed
    let infos_late = store.active_sessions("alice", "alice-token-1-xxxxx", TOKEN_LIFETIME_MS);
    assert_eq!(infos_late.len(), 0);
    assert_eq!(infos[0].token_short, "alice-token-1-xx");
    assert_eq!(infos[0].token_short.len(), 16);
    assert!(infos[0].current);
    assert!(!infos[1].current);

    store.revoke_all("alice", "alice-token-1-xxxxx");
    assert_eq!(store.sessions.len(), 2);
    assert!(store.authenticate("alice-token-1-xxxxx", 1).is_ok());
    assert_eq!(store.authenticate("alice-token-2-yyyyy", 1), Err(ApiError::Unauthorized));
    assert!(store.authenticate("bob-token-1-zzzzzzz", 1).is_ok());

    store.revoke("alice-token-1-xxxxx");
    assert_eq!(store.authenticate("alice-token-1-xxxxx", 1), Err(ApiError::Unauthorized));
}

#[test]
fn pubkey_lookup_and_enumeration() {
    let mut store = ServerStore::new();
    register(&mut store, "alice");
    assert_eq!(store.get_user_public_key("alice").unwrap(), b"alice-pub".to_vec());
    assert_eq!(store.get_user_public_key("nobody"), Err(ApiError::NotFound));
}

#[test]
fn password_change_keeps_access() {
    let mut store = ServerStore::new();
    register(&mut store, "alice");
    store
        .upload_file("alice", upload_req(None, "enc-a", b"data"), 3, 1)
        .unwrap();

    store
        .change_password("alice", vec![9, 9], b"new-sealed-priv".to_vec())
        .unwrap();

    // same files reachable, new envelope and sealed key stored
    assert!(store.download_file("alice", 3).is_ok());
    assert_eq!(store.users[0].password_envelope, vec![9, 9]);
    assert_eq!(store.users[0].encrypted_private_key, b"new-sealed-priv".to_vec());
    assert_eq!(store.users[0].public_key, b"alice-pub".to_vec());
}

#[test]
fn depth_limit_stops_traversal() {
    let mut store = ServerStore::new();
    register(&mut store, "alice");
    // a chain of folders one deeper than the limit
    let mut parent: Option<u128> = None;
    for i in 0..(DEPTH_LIMIT + 1) {
        store
            .create_folder(
                "alice",
                CreateFolderRequest {
                    parent_uid: parent,
                    filename: format!("enc-d{}", i),
                    encrypted_key: vec![1],
                },
                1000 + i as u128,
                1,
            )
            .unwrap();
        parent = Some(1000 + i as u128);
    }
    store
        .upload_file("alice", upload_req(parent, "enc-deep", b"deep"), 5000, 2)
        .unwrap();
    // the last file sits past the traversal bound
    assert_eq!(store.download_file("alice", 5000), Err(ApiError::Forbidden));
    // but a folder within the bound is reachable
    assert!(store.download_file("alice", 1000 + DEPTH_LIMIT as u128 - 1).is_ok());
}

#[test]
fn upload_with_fresh_id_creates_under_unused_id() {
    let mut store = ServerStore::new();
    register(&mut store, "alice");
    let (st, id) = store
        .upload_file_with_fresh_id("alice", upload_req(None, "enc-n", b"x"), 5)
        .unwrap();
    assert_eq!(st, UploadStatus::Created);
    let f = store.download_file("alice", id).unwrap();
    assert_eq!(f.data.as_deref(), Some(b"x".as_slice()));

    // a second upload of the same name updates in place, whatever id was drawn
    let (st, id2) = store
        .upload_file_with_fresh_id("alice", upload_req(None, "enc-n", b"y"), 6)
        .unwrap();
    assert_eq!(st, UploadStatus::Updated);
    assert_eq!(id2 != id || store.files.len() == 1, true);
    assert_eq!(store.files.len(), 1);
    assert_eq!(store.download_file("alice", id).unwrap().data.as_deref(), Some(b"y".as_slice()));
}

#[test]
fn empty_file_and_empty_store_edges() {
    let mut store = ServerStore::new();
    // nothing exists in a fresh store
    assert!(store.get_user_tree("alice").is_none());
    assert_eq!(store.authenticate("t", 0), Err(ApiError::Unauthorized));

    register(&mut store, "alice");
    // an empty payload is a valid file
    let st = store.upload_file("alice", upload_req(None, "enc-e", b""), 1, 1).unwrap();
    assert_eq!(st, UploadStatus::Created);
    let f = store.download_file("alice", 1).unwrap();
    assert_eq!(f.data.as_deref(), Some(b"".as_slice()));
    assert_eq!(f.sz, 0);
    // an empty tree decodes to no entries for a fresh user
    register(&mut store, "bob");
    assert_eq!(store.get_user_tree("bob").unwrap().keys.len(), 0);
}

#[test]
fn bearer_header_parsing() {
    assert_eq!(parse_bearer("Bearer abc").as_deref(), Some("abc"));
    assert_eq!(parse_bearer("Bearer ").as_deref(), Some(""));
    assert!(parse_bearer("bearer abc").is_none());
    assert!(parse_bearer("Basic abc").is_none());
    assert!(parse_bearer("Bear").is_none());
}
