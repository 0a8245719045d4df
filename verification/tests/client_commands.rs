use tsfs::client::{
    CdArgs, CdCommand, ClientError, Config, LogoutCommand, LsCommand, SetArgs, SetCommand,
    TSFSContext,
};
use tsfs::tree::{FileWithoutDataWithKeyring, KeyWithFile, KeyringWithKeysAndFiles};

fn entry(id: u128, name: &str, sub: Option<KeyringWithKeysAndFiles>) -> KeyWithFile {
    KeyWithFile {
        file: FileWithoutDataWithKeyring { id, name: name.to_string(), keyring: sub },
        key: vec![0; 32],
        keyring_id: 0,
    }
}

fn sample_tree() -> KeyringWithKeysAndFiles {
    // root: notes.txt, work/ { plan.txt }
    let work = KeyringWithKeysAndFiles {
        id: 1,
        keys: vec![entry(101, "plan.txt", None)],
    };
    KeyringWithKeysAndFiles {
        id: 0,
        keys: vec![entry(42, "notes.txt", None), entry(100, "work", Some(work))],
    }
}

fn logged_in_ctx() -> TSFSContext {
    TSFSContext {
        endpoint_url: Some("https://localhost".to_string()),
        endpoint_port: 8935,
        username: Some("alice".to_string()),
        session_token: Some("token".to_string()),
        private_key: Some(vec![1]),
        public_key: Some(vec![2]),
        accept_invalid_cert: false,
        keyring_tree: Some(sample_tree()),
        current_folder: Vec::new(),
        last_keyring_update: 0,
        local_folder: Some("/tmp".to_string()),
    }
}

#[test]
fn config_default_values() {
    let c = Config::default();
    assert!(c.endpoint_url.is_none());
    assert_eq!(c.endpoint_port, 8935);
    assert!(!c.accept_invalid_cert);
    assert!(c.local_folder.is_none());
}

#[test]
fn cd_into_folder_and_back() {
    let mut ctx = logged_in_ctx();
    assert_eq!(ctx.get_path().unwrap(), "/");

    CdCommand::apply(&CdArgs { folder: "work".to_string() }, &mut ctx).unwrap();
    assert_eq!(ctx.current_folder, vec![100]);
    assert_eq!(ctx.get_path().unwrap(), "/work/");

    let r = CdCommand::apply(&CdArgs { folder: "nothing".to_string() }, &mut ctx);
    assert_eq!(r, Err(ClientError::NotFound));

    CdCommand::apply(&CdArgs { folder: "..".to_string() }, &mut ctx).unwrap();
    assert_eq!(ctx.current_folder, Vec::<u128>::new());

    let r = CdCommand::apply(&CdArgs { folder: "..".to_string() }, &mut ctx);
    assert_eq!(r, Err(ClientError::AlreadyAtRoot));

    let r = CdCommand::apply(&CdArgs { folder: "notes.txt".to_string() }, &mut ctx);
    assert_eq!(r, Err(ClientError::NotAFolder));
}

#[test]
fn cd_requires_login() {
    let mut ctx = logged_in_ctx();
    ctx.keyring_tree = None;
    let r = CdCommand::apply(&CdArgs { folder: "work".to_string() }, &mut ctx);
    assert_eq!(r, Err(ClientError::NotLoggedIn));
}

#[test]
fn ls_lists_current_level() {
    let mut ctx = logged_in_ctx();
    let entries = LsCommand::entries(&ctx).unwrap();
    assert_eq!(entries.len(), 2);
    assert_eq!(entries[0].0, "notes.txt");
    assert!(!entries[0].1);
    assert_eq!(entries[1].0, "work");
    assert!(entries[1].1);

    CdCommand::apply(&CdArgs { folder: "work".to_string() }, &mut ctx).unwrap();
    let entries = LsCommand::entries(&ctx).unwrap();
    assert_eq!(entries.len(), 1);
    assert_eq!(entries[0].0, "plan.txt");
}

#[test]
fn tree_lookup_by_id_and_name() {
    let tree = sample_tree();
    // depth-first search finds the nested file
    assert_eq!(tree.get_file(101).unwrap().file.name, "plan.txt");
    assert_eq!(tree.get_file(42).unwrap().file.name, "notes.txt");
    assert!(tree.get_file(999).is_none());
    // name search stays at one level
    assert!(tree.get_file_by_name("plan.txt").is_none());
    assert_eq!(tree.get_file_by_name("work").unwrap().file.id, 100);
}

#[test]
fn logout_forgets_secrets_and_keeps_endpoint() {
    let mut ctx = logged_in_ctx();
    LogoutCommand::apply(&mut ctx).unwrap();
    assert!(ctx.session_token.is_none());
    assert!(ctx.username.is_none());
    assert!(ctx.private_key.is_none());
    assert!(ctx.public_key.is_none());
    assert!(ctx.keyring_tree.is_none());
    assert_eq!(ctx.endpoint_url.as_deref(), Some("https://localhost"));

    let r = LogoutCommand::apply(&mut ctx);
    assert_eq!(r, Err(ClientError::NotLoggedIn));
}

#[test]
fn set_respects_login_state() {
    let mut ctx = logged_in_ctx();
    SetCommand::apply(
        SetArgs {
            endpoint_url: Some("https://other".to_string()),
            port: Some(1),
            accept_invalid_cert: Some(true),
        },
        &mut ctx,
    );
    // endpoint and port stay while logged in; the certificate flag moves
    assert_eq!(ctx.endpoint_url.as_deref(), Some("https://localhost"));
    assert_eq!(ctx.endpoint_port, 8935);
    assert!(ctx.accept_invalid_cert);

    LogoutCommand::apply(&mut ctx).unwrap();
    SetCommand::apply(
        SetArgs {
            endpoint_url: Some("https://other".to_string()),
            port: Some(1),
            accept_invalid_cert: None,
        },
        &mut ctx,
    );
    assert_eq!(ctx.endpoint_url.as_deref(), Some("https://other"));
    assert_eq!(ctx.endpoint_port, 1);
    assert!(ctx.accept_invalid_cert);
}
