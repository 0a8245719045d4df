use tsfs::client::{
    generate_user_keypair, prepare_mkdir, prepare_share, prepare_unshare, prepare_upload,
    prepare_upload_with_fresh_key, recover_private_key, seal_private_key,
};
use tsfs::crypto::{
    b64_decode, b64_encode, chacha_decrypt, chacha_encrypt, generate_aead_key, rsa_decrypt,
    rsa_encrypt, rsa_generate_keypair, CryptoError,
};
use tsfs::files::ShareFileRequest;
use tsfs::store::ServerStore;
use tsfs::tree::KeyringWithKeysAndFiles;
use tsfs::ApiError;

const RSA_BITS: usize = 1024;

#[test]
fn aead_seal_open_round_trip() {
    let key = generate_aead_key();
    assert_eq!(key.len(), 32);
    let ct = chacha_encrypt(b"hello world", &key).unwrap();
    // 12-byte nonce + payload + 16-byte tag
    assert_eq!(ct.len(), 11 + 28);
    assert_ne!(&ct[12..12 + 11], b"hello world");
    assert_eq!(chacha_decrypt(&ct, &key).unwrap(), b"hello world".to_vec());

    let other = generate_aead_key();
    assert_eq!(chacha_decrypt(&ct, &other), Err(CryptoError::KeyMismatch));
    // a corrupted ciphertext fails authentication
    let mut bad = ct.clone();
    bad[20] ^= 1;
    assert_eq!(chacha_decrypt(&bad, &key), Err(CryptoError::KeyMismatch));
}

#[test]
fn base64_exact_values() {
    assert_eq!(b64_encode(b"hello"), "aGVsbG8=");
    assert_eq!(b64_decode("aGVsbG8=").unwrap(), b"hello".to_vec());
    assert_eq!(b64_encode(b""), "");
    assert!(b64_decode("!!!not base64!!!").is_err());
}

#[test]
fn rsa_wrap_unwrap_round_trip() {
    let (pub_der, priv_der) = rsa_generate_keypair(RSA_BITS).unwrap();
    let key = generate_aead_key();
    let wrapped = rsa_encrypt(&key, &pub_der).unwrap();
    assert_ne!(wrapped, key);
    assert_eq!(rsa_decrypt(&wrapped, &priv_der).unwrap(), key);

    let (_, other_priv) = rsa_generate_keypair(RSA_BITS).unwrap();
    assert_eq!(rsa_decrypt(&wrapped, &other_priv), Err(CryptoError::KeyMismatch));
}

#[test]
fn private_key_seal_and_recover() {
    let export_key = vec![7u8; 64];
    let sealed = seal_private_key(&export_key, b"the private key").unwrap();
    assert_eq!(recover_private_key(&export_key, &sealed).unwrap(), b"the private key".to_vec());

    // a different password derives a different export key: login aborts
    let wrong = vec![8u8; 64];
    assert_eq!(recover_private_key(&wrong, &sealed), Err(CryptoError::KeyMismatch));
}

#[test]
fn upload_download_round_trip_at_root() {
    // register: keypair sealed under the export key
    let export_key = vec![3u8; 64];
    let (pub_der, sealed_priv) = generate_user_keypair(&export_key, RSA_BITS).unwrap();
    let mut store = ServerStore::new();
    store
        .register_finish("alice".to_string(), vec![1], pub_der.clone(), sealed_priv.clone())
        .unwrap();

    // login: recover the private key
    let priv_der = recover_private_key(&export_key, &sealed_priv).unwrap();

    // upload `notes.txt` with b"hello" at the root
    let file_key = generate_aead_key();
    let req = prepare_upload("notes.txt", b"hello", &file_key, &pub_der, true, None).unwrap();
    store.upload_file("alice", req, 42, 1_000).unwrap();

    // the tree has exactly one root edge and decrypts to one entry
    let enc_tree = store.get_user_tree("alice").unwrap();
    assert_eq!(enc_tree.keys.len(), 1);
    let tree = KeyringWithKeysAndFiles::from_encrypted(enc_tree, &priv_der, true).unwrap();
    assert_eq!(tree.keys.len(), 1);
    assert_eq!(tree.keys[0].file.name, "notes.txt");
    let entry_key = tree.keys[0].key.clone();
    assert_eq!(entry_key, file_key);

    // download and decrypt: exactly the uploaded bytes
    let mut file = store.download_file("alice", 42).unwrap();
    file.decrypt(&entry_key).unwrap();
    assert_eq!(file.name, "notes.txt");
    assert_eq!(file.data.as_deref(), Some(b"hello".as_slice()));
}

#[test]
fn folder_and_nested_upload_round_trip() {
    let export_key = vec![4u8; 64];
    let (pub_der, sealed_priv) = generate_user_keypair(&export_key, RSA_BITS).unwrap();
    let mut store = ServerStore::new();
    store
        .register_finish("alice".to_string(), vec![1], pub_der.clone(), sealed_priv.clone())
        .unwrap();
    let priv_der = recover_private_key(&export_key, &sealed_priv).unwrap();

    // mkdir("work") at the root
    let folder_key = generate_aead_key();
    let mreq = prepare_mkdir("work", &folder_key, &pub_der, true, None).unwrap();
    store.create_folder("alice", mreq, 100, 1).unwrap();

    // cd work; upload("plan.txt", b"q3"): key wrapped under the folder key
    let file_key = generate_aead_key();
    let ureq = prepare_upload("plan.txt", b"q3", &file_key, &folder_key, false, Some(100)).unwrap();
    store.upload_file("alice", ureq, 101, 2).unwrap();

    // fresh login: decrypt the whole tree and find work/plan.txt
    let tree = KeyringWithKeysAndFiles::from_encrypted(
        store.get_user_tree("alice").unwrap(),
        &priv_der,
        true,
    )
    .unwrap();
    assert_eq!(tree.keys.len(), 1);
    assert_eq!(tree.keys[0].file.name, "work");
    let sub = tree.keys[0].file.keyring.as_ref().unwrap();
    assert_eq!(sub.keys.len(), 1);
    assert_eq!(sub.keys[0].file.name, "plan.txt");

    let mut file = store.download_file("alice", 101).unwrap();
    file.decrypt(&sub.keys[0].key).unwrap();
    assert_eq!(file.data.as_deref(), Some(b"q3".as_slice()));
}

#[test]
fn share_then_read_and_unshare_revokes() {
    // two users with their own keypairs
    let ek_a = vec![5u8; 64];
    let ek_b = vec![6u8; 64];
    let (pub_a, sealed_a) = generate_user_keypair(&ek_a, RSA_BITS).unwrap();
    let (pub_b, sealed_b) = generate_user_keypair(&ek_b, RSA_BITS).unwrap();
    let mut store = ServerStore::new();
    store.register_finish("alice".to_string(), vec![1], pub_a.clone(), sealed_a.clone()).unwrap();
    store.register_finish("bob".to_string(), vec![1], pub_b.clone(), sealed_b.clone()).unwrap();
    let priv_a = recover_private_key(&ek_a, &sealed_a).unwrap();
    let priv_b = recover_private_key(&ek_b, &sealed_b).unwrap();

    // alice uploads secret.txt with b"42"
    let file_key = generate_aead_key();
    let req = prepare_upload("secret.txt", b"42", &file_key, &pub_a, true, None).unwrap();
    store.upload_file("alice", req, 7, 1).unwrap();

    // share("secret.txt", "bob"): re-wrap the file key under bob's public key
    let bob_pub = store.get_user_public_key("bob").unwrap();
    let sreq: ShareFileRequest =
        prepare_share(7, &file_key, &bob_pub, "bob".to_string()).unwrap();
    store.share_file("alice", sreq).unwrap();

    // bob logs in: one root edge to secret.txt, downloads b"42"
    let tree_b = KeyringWithKeysAndFiles::from_encrypted(
        store.get_user_tree("bob").unwrap(),
        &priv_b,
        true,
    )
    .unwrap();
    assert_eq!(tree_b.keys.len(), 1);
    assert_eq!(tree_b.keys[0].file.name, "secret.txt");
    let mut file = store.download_file("bob", 7).unwrap();
    file.decrypt(&tree_b.keys[0].key).unwrap();
    assert_eq!(file.data.as_deref(), Some(b"42".as_slice()));

    // alice unshares: fresh key, re-encrypted name and content
    let new_key = generate_aead_key();
    let ureq = prepare_unshare(7, "secret.txt", b"42", &new_key, &pub_a, true, None).unwrap();
    store.unshare_file("alice", ureq, 2).unwrap();

    // bob's next download of that id returns forbidden
    assert_eq!(store.download_file("bob", 7), Err(ApiError::Forbidden));

    // alice's download still decrypts to b"42" under her fresh tree
    let tree_a = KeyringWithKeysAndFiles::from_encrypted(
        store.get_user_tree("alice").unwrap(),
        &priv_a,
        true,
    )
    .unwrap();
    let entry = tree_a.get_file(7).unwrap();
    let mut file = store.download_file("alice", 7).unwrap();
    file.decrypt(&entry.key).unwrap();
    assert_eq!(file.data.as_deref(), Some(b"42".as_slice()));
    assert_eq!(file.name, "secret.txt");
}

#[test]
fn tree_decryption_fails_with_wrong_private_key() {
    let ek = vec![9u8; 64];
    let (pub_der, sealed) = generate_user_keypair(&ek, RSA_BITS).unwrap();
    let mut store = ServerStore::new();
    store.register_finish("alice".to_string(), vec![1], pub_der.clone(), sealed).unwrap();
    let file_key = generate_aead_key();
    let req = prepare_upload("n", b"d", &file_key, &pub_der, true, None).unwrap();
    store.upload_file("alice", req, 1, 1).unwrap();

    let (_, other_priv) = rsa_generate_keypair(RSA_BITS).unwrap();
    let r = KeyringWithKeysAndFiles::from_encrypted(
        store.get_user_tree("alice").unwrap(),
        &other_priv,
        true,
    );
    assert_eq!(r.err(), Some(CryptoError::KeyMismatch));
}

#[test]
fn prepare_upload_with_fresh_key_round_trips() {
    let (pub_der, priv_der) = rsa_generate_keypair(RSA_BITS).unwrap();
    let (req, file_key) =
        prepare_upload_with_fresh_key("a.txt", b"payload", &pub_der, true, None).unwrap();
    assert_eq!(file_key.len(), 32);
    // the wrapped key opens under the matching private key to the file key
    assert_eq!(rsa_decrypt(&req.encrypted_key, &priv_der).unwrap(), file_key);
    // name and content open under the file key
    let name_ct = b64_decode(&req.filename).unwrap();
    assert_eq!(chacha_decrypt(&name_ct, &file_key).unwrap(), b"a.txt".to_vec());
    assert_eq!(chacha_decrypt(&req.file, &file_key).unwrap(), b"payload".to_vec());
}
