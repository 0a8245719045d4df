//! The client: its context, configuration, and the pure core of each shell
//! command.
//!
//! Prompting, HTTP and the key exchange live outside the crate; each command
//! here is the decision or encryption step between them, working on the
//! decrypted keyring tree and the context's plain values.

use vstd::prelude::*;
use vstd::string::*;
use crate::FileId;
use crate::crypto::{
    aead_sealable, open_name, open_sealed, open_wrapped, rsa_keypair, rsa_generate_keypair,
    seal_bytes, seal_name, wrap_key, open_sealed_bytes, utf8_to_string, b64_decode, CryptoError,
    AEAD_KEY_LEN,
};
use crate::files::{
    CreateFolderRequest, RevokeShareFileRequest, ShareFileRequest, UploadFileRequest,
};
use crate::store::File;
use crate::tree::{
    contains_entry, contains_id, dfs_find, name_find, name_find_from, path_join,
    KeyringWithKeysAndFiles, KeyWithFile,
};

verus! {

/// The export key the key exchange derives is exactly 64 bytes; its first
/// half is the AEAD key that seals the private key.
pub const EXPORT_KEY_LEN: usize = 64;

/// What a client command can fail with, before anything reaches the wire.
#[derive(Clone, Copy, Debug, PartialEq, Eq, Structural)]
pub enum ClientError {
    /// No session or no keyring tree: not logged in.
    NotLoggedIn,
    /// No entry of that name (or id) where the command looked.
    NotFound,
    /// The named entry is not a folder.
    NotAFolder,
    /// `cd ..` at the root.
    AlreadyAtRoot,
}

/// The client's stored configuration.
pub struct Config {
    pub endpoint_url: Option<String>,
    pub endpoint_port: u32,
    pub accept_invalid_cert: bool,
    pub local_folder: Option<String>,
}

impl Default for Config {
    /// A fresh configuration: no endpoint yet, the default port, strict
    /// certificate checking.
    fn default() -> (r: Self)
        ensures
            r.endpoint_url is None,
            r.endpoint_port == 8935,
            !r.accept_invalid_cert,
            r.local_folder is None,
    {
        Config {
            endpoint_url: None,
            endpoint_port: 8935,
            accept_invalid_cert: false,
            local_folder: None,
        }
    }
}

/// Everything the client holds between commands.  Secrets stay here and are
/// never serialized.
pub struct TSFSContext {
    /// Endpoint of the server.
    pub endpoint_url: Option<String>,
    /// Port used by the server.
    pub endpoint_port: u32,
    /// Username of the logged-in user.
    pub username: Option<String>,
    /// Bearer token of the current session.
    pub session_token: Option<String>,
    /// Private key of the logged-in user (PKCS#1 DER).
    pub private_key: Option<Vec<u8>>,
    /// Public key of the logged-in user (PKCS#1 DER).
    pub public_key: Option<Vec<u8>>,
    /// Whether to accept self-signed certificates (development only).
    pub accept_invalid_cert: bool,
    /// The decrypted keyring tree of the logged-in user.
    pub keyring_tree: Option<KeyringWithKeysAndFiles>,
    /// The current location, as folder ids from the root.
    pub current_folder: Vec<FileId>,
    /// When the keyring tree was last fetched (milliseconds).
    pub last_keyring_update: u64,
    /// Where downloads are written.
    pub local_folder: Option<String>,
}

impl TSFSContext {
    /// The keyring of the current location, as a value: the whole tree at the
    /// root, otherwise the subtree of the folder the depth-first lookup finds
    /// for the last element of the path.
    pub open spec fn current_keyring_spec(self) -> Option<KeyringWithKeysAndFiles> {
        match self.keyring_tree {
            Some(t) => if self.current_folder@.len() == 0 {
                Some(t)
            } else {
                match dfs_find(t, self.current_folder@.last()) {
                    Some(e) => e.file.keyring,
                    None => None,
                }
            },
            None => None,
        }
    }

    /// The keyring of the current location: the root tree, or the subtree of
    /// the folder the client moved into.
    pub fn current_keyring(&self) -> (r: Option<&KeyringWithKeysAndFiles>)
        ensures
            match r {
                Some(k) => self.current_keyring_spec() == Some(*k),
                None => self.current_keyring_spec() is None,
            },
            r matches Some(k) ==> (self.current_folder@.len() > 0 ==> exists|e: KeyWithFile|
                {
                    &&& #[trigger] contains_entry(self.keyring_tree->0, e)
                    &&& e.file.id == self.current_folder@.last()
                    &&& e.file.keyring == Some(*k)
                }),
    {
        match &self.keyring_tree {
            Some(tree) => {
                if self.current_folder.len() == 0 {
                    Some(tree)
                } else {
                    let last = self.current_folder[self.current_folder.len() - 1];
                    match tree.get_file(last) {
                        Some(entry) => match &entry.file.keyring {
                            Some(sub) => Some(sub),
                            None => None,
                        },
                        None => None,
                    }
                }
            },
            None => None,
        }
    }

    /// The folder names along the current location, in order: what the
    /// depth-first lookup finds for each folder id on the path.
    pub open spec fn path_names(self) -> Seq<Seq<char>> {
        Seq::new(
            self.current_folder@.len(),
            |i: int| dfs_find(self.keyring_tree->0, self.current_folder@[i])->0.file.name@,
        )
    }

    /// The textual path of the current location, when every folder on it is
    /// still known to the tree.
    pub fn get_path(&self) -> (r: Option<String>)
        ensures
            r is Some <==> (self.keyring_tree matches Some(t) && forall|i: int|
                0 <= i < self.current_folder@.len() ==> contains_id(
                    t,
                    #[trigger] self.current_folder@[i],
                )),
            r matches Some(p) ==> p@ == path_join(self.path_names()),
    {
        let tree = match &self.keyring_tree {
            Some(t) => t,
            None => {
                return None;
            },
        };
        let mut path = String::new();
        path.append("/");
        proof {
            reveal_strlit("/");
            assert(path@ =~= path_join(self.path_names().take(0)));
        }
        let n = self.current_folder.len();
        for i in 0..n
            invariant
                n == self.current_folder@.len(),
                self.keyring_tree matches Some(t0) && *tree == t0,
                forall|j: int|
                    0 <= j < i ==> contains_id(*tree, #[trigger] self.current_folder@[j]),
                path@ == path_join(self.path_names().take(i as int)),
        {
            match tree.get_file(self.current_folder[i]) {
                Some(entry) => {
                    path.append(entry.file.name.as_str());
                    path.append("/");
                    proof {
                        reveal_strlit("/");
                        let names = self.path_names();
                        assert(names[i as int] == entry.file.name@);
                        assert(names.take(i + 1).drop_last() =~= names.take(i as int));
                        assert(names.take(i + 1).last() == names[i as int]);
                        assert(path@ =~= path_join(names.take(i + 1)));
                    }
                },
                None => {
                    return None;
                },
            }
        }
        proof {
            assert(self.path_names().take(n as int) =~= self.path_names());
        }
        Some(path)
    }

    /// Forget the session and every secret of the logged-in user.
    pub fn logout(&mut self)
        ensures
            final(self).session_token is None,
            final(self).username is None,
            final(self).private_key is None,
            final(self).public_key is None,
            final(self).keyring_tree is None,
            final(self).current_folder@.len() == 0,
            final(self).endpoint_url == old(self).endpoint_url,
            final(self).endpoint_port == old(self).endpoint_port,
            final(self).accept_invalid_cert == old(self).accept_invalid_cert,
            final(self).local_folder == old(self).local_folder,
            final(self).last_keyring_update == old(self).last_keyring_update,
    {
        self.session_token = None;
        self.username = None;
        self.private_key = None;
        self.public_key = None;
        self.keyring_tree = None;
        self.current_folder = Vec::new();
    }
}

/// Move to the specified folder.
pub struct CdArgs {
    pub folder: String,
}

pub struct CdCommand;

impl CdCommand {
    /// Whether `cd` succeeds: `..` works anywhere below the root; a name
    /// works exactly when the first entry of that name at the current keyring
    /// level is a folder.
    pub open spec fn cd_ok(args: CdArgs, ctx: TSFSContext) -> bool {
        &&& ctx.keyring_tree is Some
        &&& if args.folder@ == ".."@ {
            ctx.current_folder@.len() > 0
        } else {
            match ctx.current_keyring_spec() {
                Some(k) => (match name_find(k, args.folder@) {
                    Some(e) => e.file.keyring is Some,
                    None => false,
                }),
                None => false,
            }
        }
    }

    /// The decision of `cd`: `..` moves up, a folder name moves down into a
    /// folder of the current keyring level.
    pub fn apply(args: &CdArgs, ctx: &mut TSFSContext) -> (r: Result<(), ClientError>)
        ensures
            r is Ok <==> Self::cd_ok(*args, *old(ctx)),
            r is Err ==> *final(ctx) == *old(ctx),
            r is Err ==> r->Err_0 == (if old(ctx).keyring_tree is None {
                ClientError::NotLoggedIn
            } else if args.folder@ == ".."@ {
                ClientError::AlreadyAtRoot
            } else if (match old(ctx).current_keyring_spec() {
                Some(k) => name_find(k, args.folder@) is Some,
                None => false,
            }) {
                ClientError::NotAFolder
            } else {
                ClientError::NotFound
            }),
            final(ctx).endpoint_url == old(ctx).endpoint_url,
            final(ctx).endpoint_port == old(ctx).endpoint_port,
            final(ctx).username == old(ctx).username,
            final(ctx).session_token == old(ctx).session_token,
            final(ctx).private_key == old(ctx).private_key,
            final(ctx).public_key == old(ctx).public_key,
            final(ctx).accept_invalid_cert == old(ctx).accept_invalid_cert,
            final(ctx).keyring_tree == old(ctx).keyring_tree,
            final(ctx).last_keyring_update == old(ctx).last_keyring_update,
            final(ctx).local_folder == old(ctx).local_folder,
            (r is Ok && args.folder@ == ".."@) ==> final(ctx).current_folder@ == old(
                ctx,
            ).current_folder@.drop_last(),
            (r is Ok && args.folder@ != ".."@) ==> final(ctx).current_folder@ == old(
                ctx,
            ).current_folder@.push(
                name_find(old(ctx).current_keyring_spec()->0, args.folder@)->0.file.id,
            ),
            (r is Ok && args.folder@ != ".."@) ==> exists|e: KeyWithFile|
                {
                    &&& #[trigger] contains_entry(old(ctx).keyring_tree->0, e)
                    &&& e.file.name@ == args.folder@
                    &&& e.file.keyring is Some
                    &&& final(ctx).current_folder@ == old(ctx).current_folder@.push(e.file.id)
                },
    {
        if ctx.keyring_tree.is_none() {
            return Err(ClientError::NotLoggedIn);
        }
        proof {
            reveal_strlit("..");
        }
        if crate::store::str_eq(args.folder.as_str(), "..") {
            if ctx.current_folder.len() > 0 {
                ctx.current_folder.pop();
                Ok(())
            } else {
                Err(ClientError::AlreadyAtRoot)
            }
        } else {
            let found: Option<(FileId, bool, Ghost<KeyWithFile>, Ghost<KeyringWithKeysAndFiles>)> =
                match ctx.current_keyring() {
                Some(keyring) => {
                    match keyring.get_file_by_name(args.folder.as_str()) {
                        Some(entry) => Some(
                            (
                                entry.file.id,
                                entry.file.keyring.is_some(),
                                Ghost(*entry),
                                Ghost(*keyring),
                            ),
                        ),
                        None => None,
                    }
                },
                None => None,
            };
            match found {
                Some((id, true, entry_g, keyring_g)) => {
                    ctx.current_folder.push(id);
                    proof {
                        let t = old(ctx).keyring_tree->0;
                        assert(contains_entry(keyring_g@, entry_g@)) by {
                            crate::tree::lemma_name_find_member(keyring_g@, args.folder@, 0);
                            let i = choose|i: int|
                                0 <= i < keyring_g@.keys@.len() && #[trigger] keyring_g@.keys@[i]
                                    == name_find_from(keyring_g@, args.folder@, 0)->0
                                    && keyring_g@.keys@[i].file.name@ == args.folder@;
                            assert(keyring_g@.keys@[i] == entry_g@);
                        }
                        assert(entry_g@.file.name@ == args.folder@) by {
                            crate::tree::lemma_name_find_member(keyring_g@, args.folder@, 0);
                        }
                        if old(ctx).current_folder@.len() == 0 {
                            assert(keyring_g@ == t);
                        } else {
                            let pe = choose|pe: KeyWithFile|
                                {
                                    &&& #[trigger] contains_entry(t, pe)
                                    &&& pe.file.id == old(ctx).current_folder@.last()
                                    &&& pe.file.keyring == Some(keyring_g@)
                                };
                            crate::tree::lemma_contains_entry_trans(t, pe, entry_g@);
                        }
                    }
                    Ok(())
                },
                Some((_, false, _, _)) => Err(ClientError::NotAFolder),
                None => Err(ClientError::NotFound),
            }
        }
    }

    pub fn description(&self) -> (r: String)
        ensures
            r@ == "Move to the specified folder"@,
    {
        "Move to the specified folder".to_owned()
    }
}

/// Seal a private key under the first half of the export key.
pub fn seal_private_key(export_key: &[u8], private_key_der: &[u8]) -> (r: Result<
    Vec<u8>,
    CryptoError,
>)
    requires
        export_key@.len() == EXPORT_KEY_LEN,
    ensures
        r matches Ok(c) ==> open_sealed(export_key@.subrange(0, AEAD_KEY_LEN as int), c@) == Some(
            private_key_der@,
        ),
        aead_sealable(private_key_der@.len()) ==> r is Ok,
{
    let k = export_key_half(export_key);
    seal_bytes(private_key_der, k.as_slice())
}

/// Recover the private key at login: open the sealed box with the first half
/// of the export key.  Failure means a wrong password (or corrupt data) and
/// aborts the login.
pub fn recover_private_key(export_key: &[u8], encrypted_private_key: &[u8]) -> (r: Result<
    Vec<u8>,
    CryptoError,
>)
    requires
        export_key@.len() == EXPORT_KEY_LEN,
    ensures
        r matches Ok(p) ==> open_sealed(export_key@.subrange(0, AEAD_KEY_LEN as int), encrypted_private_key@)
            == Some(p@),
        r is Err ==> open_sealed(
            export_key@.subrange(0, AEAD_KEY_LEN as int),
            encrypted_private_key@,
        ) is None,
{
    let k = export_key_half(export_key);
    open_sealed_bytes(encrypted_private_key, k.as_slice())
}

/// The first 32 bytes of the 64-byte export key: the AEAD key.
fn export_key_half(export_key: &[u8]) -> (r: Vec<u8>)
    requires
        export_key@.len() == EXPORT_KEY_LEN,
    ensures
        r@ == export_key@.subrange(0, AEAD_KEY_LEN as int),
{
    let mut out: Vec<u8> = Vec::new();
    for i in 0..AEAD_KEY_LEN
        invariant
            export_key@.len() == EXPORT_KEY_LEN,
            out@ == export_key@.subrange(0, i as int),
    {
        out.push(export_key[i]);
        proof {
            assert(out@ =~= export_key@.subrange(0, i + 1));
        }
    }
    out
}

/// A public key in DER beside a private key sealed under the first half of
/// `export_key`: what registration hands to the server.
pub open spec fn sealed_keypair(export_key: Seq<u8>, pk: Seq<u8>, epk: Seq<u8>) -> bool {
    exists|sk: Seq<u8>|
        #[trigger] rsa_keypair(pk, sk) && open_sealed(
            export_key.subrange(0, AEAD_KEY_LEN as int),
            epk,
        ) == Some(sk)
}

/// At registration: generate the user's RSA keypair and seal the private key
/// under the export key.  Returns (public key DER, sealed private key).
pub fn generate_user_keypair(export_key: &[u8], bits: usize) -> (r: Result<
    (Vec<u8>, Vec<u8>),
    CryptoError,
>)
    requires
        export_key@.len() == EXPORT_KEY_LEN,
    ensures
        r matches Ok(kp) ==> sealed_keypair(export_key@, kp.0@, kp.1@),
{
    let (pub_der, priv_der) = match rsa_generate_keypair(bits) {
        Ok(kp) => kp,
        Err(e) => {
            return Err(e);
        },
    };
    let sealed = match seal_private_key(export_key, priv_der.as_slice()) {
        Ok(c) => c,
        Err(e) => {
            return Err(e);
        },
    };
    proof {
        assert(rsa_keypair(pub_der@, priv_der@));
        assert(sealed_keypair(export_key@, pub_der@, sealed@));
    }
    Ok((pub_der, sealed))
}

/// Client side of an upload: generate nothing here — the caller passes the
/// fresh file key — but encrypt name and content under it and wrap it for
/// the parent keyring (the user's public key at the root).
pub fn prepare_upload(
    name: &str,
    content: &[u8],
    file_key: &[u8],
    wrap_to: &[u8],
    root: bool,
    parent_uid: Option<FileId>,
) -> (r: Result<UploadFileRequest, CryptoError>)
    requires
        file_key@.len() == AEAD_KEY_LEN,
        !root ==> wrap_to@.len() == AEAD_KEY_LEN,
    ensures
        r matches Ok(req) ==> {
            &&& req.parent_uid == parent_uid
            &&& open_name(file_key@, req.filename@) == Some(name@)
            &&& open_sealed(file_key@, req.file@) == Some(content@)
            &&& (!root ==> open_wrapped(wrap_to@, req.encrypted_key@, false) == Some(file_key@))
            &&& (root ==> forall|sk: Seq<u8>|
                #[trigger] rsa_keypair(wrap_to@, sk) ==> open_wrapped(sk, req.encrypted_key@, true)
                    == Some(file_key@))
        },
        (!root && aead_sealable(vstd::utf8::encode_utf8(name@).len()) && aead_sealable(
            content@.len(),
        )) ==> r is Ok,
{
    let filename = match seal_name(name, file_key) {
        Ok(s) => s,
        Err(e) => {
            return Err(e);
        },
    };
    let file = match seal_bytes(content, file_key) {
        Ok(c) => c,
        Err(e) => {
            return Err(e);
        },
    };
    let encrypted_key = match wrap_key(file_key, wrap_to, root) {
        Ok(c) => c,
        Err(e) => {
            return Err(e);
        },
    };
    Ok(UploadFileRequest { parent_uid, filename, file, encrypted_key })
}

/// Client side of an upload drawing its own fresh file key, as the shell
/// does; returns the request and the key, which the caller keeps to decrypt
/// later downloads.
pub fn prepare_upload_with_fresh_key(
    name: &str,
    content: &[u8],
    wrap_to: &[u8],
    root: bool,
    parent_uid: Option<FileId>,
) -> (r: Result<(UploadFileRequest, Vec<u8>), CryptoError>)
    requires
        !root ==> wrap_to@.len() == AEAD_KEY_LEN,
    ensures
        r matches Ok((req, fk)) ==> {
            &&& fk@.len() == AEAD_KEY_LEN
            &&& req.parent_uid == parent_uid
            &&& open_name(fk@, req.filename@) == Some(name@)
            &&& open_sealed(fk@, req.file@) == Some(content@)
            &&& (!root ==> open_wrapped(wrap_to@, req.encrypted_key@, false) == Some(fk@))
            &&& (root ==> forall|sk: Seq<u8>|
                #[trigger] rsa_keypair(wrap_to@, sk) ==> open_wrapped(sk, req.encrypted_key@, true)
                    == Some(fk@))
        },
        (!root && aead_sealable(vstd::utf8::encode_utf8(name@).len()) && aead_sealable(
            content@.len(),
        )) ==> r is Ok,
{
    let file_key = crate::crypto::generate_aead_key();
    match prepare_upload(name, content, file_key.as_slice(), wrap_to, root, parent_uid) {
        Ok(req) => Ok((req, file_key)),
        Err(e) => Err(e),
    }
}

/// Client side of `mkdir`: encrypt the folder name under the fresh folder
/// key and wrap that key for the parent keyring.
pub fn prepare_mkdir(
    name: &str,
    folder_key: &[u8],
    wrap_to: &[u8],
    root: bool,
    parent_uid: Option<FileId>,
) -> (r: Result<CreateFolderRequest, CryptoError>)
    requires
        folder_key@.len() == AEAD_KEY_LEN,
        !root ==> wrap_to@.len() == AEAD_KEY_LEN,
    ensures
        r matches Ok(req) ==> {
            &&& req.parent_uid == parent_uid
            &&& open_name(folder_key@, req.filename@) == Some(name@)
            &&& (!root ==> open_wrapped(wrap_to@, req.encrypted_key@, false) == Some(folder_key@))
            &&& (root ==> forall|sk: Seq<u8>|
                #[trigger] rsa_keypair(wrap_to@, sk) ==> open_wrapped(sk, req.encrypted_key@, true)
                    == Some(folder_key@))
        },
        (!root && aead_sealable(vstd::utf8::encode_utf8(name@).len())) ==> r is Ok,
{
    let filename = match seal_name(name, folder_key) {
        Ok(s) => s,
        Err(e) => {
            return Err(e);
        },
    };
    let encrypted_key = match wrap_key(folder_key, wrap_to, root) {
        Ok(c) => c,
        Err(e) => {
            return Err(e);
        },
    };
    Ok(CreateFolderRequest { parent_uid, filename, encrypted_key })
}

/// Client side of a share: re-wrap the file's key under the target user's
/// public key.
pub fn prepare_share(
    file_uid: FileId,
    file_key: &[u8],
    target_pubkey: &[u8],
    target_user: String,
) -> (r: Result<ShareFileRequest, CryptoError>)
    requires
        file_key@.len() == AEAD_KEY_LEN,
    ensures
        r matches Ok(req) ==> {
            &&& req.file_uid == file_uid
            &&& req.target_user == target_user
            &&& forall|sk: Seq<u8>|
                #[trigger] rsa_keypair(target_pubkey@, sk) ==> open_wrapped(
                    sk,
                    req.encrypted_key@,
                    true,
                ) == Some(file_key@)
        },
{
    let encrypted_key = match wrap_key(file_key, target_pubkey, true) {
        Ok(c) => c,
        Err(e) => {
            return Err(e);
        },
    };
    Ok(ShareFileRequest { file_uid, encrypted_key, target_user })
}

/// Client side of an unshare: re-encrypt name and content under a fresh key
/// and wrap that key for the keyring the file is to stay in.
pub fn prepare_unshare(
    file_uid: FileId,
    name: &str,
    content: &[u8],
    new_key: &[u8],
    wrap_to: &[u8],
    root: bool,
    parent_uid: Option<FileId>,
) -> (r: Result<RevokeShareFileRequest, CryptoError>)
    requires
        new_key@.len() == AEAD_KEY_LEN,
        !root ==> wrap_to@.len() == AEAD_KEY_LEN,
    ensures
        r matches Ok(req) ==> {
            &&& req.file_uid == file_uid
            &&& req.parent_uid == parent_uid
            &&& open_name(new_key@, req.filename@) == Some(name@)
            &&& open_sealed(new_key@, req.file@) == Some(content@)
            &&& (!root ==> open_wrapped(wrap_to@, req.encrypted_key@, false) == Some(new_key@))
            &&& (root ==> forall|sk: Seq<u8>|
                #[trigger] rsa_keypair(wrap_to@, sk) ==> open_wrapped(sk, req.encrypted_key@, true)
                    == Some(new_key@))
        },
        (!root && aead_sealable(vstd::utf8::encode_utf8(name@).len()) && aead_sealable(
            content@.len(),
        )) ==> r is Ok,
{
    let filename = match seal_name(name, new_key) {
        Ok(s) => s,
        Err(e) => {
            return Err(e);
        },
    };
    let file = match seal_bytes(content, new_key) {
        Ok(c) => c,
        Err(e) => {
            return Err(e);
        },
    };
    let encrypted_key = match wrap_key(new_key, wrap_to, root) {
        Ok(c) => c,
        Err(e) => {
            return Err(e);
        },
    };
    Ok(RevokeShareFileRequest { file_uid, parent_uid, encrypted_key, filename, file })
}

impl File {
    /// Decrypt a downloaded file in place with its unwrapped key: the name
    /// (base64, then AEAD, then UTF-8) must open; content that does not open
    /// is dropped, as a corrupt body only affects this file.
    pub fn decrypt(&mut self, key: &[u8]) -> (r: Result<(), CryptoError>)
        requires
            key@.len() == AEAD_KEY_LEN,
        ensures
            r is Ok <==> open_name(key@, old(self).name@) is Some,
            r is Err ==> *final(self) == *old(self),
            r is Ok ==> {
                &&& final(self).name@ == open_name(key@, old(self).name@)->0
                &&& final(self).id == old(self).id
                &&& final(self).mtime == old(self).mtime
                &&& final(self).sz == old(self).sz
                &&& final(self).keyring_id == old(self).keyring_id
                &&& match old(self).data {
                    Some(ct) => (match open_sealed(key@, ct@) {
                        Some(pt) => final(self).data matches Some(d) && d@ == pt,
                        None => final(self).data is None,
                    }),
                    None => final(self).data is None,
                }
            },
    {
        let raw_name = match b64_decode(self.name.as_str()) {
            Ok(b) => b,
            Err(e) => {
                return Err(e);
            },
        };
        let name_pt = match open_sealed_bytes(raw_name.as_slice(), key) {
            Ok(p) => p,
            Err(e) => {
                return Err(e);
            },
        };
        let name = match utf8_to_string(name_pt) {
            Ok(n) => n,
            Err(e) => {
                return Err(e);
            },
        };
        self.name = name;
        let data = match &self.data {
            Some(ct) => {
                match open_sealed_bytes(ct.as_slice(), key) {
                    Ok(p) => Some(p),
                    Err(_) => None,
                }
            },
            None => None,
        };
        self.data = data;
        Ok(())
    }
}

/// List the entries at the current location: each plaintext name with
/// whether it is a folder.
pub struct LsArgs {}

pub struct LsCommand;

impl LsCommand {
    /// The pure part of `ls`: the names at the current keyring level, each
    /// with whether it is a folder.
    pub fn entries(ctx: &TSFSContext) -> (r: Result<Vec<(String, bool)>, ClientError>)
        ensures
            r is Ok <==> ctx.current_keyring_spec() is Some,
            r is Err ==> r->Err_0 == (if ctx.keyring_tree is None {
                ClientError::NotLoggedIn
            } else {
                ClientError::NotFound
            }),
            r matches Ok(v) ==> {
                let k = ctx.current_keyring_spec()->0;
                &&& v@.len() == k.keys@.len()
                &&& forall|i: int|
                    0 <= i < k.keys@.len() ==> (#[trigger] v@[i]).0@ == k.keys@[i].file.name@
                        && v@[i].1 == k.keys@[i].file.spec_is_folder()
            },
    {
        let keyring = match ctx.current_keyring() {
            Some(k) => k,
            None => {
                return Err(
                    if ctx.keyring_tree.is_none() {
                        ClientError::NotLoggedIn
                    } else {
                        ClientError::NotFound
                    },
                );
            },
        };
        let mut out: Vec<(String, bool)> = Vec::new();
        let n = keyring.keys.len();
        for i in 0..n
            invariant
                n == keyring.keys@.len(),
                out@.len() == i,
                forall|j: int|
                    0 <= j < i ==> (#[trigger] out@[j]).0@ == keyring.keys@[j].file.name@
                        && out@[j].1 == keyring.keys@[j].file.spec_is_folder(),
        {
            let name = keyring.keys[i].file.name.clone();
            let folder = keyring.keys[i].file.keyring.is_some();
            out.push((name, folder));
        }
        Ok(out)
    }

    pub fn description(&self) -> (r: String)
        ensures
            r@ == "List the content of the current folder"@,
    {
        "List the content of the current folder".to_owned()
    }
}

/// Download a file by name from the current folder.
pub struct DownloadArgs {
    pub name: String,
}

pub struct DownloadCommand;

impl DownloadCommand {
    pub fn description(&self) -> (r: String)
        ensures
            r@ == "Download a file from the current folder"@,
    {
        "Download a file from the current folder".to_owned()
    }
}

/// Share a file of the current folder with another user.
pub struct ShareArgs {
    pub filename: String,
    pub username: String,
}

pub struct ShareCommand;

impl ShareCommand {
    pub fn description(&self) -> (r: String)
        ensures
            r@ == "Share the given file in the current folder to the given user"@,
    {
        "Share the given file in the current folder to the given user".to_owned()
    }
}

/// Send a ping message.
pub struct PingArgs {
    pub message: String,
}

pub struct PingCommand;

impl PingCommand {
    pub fn description(&self) -> (r: String)
        ensures
            r@ == "Ping test command"@,
    {
        "Ping test command".to_owned()
    }
}

pub struct LoginCommand;

impl LoginCommand {
    pub fn description(&self) -> (r: String)
        ensures
            r@ == "Login to the endpoint"@,
    {
        "Login to the endpoint".to_owned()
    }
}

pub struct LogoutCommand;

impl LogoutCommand {
    /// The state change of `logout`; revoking the token on the wire is the
    /// caller's part.
    pub fn apply(ctx: &mut TSFSContext) -> (r: Result<(), ClientError>)
        ensures
            r is Ok <==> old(ctx).session_token is Some,
            r is Err ==> *final(ctx) == *old(ctx),
            r is Ok ==> final(ctx).session_token is None && final(ctx).private_key is None
                && final(ctx).keyring_tree is None,
    {
        if ctx.session_token.is_none() {
            return Err(ClientError::NotLoggedIn);
        }
        ctx.logout();
        Ok(())
    }

    pub fn description(&self) -> (r: String)
        ensures
            r@ == "Logout from the endpoint"@,
    {
        "Logout from the endpoint".to_owned()
    }
}

pub struct RegisterCommand;

impl RegisterCommand {
    pub fn description(&self) -> (r: String)
        ensures
            r@ == "Register to the endpoint"@,
    {
        "Register to the endpoint".to_owned()
    }
}

pub struct ChangePasswordCommand;

impl ChangePasswordCommand {
    pub fn description(&self) -> (r: String)
        ensures
            r@ == "Change the password of the current user"@,
    {
        "Change the password of the current user".to_owned()
    }
}

pub struct SessionCommand;

impl SessionCommand {
    pub fn description(&self) -> (r: String)
        ensures
            r@ == "Show the current session"@,
    {
        "Show the current session".to_owned()
    }
}

/// Sessions listing, or clearing all but the current one.
pub struct SessionsArgs {
    pub clear: bool,
}

pub struct SessionsCommand;

impl SessionsCommand {
    pub fn description(&self) -> (r: String)
        ensures
            r@ == "List the active sessions"@,
    {
        "List the active sessions".to_owned()
    }
}

pub struct HelpCommand;

impl HelpCommand {
    pub fn description(&self) -> (r: String)
        ensures
            r@ == "Get command list"@,
    {
        "Get command list".to_owned()
    }
}

pub struct ExitCommand;

impl ExitCommand {
    pub fn description(&self) -> (r: String)
        ensures
            r@ == "Quit the program"@,
    {
        "Quit the program".to_owned()
    }
}

/// Create a folder in the current folder.
pub struct MkdirArgs {
    pub name: String,
}

pub struct MkdirCommand;

impl MkdirCommand {
    pub fn description(&self) -> (r: String)
        ensures
            r@ == "Create a folder in the current folder"@,
    {
        "Create a folder in the current folder".to_owned()
    }
}

/// Remove a file by name from the current folder.
pub struct RmArgs {
    pub name: String,
}

pub struct RmCommand;

impl RmCommand {
    pub fn description(&self) -> (r: String)
        ensures
            r@ == "Remove the given file in the current folder"@,
    {
        "Remove the given file in the current folder".to_owned()
    }
}

/// Upload a local file to the current folder.
pub struct UploadFileArgs {
    pub local_path: String,
}

pub struct UploadFileCommand;

impl UploadFileCommand {
    pub fn description(&self) -> (r: String)
        ensures
            r@ == "Upload a local file to the remote server"@,
    {
        "Upload a local file to the remote server".to_owned()
    }
}

/// Revoke every share of a file by name.
pub struct UnshareArgs {
    pub filename: String,
}

pub struct UnshareCommand;

impl UnshareCommand {
    pub fn description(&self) -> (r: String)
        ensures
            r@ == "Revoke every share of the given file and re-encrypt it"@,
    {
        "Revoke every share of the given file and re-encrypt it".to_owned()
    }
}

/// Set context values.
pub struct SetArgs {
    pub endpoint_url: Option<String>,
    pub port: Option<u32>,
    pub accept_invalid_cert: Option<bool>,
}

pub struct SetCommand;

impl SetCommand {
    /// The state change of `set`: endpoint and port may only change while
    /// logged out; certificate checking may change at any time.
    pub fn apply(args: SetArgs, ctx: &mut TSFSContext)
        ensures
            ({
                let logged_in = old(ctx).session_token is Some;
                &&& final(ctx).endpoint_url == (if args.endpoint_url is Some && !logged_in {
                    args.endpoint_url
                } else {
                    old(ctx).endpoint_url
                })
                &&& final(ctx).endpoint_port == (if args.port is Some && !logged_in {
                    args.port->0
                } else {
                    old(ctx).endpoint_port
                })
                &&& final(ctx).accept_invalid_cert == (if args.accept_invalid_cert is Some {
                    args.accept_invalid_cert->0
                } else {
                    old(ctx).accept_invalid_cert
                })
                &&& final(ctx).session_token == old(ctx).session_token
                &&& final(ctx).username == old(ctx).username
                &&& final(ctx).private_key == old(ctx).private_key
                &&& final(ctx).public_key == old(ctx).public_key
                &&& final(ctx).keyring_tree == old(ctx).keyring_tree
                &&& final(ctx).current_folder == old(ctx).current_folder
                &&& final(ctx).local_folder == old(ctx).local_folder
                &&& final(ctx).last_keyring_update == old(ctx).last_keyring_update
            }),
    {
        let logged_in = ctx.session_token.is_some();
        match args.endpoint_url {
            Some(url) => {
                if !logged_in {
                    ctx.endpoint_url = Some(url);
                }
            },
            None => {},
        }
        match args.port {
            Some(p) => {
                if !logged_in {
                    ctx.endpoint_port = p;
                }
            },
            None => {},
        }
        match args.accept_invalid_cert {
            Some(b) => {
                ctx.accept_invalid_cert = b;
            },
            None => {},
        }
    }

    pub fn description(&self) -> (r: String)
        ensures
            r@ == "Set context values"@,
    {
        "Set context values".to_owned()
    }
}

} // verus!
