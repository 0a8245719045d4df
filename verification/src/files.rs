//! The five access-graph mutations and the two reads the server offers:
//! upload, create-folder, delete, share, unshare, download.
//!
//! Every operation first authorizes through [`ServerStore::has_access`] and
//! then changes the graph; the contracts say exactly which edges and files
//! the new store holds, so the revocation and idempotence laws follow from
//! them.

use vstd::prelude::*;
use vstd::pervasive::VecAdditionalExecFns;
use crate::{ApiError, FileId, KeyringId};
use crate::access::DEPTH_LIMIT;
use crate::store::{str_eq, File, Key, ServerStore};

verus! {

/// Outcome of an unshare: folders cannot be unshared, and saying so is part
/// of the interface rather than an error.
#[derive(Clone, Copy, Debug, PartialEq, Eq, Structural)]
pub enum UnshareStatus {
    Done,
    FolderNotSupported,
}

/// Whether an upload created a fresh file or overwrote one in place.
#[derive(Clone, Copy, Debug, PartialEq, Eq, Structural)]
pub enum UploadStatus {
    Created,
    Updated,
}

/// Body of a file upload: everything but `parent_uid` is ciphertext.
pub struct UploadFileRequest {
    /// The folder to put the file in; `None` means the user's root.
    pub parent_uid: Option<FileId>,
    /// Encrypted file name (base64 of an AEAD ciphertext).
    pub filename: String,
    /// Encrypted file content.
    pub file: Vec<u8>,
    /// The file's symmetric key, wrapped under the parent keyring's key.
    pub encrypted_key: Vec<u8>,
}

/// Body of a folder creation.
pub struct CreateFolderRequest {
    /// The folder to create the new folder in; `None` means the user's root.
    pub parent_uid: Option<FileId>,
    /// Encrypted folder name.
    pub filename: String,
    /// The folder's symmetric key, wrapped under the parent keyring's key.
    pub encrypted_key: Vec<u8>,
}

/// Body of a download.
pub struct DownloadFileRequest {
    pub file_uid: FileId,
}

/// Body of a deletion.
pub struct DeleteFileRequest {
    pub file_uid: FileId,
}

/// Body of a share: the caller re-wrapped the file key for the target user.
pub struct ShareFileRequest {
    /// File to share.
    pub file_uid: FileId,
    /// The file's symmetric key, wrapped under `target_user`'s public key.
    pub encrypted_key: Vec<u8>,
    /// The user to share the file with.
    pub target_user: String,
}

/// Body of an unshare: the file was re-encrypted under a fresh key, and every
/// old edge is dropped in favour of one new edge under `parent_uid`.
pub struct RevokeShareFileRequest {
    /// File to revoke.
    pub file_uid: FileId,
    /// The keyring the file must remain reachable from; `None` means the
    /// caller's root.
    pub parent_uid: Option<FileId>,
    /// The fresh symmetric key, wrapped under the parent keyring's key.
    pub encrypted_key: Vec<u8>,
    /// The re-encrypted file name.
    pub filename: String,
    /// The re-encrypted file content.
    pub file: Vec<u8>,
}

/// Copy a byte vector (with the contract `Vec::clone` does not carry).
pub fn clone_bytes(v: &Vec<u8>) -> (r: Vec<u8>)
    ensures
        r@ == v@,
{
    let mut out: Vec<u8> = Vec::new();
    let n = v.len();
    for i in 0..n
        invariant
            n == v@.len(),
            out@ == v@.take(i as int),
    {
        out.push(v[i]);
        proof {
            assert(out@ =~= v@.take(i + 1));
        }
    }
    proof {
        assert(v@.take(n as int) =~= v@);
    }
    out
}

/// Every element of a filtered sequence occurs in the original one.
pub proof fn lemma_filter_subset<A>(s: Seq<A>, pred: spec_fn(A) -> bool, i: int)
    requires
        0 <= i < s.filter(pred).len(),
    ensures
        exists|j: int| 0 <= j < s.len() && s[j] == s.filter(pred)[i],
    decreases s.len(),
{
    reveal(Seq::filter);
    if s.len() > 0 {
        let sub = s.drop_last().filter(pred);
        if pred(s.last()) && i == sub.len() {
            assert(s[s.len() - 1] == s.filter(pred)[i]);
        } else {
            lemma_filter_subset(s.drop_last(), pred, i);
            let j = choose|j: int| 0 <= j < s.drop_last().len() && s.drop_last()[j] == sub[i];
            assert(s[j] == s.filter(pred)[i]);
        }
    }
}

impl ServerStore {
    /// The keyring a request with this `parent_uid` addresses: the caller's
    /// root keyring, or the folder keyring of the named folder.
    pub open spec fn parent_keyring_spec(
        self,
        user: Seq<char>,
        parent_uid: Option<FileId>,
    ) -> KeyringId {
        match parent_uid {
            None => self.root_of(user),
            Some(p) => self.folder_keyring(p),
        }
    }

    /// Whether the caller may address this parent: the root always, a folder
    /// only when it is reachable from the caller's root.
    pub open spec fn parent_ok(self, user: Seq<char>, parent_uid: Option<FileId>) -> bool {
        match parent_uid {
            None => true,
            Some(p) => self.reaches(self.root_of(user), p, DEPTH_LIMIT as nat) && self.is_folder(
                p,
            ),
        }
    }

    /// Edge `j` of keyring `pk` points at a plain file whose encrypted name
    /// is `name` (the upload update-in-place condition).
    pub open spec fn upload_match(self, pk: KeyringId, name: Seq<char>, j: int) -> bool {
        &&& 0 <= j < self.keys@.len()
        &&& self.keys@[j].keyring_id == pk
        &&& self.has_file(self.keys@[j].target)
        &&& !self.file_of(self.keys@[j].target).is_folder()
        &&& self.file_of(self.keys@[j].target).name@ == name
    }

    pub open spec fn has_upload_match(self, pk: KeyringId, name: Seq<char>) -> bool {
        exists|j: int| self.upload_match(pk, name, j)
    }

    /// Resolve `parent_uid` against the caller's root keyring, enforcing
    /// authorization.
    fn resolve_parent(&self, root: KeyringId, parent_uid: Option<FileId>, user: Ghost<Seq<char>>) -> (r: Result<
        KeyringId,
        ApiError,
    >)
        requires
            self.wf(),
            self.has_user(user@),
            self.root_of(user@) == root,
        ensures
            r is Ok <==> self.parent_ok(user@, parent_uid),
            r is Ok ==> r->Ok_0 == self.parent_keyring_spec(user@, parent_uid),
            r is Err ==> r->Err_0 == ApiError::Forbidden,
    {
        match parent_uid {
            None => Ok(root),
            Some(p) => {
                if !self.has_access(root, p, DEPTH_LIMIT) {
                    return Err(ApiError::Forbidden);
                }
                match self.lookup_file(p) {
                    Some(fi) => {
                        proof {
                            self.lemma_file_at(fi as int);
                        }
                        match self.files[fi].keyring_id {
                            Some(k) => Ok(k),
                            None => Err(ApiError::Forbidden),
                        }
                    },
                    None => Err(ApiError::Forbidden),
                }
            },
        }
    }

    /// Find the first edge of keyring `pk` whose target is a plain file
    /// named `name`; returns the edge index and the file's index.
    fn find_upload_match(&self, pk: KeyringId, name: &str) -> (r: Option<(usize, usize)>)
        requires
            self.wf(),
        ensures
            match r {
                Some((j, fi)) => self.upload_match(pk, name@, j as int) && fi
                    < self.files@.len() && fi as int == self.file_at(self.keys@[j as int].target)
                    && (forall|j2: int| 0 <= j2 < j ==> !self.upload_match(pk, name@, j2)),
                None => !self.has_upload_match(pk, name@),
            },
    {
        let n = self.keys.len();
        for j in 0..n
            invariant
                self.wf(),
                n == self.keys@.len(),
                forall|j2: int| 0 <= j2 < j ==> !self.upload_match(pk, name@, j2),
        {
            if self.keys[j].keyring_id == pk {
                match self.lookup_file(self.keys[j].target) {
                    Some(fi) => {
                        proof {
                            self.lemma_file_at(fi as int);
                        }
                        if self.files[fi].keyring_id.is_none()
                            && str_eq(self.files[fi].name.as_str(), name) {
                            return Some((j, fi));
                        }
                    },
                    None => {},
                }
            }
        }
        None
    }

    /// Upload a file: overwrite in place when an edge of the parent keyring
    /// already points at a plain file with the same encrypted name, insert a
    /// fresh file and a fresh edge otherwise.  The match is on the encrypted
    /// name within the chosen parent keyring only, and never on folders, so
    /// an update can touch no other keyring's files.
    pub fn upload_file(
        &mut self,
        session_user: &str,
        req: UploadFileRequest,
        new_id: FileId,
        now_ms: u64,
    ) -> (r: Result<UploadStatus, ApiError>)
        requires
            old(self).wf(),
            old(self).has_user(session_user@),
            !old(self).has_file(new_id),
        ensures
            final(self).wf(),
            final(self).users@ == old(self).users@,
            final(self).sessions@ == old(self).sessions@,
            final(self).next_keyring == old(self).next_keyring,
            r is Err <==> !old(self).parent_ok(session_user@, req.parent_uid),
            r is Err ==> r->Err_0 == ApiError::Forbidden && final(self).files@ == old(self).files@
                && final(self).keys@ == old(self).keys@,
            r == Ok::<UploadStatus, ApiError>(UploadStatus::Updated) ==> {
                let pk = old(self).parent_keyring_spec(session_user@, req.parent_uid);
                &&& old(self).has_upload_match(pk, req.filename@)
                &&& final(self).keys@ == old(self).keys@
                &&& exists|j: int|
                    {
                        &&& #[trigger] old(self).upload_match(pk, req.filename@, j)
                        &&& forall|j2: int| 0 <= j2 < j ==> !old(self).upload_match(
                            pk,
                            req.filename@,
                            j2,
                        )
                        &&& {
                            let fi = old(self).file_at(old(self).keys@[j].target);
                            let f0 = old(self).files@[fi];
                            final(self).files@ == old(self).files@.update(
                                fi,
                                File {
                                    id: f0.id,
                                    name: f0.name,
                                    mtime: now_ms,
                                    sz: req.file.len() as u64,
                                    data: Some(req.file),
                                    keyring_id: f0.keyring_id,
                                },
                            )
                        }
                    }
            },
            r == Ok::<UploadStatus, ApiError>(UploadStatus::Created) ==> {
                let pk = old(self).parent_keyring_spec(session_user@, req.parent_uid);
                &&& !old(self).has_upload_match(pk, req.filename@)
                &&& final(self).files@ == old(self).files@.push(
                    File {
                        id: new_id,
                        name: req.filename,
                        mtime: now_ms,
                        sz: req.file.len() as u64,
                        data: Some(req.file),
                        keyring_id: None,
                    },
                )
                &&& final(self).keys@ == old(self).keys@.push(
                    Key { target: new_id, key: req.encrypted_key, keyring_id: pk },
                )
            },
            r is Ok ==> (r->Ok_0 == UploadStatus::Updated <==> old(self).has_upload_match(
                old(self).parent_keyring_spec(session_user@, req.parent_uid),
                req.filename@,
            )),
    {
        let ui = match self.lookup_user(session_user) {
            Some(i) => i,
            None => {
                proof {
                    assert(false);
                }
                return Err(ApiError::Unauthorized);
            },
        };
        let root = self.users[ui].root_keyring;
        proof {
            self.lemma_user_at(ui as int);
        }
        let pk = match self.resolve_parent(root, req.parent_uid, Ghost(session_user@)) {
            Ok(k) => k,
            Err(e) => {
                return Err(e);
            },
        };
        match self.find_upload_match(pk, req.filename.as_str()) {
            Some((_j, fi)) => {
                let f0_id = self.files[fi].id;
                let f0_name = self.files[fi].name.clone();
                let f0_keyring = self.files[fi].keyring_id;
                let newf = File {
                    id: f0_id,
                    name: f0_name,
                    mtime: now_ms,
                    sz: req.file.len() as u64,
                    data: Some(req.file),
                    keyring_id: f0_keyring,
                };
                self.files.set(fi, newf);
                proof {
                    let os = *old(self);
                    let ns = *self;
                    assert(forall|i: int|
                        0 <= i < ns.files@.len() ==> (#[trigger] ns.files@[i]).id
                            == os.files@[i].id);
                    assert forall|t: FileId| os.has_file(t) implies ns.has_file(t) by {
                        let i = choose|i: int|
                            0 <= i < os.files@.len() && (#[trigger] os.files@[i]).id == t;
                        assert(ns.files@[i].id == t);
                    }
                    assert(ns.wf());
                }
                Ok(UploadStatus::Updated)
            },
            None => {
                let sz = req.file.len() as u64;
                self.files.push(
                    File {
                        id: new_id,
                        name: req.filename,
                        mtime: now_ms,
                        sz,
                        data: Some(req.file),
                        keyring_id: None,
                    },
                );
                self.keys.push(Key { target: new_id, key: req.encrypted_key, keyring_id: pk });
                proof {
                    let os = *old(self);
                    let ns = *self;
                    assert forall|t: FileId| os.has_file(t) implies ns.has_file(t) by {
                        let i = choose|i: int|
                            0 <= i < os.files@.len() && (#[trigger] os.files@[i]).id == t;
                        assert(ns.files@[i].id == t);
                    }
                    assert(ns.has_file(new_id)) by {
                        assert(ns.files@[ns.files@.len() - 1].id == new_id);
                    }
                    assert(os.keyring_exists(pk)) by {
                        if req.parent_uid is Some {
                            let p = req.parent_uid->Some_0;
                            assert(os.files@[os.file_at(p)].keyring_id is Some);
                        } else {
                            assert(os.keyring_exists(
                                os.users@[os.user_at(session_user@)].root_keyring,
                            ));
                        }
                    }
                    assert(ns.wf());
                }
                Ok(UploadStatus::Created)
            },
        }
    }

    /// Upload drawing the file id itself, as the service does: a fresh
    /// random identifier, retried into an error only on the (cryptographically
    /// negligible) collision.  Returns the id the file was stored under.
    pub fn upload_file_with_fresh_id(
        &mut self,
        session_user: &str,
        req: UploadFileRequest,
        now_ms: u64,
    ) -> (r: Result<(UploadStatus, FileId), ApiError>)
        requires
            old(self).wf(),
            old(self).has_user(session_user@),
        ensures
            final(self).wf(),
            final(self).users@ == old(self).users@,
            final(self).sessions@ == old(self).sessions@,
            final(self).next_keyring == old(self).next_keyring,
            r is Err ==> final(self).files@ == old(self).files@ && final(self).keys@ == old(
                self,
            ).keys@,
            r is Err ==> r->Err_0 == ApiError::Forbidden || r->Err_0 == ApiError::Conflict,
            r == Err::<(UploadStatus, FileId), ApiError>(ApiError::Forbidden) ==> !old(
                self,
            ).parent_ok(session_user@, req.parent_uid),
            !old(self).parent_ok(session_user@, req.parent_uid) ==> r is Err,
            r matches Ok((st, id)) ==> {
                let pk = old(self).parent_keyring_spec(session_user@, req.parent_uid);
                &&& old(self).parent_ok(session_user@, req.parent_uid)
                &&& !old(self).has_file(id)
                &&& (st == UploadStatus::Updated <==> old(self).has_upload_match(
                    pk,
                    req.filename@,
                ))
                &&& (st == UploadStatus::Created ==> final(self).files@ == old(self).files@.push(
                    File {
                        id,
                        name: req.filename,
                        mtime: now_ms,
                        sz: req.file.len() as u64,
                        data: Some(req.file),
                        keyring_id: None,
                    },
                ) && final(self).keys@ == old(self).keys@.push(
                    Key { target: id, key: req.encrypted_key, keyring_id: pk },
                ))
                &&& (st == UploadStatus::Updated ==> final(self).keys@ == old(self).keys@)
            },
    {
        let new_id = crate::crypto::fresh_file_id();
        match self.lookup_file(new_id) {
            Some(_) => Err(ApiError::Conflict),
            None => {
                match self.upload_file(session_user, req, new_id, now_ms) {
                    Ok(st) => Ok((st, new_id)),
                    Err(e) => Err(e),
                }
            },
        }
    }

    /// Create an empty folder with a fresh keyring under the chosen parent.
    pub fn create_folder(
        &mut self,
        session_user: &str,
        req: CreateFolderRequest,
        new_id: FileId,
        now_ms: u64,
    ) -> (r: Result<KeyringId, ApiError>)
        requires
            old(self).wf(),
            old(self).has_user(session_user@),
            !old(self).has_file(new_id),
            old(self).next_keyring < u64::MAX,
        ensures
            final(self).wf(),
            final(self).users@ == old(self).users@,
            final(self).sessions@ == old(self).sessions@,
            r is Err <==> !old(self).parent_ok(session_user@, req.parent_uid),
            r is Err ==> r->Err_0 == ApiError::Forbidden && final(self).files@ == old(self).files@
                && final(self).keys@ == old(self).keys@ && final(self).next_keyring == old(
                self,
            ).next_keyring,
            r is Ok ==> {
                &&& r->Ok_0 == old(self).next_keyring
                &&& final(self).next_keyring == old(self).next_keyring + 1
                &&& final(self).files@ == old(self).files@.push(
                    File {
                        id: new_id,
                        name: req.filename,
                        mtime: now_ms,
                        sz: 0,
                        data: None,
                        keyring_id: Some(old(self).next_keyring),
                    },
                )
                &&& final(self).keys@ == old(self).keys@.push(
                    Key {
                        target: new_id,
                        key: req.encrypted_key,
                        keyring_id: old(self).parent_keyring_spec(session_user@, req.parent_uid),
                    },
                )
            },
    {
        let ui = match self.lookup_user(session_user) {
            Some(i) => i,
            None => {
                proof {
                    assert(false);
                }
                return Err(ApiError::Unauthorized);
            },
        };
        let root = self.users[ui].root_keyring;
        proof {
            self.lemma_user_at(ui as int);
        }
        let pk = match self.resolve_parent(root, req.parent_uid, Ghost(session_user@)) {
            Ok(k) => k,
            Err(e) => {
                return Err(e);
            },
        };
        let folder_keyring = self.next_keyring;
        self.next_keyring = self.next_keyring + 1;
        self.files.push(
            File {
                id: new_id,
                name: req.filename,
                mtime: now_ms,
                sz: 0,
                data: None,
                keyring_id: Some(folder_keyring),
            },
        );
        self.keys.push(Key { target: new_id, key: req.encrypted_key, keyring_id: pk });
        proof {
            let os = *old(self);
            let ns = *self;
            assert forall|t: FileId| os.has_file(t) implies ns.has_file(t) by {
                let i = choose|i: int| 0 <= i < os.files@.len() && (#[trigger] os.files@[i]).id == t;
                assert(ns.files@[i].id == t);
            }
            assert(ns.has_file(new_id)) by {
                assert(ns.files@[ns.files@.len() - 1].id == new_id);
            }
            assert(os.keyring_exists(pk)) by {
                if req.parent_uid is Some {
                    let p = req.parent_uid->Some_0;
                    assert(os.files@[os.file_at(p)].keyring_id is Some);
                } else {
                    assert(os.keyring_exists(os.users@[os.user_at(session_user@)].root_keyring));
                }
            }
            assert(ns.wf());
        }
        Ok(folder_keyring)
    }

    /// Serve the stored (ciphertext) file exactly when the caller's root
    /// keyring reaches it.
    pub fn download_file(&self, session_user: &str, file_uid: FileId) -> (r: Result<File, ApiError>)
        requires
            self.wf(),
            self.has_user(session_user@),
        ensures
            r is Ok <==> self.reaches(self.root_of(session_user@), file_uid, DEPTH_LIMIT as nat),
            r is Err ==> r->Err_0 == ApiError::Forbidden,
            r is Ok ==> self.has_file(file_uid) && file_like(r->Ok_0, self.file_of(file_uid)),
    {
        let ui = match self.lookup_user(session_user) {
            Some(i) => i,
            None => {
                proof {
                    assert(false);
                }
                return Err(ApiError::Unauthorized);
            },
        };
        let root = self.users[ui].root_keyring;
        proof {
            self.lemma_user_at(ui as int);
        }
        if !self.has_access(root, file_uid, DEPTH_LIMIT) {
            return Err(ApiError::Forbidden);
        }
        proof {
            self.lemma_reaches_has_file(root, file_uid, DEPTH_LIMIT as nat);
        }
        match self.lookup_file(file_uid) {
            Some(fi) => {
                proof {
                    self.lemma_file_at(fi as int);
                }
                let f = &self.files[fi];
                let data = match &f.data {
                    Some(d) => Some(clone_bytes(d)),
                    None => None,
                };
                Ok(
                    File {
                        id: f.id,
                        name: f.name.clone(),
                        mtime: f.mtime,
                        sz: f.sz,
                        data,
                        keyring_id: f.keyring_id,
                    },
                )
            },
            None => {
                proof {
                    assert(false);
                }
                Err(ApiError::Forbidden)
            },
        }
    }

    /// Delete a file: every edge pointing at it goes, then the row itself.
    /// Deleting a folder orphans its keyring and descendants rather than
    /// cascading: nothing can reach them afterwards, and no other user's
    /// files can disappear through a shared folder's deletion.
    pub fn delete_file(&mut self, session_user: &str, file_uid: FileId) -> (r: Result<
        (),
        ApiError,
    >)
        requires
            old(self).wf(),
            old(self).has_user(session_user@),
        ensures
            final(self).wf(),
            final(self).users@ == old(self).users@,
            final(self).sessions@ == old(self).sessions@,
            final(self).next_keyring == old(self).next_keyring,
            r is Err <==> !old(self).reaches(
                old(self).root_of(session_user@),
                file_uid,
                DEPTH_LIMIT as nat,
            ),
            r is Err ==> r->Err_0 == ApiError::Forbidden && final(self).files@ == old(self).files@
                && final(self).keys@ == old(self).keys@,
            r is Ok ==> final(self).keys@ == old(self).keys@.filter(
                |e: Key| e.target != file_uid,
            ) && final(self).files@ == old(self).files@.remove(old(self).file_at(file_uid)),
    {
        let ui = match self.lookup_user(session_user) {
            Some(i) => i,
            None => {
                proof {
                    assert(false);
                }
                return Err(ApiError::Unauthorized);
            },
        };
        let root = self.users[ui].root_keyring;
        proof {
            self.lemma_user_at(ui as int);
        }
        if !self.has_access(root, file_uid, DEPTH_LIMIT) {
            return Err(ApiError::Forbidden);
        }
        proof {
            self.lemma_reaches_has_file(root, file_uid, DEPTH_LIMIT as nat);
        }
        let fi = match self.lookup_file(file_uid) {
            Some(fi) => fi,
            None => {
                proof {
                    assert(false);
                }
                return Err(ApiError::Forbidden);
            },
        };
        proof {
            self.lemma_file_at(fi as int);
        }
        self.remove_edges_to(file_uid);
        self.files.remove(fi);
        proof {
            let os = *old(self);
            let ns = *self;
            let pred = |e: Key| e.target != file_uid;
            assert forall|j: int|
                0 <= j < ns.keys@.len() implies ns.has_file(
                (#[trigger] ns.keys@[j]).target,
            ) && ns.keyring_exists(ns.keys@[j].keyring_id) && ns.keys@[j].target != file_uid by {
                lemma_filter_subset(os.keys@, pred, j);
                os.keys@.lemma_filter_pred(pred, j);
                let e = ns.keys@[j];
                let j0 = choose|j0: int| 0 <= j0 < os.keys@.len() && os.keys@[j0] == e;
                assert(os.has_file(e.target));
                let i0 = choose|i0: int|
                    0 <= i0 < os.files@.len() && (#[trigger] os.files@[i0]).id == e.target;
                if i0 < fi {
                    assert(ns.files@[i0].id == e.target);
                } else {
                    assert(i0 != fi);
                    assert(ns.files@[i0 - 1].id == e.target);
                }
            }
            assert(ns.wf());
        }
        Ok(())
    }

    /// Remove every edge whose target is `file_uid`.
    fn remove_edges_to(&mut self, file_uid: FileId)
        ensures
            final(self).keys@ == old(self).keys@.filter(|e: Key| e.target != file_uid),
            final(self).users@ == old(self).users@,
            final(self).files@ == old(self).files@,
            final(self).sessions@ == old(self).sessions@,
            final(self).next_keyring == old(self).next_keyring,
    {
        let ghost orig = self.keys@;
        let ghost pred = |e: Key| e.target != file_uid;
        let mut i: usize = 0;
        let ghost j: int = 0;
        proof {
            reveal(Seq::filter);
            assert(self.keys@ =~= orig.take(j).filter(pred) + orig.skip(j));
        }
        while i < self.keys.len()
            invariant
                pred == (|e: Key| e.target != file_uid),
                0 <= j <= orig.len(),
                i == orig.take(j).filter(pred).len(),
                self.keys@ =~= orig.take(j).filter(pred) + orig.skip(j),
                self.users@ == old(self).users@,
                self.files@ == old(self).files@,
                self.sessions@ == old(self).sessions@,
                self.next_keyring == old(self).next_keyring,
            decreases orig.len() - j,
        {
            proof {
                reveal(Seq::filter);
                orig.take(j).lemma_filter_len(pred);
                assert(j < orig.len());
                assert(self.keys@[i as int] == orig.skip(j)[0]);
                assert(orig.skip(j)[0] == orig[j]);
                assert(orig.take(j + 1).drop_last() =~= orig.take(j));
                assert(orig.take(j + 1).last() == orig[j]);
            }
            if self.keys[i].target == file_uid {
                self.keys.remove(i);
                proof {
                    reveal(Seq::filter);
                    assert(!pred(orig[j]));
                    assert(orig.take(j + 1).drop_last() == orig.take(j));
                    assert(orig.take(j + 1).filter(pred) =~= orig.take(j).filter(pred));
                    assert(self.keys@ =~= orig.take(j + 1).filter(pred) + orig.skip(j + 1));
                    j = j + 1;
                }
            } else {
                i = i + 1;
                proof {
                    reveal(Seq::filter);
                    assert(orig.take(j + 1).filter(pred) =~= orig.take(j).filter(pred).push(
                        orig[j],
                    ));
                    assert(self.keys@ =~= orig.take(j + 1).filter(pred) + orig.skip(j + 1));
                    j = j + 1;
                }
            }
        }
        proof {
            orig.take(j).lemma_filter_len(pred);
            assert(j == orig.len());
            assert(orig.take(j) =~= orig);
            assert(self.keys@ =~= orig.filter(pred));
        }
    }

    /// Share a file: wrap one new edge into the target user's root keyring.
    pub fn share_file(&mut self, session_user: &str, req: ShareFileRequest) -> (r: Result<
        (),
        ApiError,
    >)
        requires
            old(self).wf(),
            old(self).has_user(session_user@),
        ensures
            final(self).wf(),
            final(self).users@ == old(self).users@,
            final(self).files@ == old(self).files@,
            final(self).sessions@ == old(self).sessions@,
            final(self).next_keyring == old(self).next_keyring,
            r is Err ==> final(self).keys@ == old(self).keys@,
            r == Err::<(), ApiError>(ApiError::Forbidden) <==> !old(self).reaches(
                old(self).root_of(session_user@),
                req.file_uid,
                DEPTH_LIMIT as nat,
            ),
            r == Err::<(), ApiError>(ApiError::NotFound) <==> old(self).reaches(
                old(self).root_of(session_user@),
                req.file_uid,
                DEPTH_LIMIT as nat,
            ) && !old(self).has_user(req.target_user@),
            r is Ok <==> old(self).reaches(old(self).root_of(session_user@), req.file_uid, DEPTH_LIMIT as nat)
                && old(self).has_user(req.target_user@),
            r is Ok ==> final(self).keys@ == old(self).keys@.push(
                Key {
                    target: req.file_uid,
                    key: req.encrypted_key,
                    keyring_id: old(self).root_of(req.target_user@),
                },
            ),
    {
        let ui = match self.lookup_user(session_user) {
            Some(i) => i,
            None => {
                proof {
                    assert(false);
                }
                return Err(ApiError::Unauthorized);
            },
        };
        let root = self.users[ui].root_keyring;
        proof {
            self.lemma_user_at(ui as int);
        }
        if !self.has_access(root, req.file_uid, DEPTH_LIMIT) {
            return Err(ApiError::Forbidden);
        }
        let ti = match self.lookup_user(req.target_user.as_str()) {
            Some(i) => i,
            None => {
                return Err(ApiError::NotFound);
            },
        };
        let target_root = self.users[ti].root_keyring;
        proof {
            self.lemma_user_at(ti as int);
            self.lemma_reaches_has_file(root, req.file_uid, DEPTH_LIMIT as nat);
        }
        self.keys.push(Key { target: req.file_uid, key: req.encrypted_key, keyring_id: target_root });
        proof {
            assert(self.wf());
        }
        Ok(())
    }

    /// Unshare a file: drop every edge pointing at it, insert one fresh edge
    /// under the caller's chosen parent, and replace name, content and key
    /// with the re-encrypted versions.
    pub fn unshare_file(
        &mut self,
        session_user: &str,
        req: RevokeShareFileRequest,
        now_ms: u64,
    ) -> (r: Result<UnshareStatus, ApiError>)
        requires
            old(self).wf(),
            old(self).has_user(session_user@),
        ensures
            final(self).wf(),
            final(self).users@ == old(self).users@,
            final(self).sessions@ == old(self).sessions@,
            final(self).next_keyring == old(self).next_keyring,
            r is Err <==> !(old(self).reaches(
                old(self).root_of(session_user@),
                req.file_uid,
                DEPTH_LIMIT as nat,
            ) && old(self).parent_ok(session_user@, req.parent_uid)),
            r is Err ==> r->Err_0 == ApiError::Forbidden && final(self).files@ == old(self).files@
                && final(self).keys@ == old(self).keys@,
            r == Ok::<UnshareStatus, ApiError>(UnshareStatus::FolderNotSupported) <==> (r is Ok
                && old(self).is_folder(req.file_uid)),
            r == Ok::<UnshareStatus, ApiError>(UnshareStatus::FolderNotSupported)
                ==> final(self).files@ == old(self).files@
                && final(self).keys@ == old(self).keys@,
            r == Ok::<UnshareStatus, ApiError>(UnshareStatus::Done) ==> {
                let pk = old(self).parent_keyring_spec(session_user@, req.parent_uid);
                &&& final(self).keys@ == old(self).keys@.filter(
                    |e: Key| e.target != req.file_uid,
                ).push(Key { target: req.file_uid, key: req.encrypted_key, keyring_id: pk })
                &&& final(self).files@ == old(self).files@.update(
                    old(self).file_at(req.file_uid),
                    File {
                        id: req.file_uid,
                        name: req.filename,
                        mtime: now_ms,
                        sz: req.file.len() as u64,
                        data: Some(req.file),
                        keyring_id: None,
                    },
                )
            },
    {
        let ui = match self.lookup_user(session_user) {
            Some(i) => i,
            None => {
                proof {
                    assert(false);
                }
                return Err(ApiError::Unauthorized);
            },
        };
        let root = self.users[ui].root_keyring;
        proof {
            self.lemma_user_at(ui as int);
        }
        if !self.has_access(root, req.file_uid, DEPTH_LIMIT) {
            return Err(ApiError::Forbidden);
        }
        let pk = match self.resolve_parent(root, req.parent_uid, Ghost(session_user@)) {
            Ok(k) => k,
            Err(e) => {
                return Err(e);
            },
        };
        proof {
            self.lemma_reaches_has_file(root, req.file_uid, DEPTH_LIMIT as nat);
        }
        let fi = match self.lookup_file(req.file_uid) {
            Some(fi) => fi,
            None => {
                proof {
                    assert(false);
                }
                return Err(ApiError::Forbidden);
            },
        };
        proof {
            self.lemma_file_at(fi as int);
        }
        if self.files[fi].keyring_id.is_some() {
            return Ok(UnshareStatus::FolderNotSupported);
        }
        self.remove_edges_to(req.file_uid);
        self.keys.push(Key { target: req.file_uid, key: req.encrypted_key, keyring_id: pk });
        let newf = File {
            id: req.file_uid,
            name: req.filename,
            mtime: now_ms,
            sz: req.file.len() as u64,
            data: Some(req.file),
            keyring_id: None,
        };
        self.files.set(fi, newf);
        proof {
            let os = *old(self);
            let ns = *self;
            let pred = |e: Key| e.target != req.file_uid;
            assert(forall|i: int|
                0 <= i < ns.files@.len() ==> (#[trigger] ns.files@[i]).id == os.files@[i].id);
            assert forall|t: FileId| os.has_file(t) implies ns.has_file(t) by {
                let i = choose|i: int| 0 <= i < os.files@.len() && (#[trigger] os.files@[i]).id == t;
                assert(ns.files@[i].id == t);
            }
            assert(os.keyring_exists(pk)) by {
                if req.parent_uid is Some {
                    let p = req.parent_uid->Some_0;
                    assert(os.files@[os.file_at(p)].keyring_id is Some);
                } else {
                    assert(os.keyring_exists(os.users@[os.user_at(session_user@)].root_keyring));
                }
            }
            assert forall|j: int|
                0 <= j < ns.keys@.len() implies ns.has_file(
                (#[trigger] ns.keys@[j]).target,
            ) && ns.keyring_exists(ns.keys@[j].keyring_id) by {
                if j < ns.keys@.len() - 1 {
                    lemma_filter_subset(os.keys@, pred, j);
                    let e = ns.keys@[j];
                    let j0 = choose|j0: int| 0 <= j0 < os.keys@.len() && os.keys@[j0] == e;
                    assert(os.has_file(e.target));
                } else {
                    assert(ns.keys@[j].target == req.file_uid);
                    assert(ns.has_file(req.file_uid));
                }
            }
            assert(ns.wf());
        }
        Ok(UnshareStatus::Done)
    }
}

/// Field-wise agreement of two files, comparing the views of the owned
/// buffers (a served copy cannot be claimed equal as a value).
pub open spec fn file_like(a: File, b: File) -> bool {
    &&& a.id == b.id
    &&& a.name@ == b.name@
    &&& a.mtime == b.mtime
    &&& a.sz == b.sz
    &&& (match (a.data, b.data) {
        (Some(x), Some(y)) => x@ == y@,
        (None, None) => true,
        _ => false,
    })
    &&& a.keyring_id == b.keyring_id
}

} // verus!
