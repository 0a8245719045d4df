//! The server's persistent state: users, files, keyrings, edges and sessions.
//!
//! Keyrings are identified by numbers below `next_keyring`; a keyring is
//! either the root keyring of exactly one user or the folder keyring of
//! exactly one folder.  An edge ([`Key`]) says "the symmetric key of file
//! `target` lies in keyring `keyring_id`, wrapped under that keyring's key".

use vstd::prelude::*;
use vstd::string::*;
use crate::{FileId, KeyringId};

verus! {

/// A registered user.  The server never sees the private key in the clear:
/// `encrypted_private_key` is sealed under the password-derived export key.
pub struct User {
    pub username: String,
    pub password_envelope: Vec<u8>,
    pub public_key: Vec<u8>,
    pub encrypted_private_key: Vec<u8>,
    pub root_keyring: KeyringId,
}

/// An edge of the access graph: the symmetric key of `target`, wrapped under
/// the key of keyring `keyring_id`.
pub struct Key {
    pub target: FileId,
    pub key: Vec<u8>,
    pub keyring_id: KeyringId,
}

/// A stored file or folder.  `name` is an AEAD ciphertext in base64; `data`
/// is present exactly when this is a file, `keyring_id` exactly when this is
/// a folder.
#[derive(Debug, PartialEq, Eq)]
pub struct File {
    pub id: FileId,
    pub name: String,
    pub mtime: u64,
    pub sz: u64,
    pub data: Option<Vec<u8>>,
    pub keyring_id: Option<KeyringId>,
}

/// A bearer session: `token` is the base64 session key from the key
/// exchange, valid strictly before `expiration_date` (milliseconds).
#[derive(Clone, Debug, PartialEq, Eq)]
pub struct Session {
    pub token: String,
    pub user: String,
    pub expiration_date: u64,
}

/// The whole server state.
pub struct ServerStore {
    pub users: Vec<User>,
    pub files: Vec<File>,
    pub keys: Vec<Key>,
    pub sessions: Vec<Session>,
    pub next_keyring: KeyringId,
}

/// String equality with a specification: two strings are equal exactly when
/// their character sequences are.  Works over the UTF-8 bytes, which encode
/// the characters injectively.
pub fn str_eq(a: &str, b: &str) -> (r: bool)
    ensures
        r == (a@ == b@),
{
    proof {
        vstd::utf8::encode_utf8_decode_utf8(a@);
        vstd::utf8::encode_utf8_decode_utf8(b@);
    }
    let ab = a.as_bytes();
    let bb = b.as_bytes();
    if ab.len() != bb.len() {
        return false;
    }
    let n = ab.len();
    for i in 0..n
        invariant
            n == ab@.len() == bb@.len(),
            ab@ == a.spec_bytes(),
            bb@ == b.spec_bytes(),
            forall|j: int| 0 <= j < i ==> ab@[j] == bb@[j],
    {
        if ab[i] != bb[i] {
            assert(a.spec_bytes() != b.spec_bytes());
            return false;
        }
    }
    assert(a.spec_bytes() =~= b.spec_bytes());
    true
}

impl File {
    /// A folder carries a keyring and no data; a file carries data and no
    /// keyring.
    pub open spec fn wf(self) -> bool {
        self.data is Some <==> self.keyring_id is None
    }

    pub open spec fn is_folder(self) -> bool {
        self.keyring_id is Some
    }
}

impl ServerStore {
    pub fn new() -> (r: ServerStore)
        ensures
            r.wf(),
            r.users@ =~= Seq::<User>::empty(),
            r.files@ =~= Seq::<File>::empty(),
            r.keys@ =~= Seq::<Key>::empty(),
            r.sessions@ =~= Seq::<Session>::empty(),
            r.next_keyring == 0,
    {
        ServerStore {
            users: Vec::new(),
            files: Vec::new(),
            keys: Vec::new(),
            sessions: Vec::new(),
            next_keyring: 0,
        }
    }

    /// A keyring id is live once it has been issued.
    pub open spec fn keyring_exists(self, kr: KeyringId) -> bool {
        kr < self.next_keyring
    }

    pub open spec fn has_user(self, name: Seq<char>) -> bool {
        exists|i: int| 0 <= i < self.users@.len() && self.users@[i].username@ == name
    }

    /// The index of the user named `name` (well defined under `wf`).
    pub open spec fn user_at(self, name: Seq<char>) -> int {
        choose|i: int| 0 <= i < self.users@.len() && self.users@[i].username@ == name
    }

    pub open spec fn user_of(self, name: Seq<char>) -> User {
        self.users@[self.user_at(name)]
    }

    /// The root keyring of the user named `name`.
    pub open spec fn root_of(self, name: Seq<char>) -> KeyringId {
        self.user_of(name).root_keyring
    }

    pub open spec fn has_file(self, id: FileId) -> bool {
        exists|i: int| 0 <= i < self.files@.len() && self.files@[i].id == id
    }

    pub open spec fn file_at(self, id: FileId) -> int {
        choose|i: int| 0 <= i < self.files@.len() && self.files@[i].id == id
    }

    pub open spec fn file_of(self, id: FileId) -> File {
        self.files@[self.file_at(id)]
    }

    /// Whether `id` names a folder (a file that owns a keyring).
    pub open spec fn is_folder(self, id: FileId) -> bool {
        self.has_file(id) && self.file_of(id).keyring_id is Some
    }

    pub open spec fn folder_keyring(self, id: FileId) -> KeyringId {
        self.file_of(id).keyring_id->Some_0
    }

    pub open spec fn has_session(self, token: Seq<char>) -> bool {
        exists|i: int| 0 <= i < self.sessions@.len() && self.sessions@[i].token@ == token
    }

    pub open spec fn session_at(self, token: Seq<char>) -> int {
        choose|i: int| 0 <= i < self.sessions@.len() && self.sessions@[i].token@ == token
    }

    pub open spec fn session_of(self, token: Seq<char>) -> Session {
        self.sessions@[self.session_at(token)]
    }

    /// Whether keyring `kr` is the folder keyring of some stored folder.
    pub open spec fn is_folder_keyring(self, kr: KeyringId) -> bool {
        exists|i: int| 0 <= i < self.files@.len() && self.files@[i].keyring_id == Some(kr)
    }

    /// Whether keyring `kr` is the root keyring of some user.
    pub open spec fn is_root_keyring(self, kr: KeyringId) -> bool {
        exists|i: int| 0 <= i < self.users@.len() && self.users@[i].root_keyring == kr
    }

    /// Well-formedness of the whole store.
    pub open spec fn wf(self) -> bool {
        // usernames are unique
        &&& (forall|i: int, j: int|
            0 <= i < j < self.users@.len() ==> self.users@[i].username@ != self.users@[j].username@)
        // file ids are never reused
        &&& (forall|i: int, j: int|
            0 <= i < j < self.files@.len() ==> self.files@[i].id != self.files@[j].id)
        // session tokens are unique
        &&& (forall|i: int, j: int|
            0 <= i < j < self.sessions@.len()
                ==> self.sessions@[i].token@ != self.sessions@[j].token@)
        // every file is exactly a file or a folder
        &&& (forall|i: int| 0 <= i < self.files@.len() ==> (#[trigger] self.files@[i]).wf())
        // all referenced keyrings have been issued
        &&& (forall|i: int|
            0 <= i < self.users@.len()
                ==> self.keyring_exists((#[trigger] self.users@[i]).root_keyring))
        &&& (forall|i: int|
            0 <= i < self.files@.len() && (#[trigger] self.files@[i]).keyring_id is Some
                ==> self.keyring_exists(self.files@[i].keyring_id->Some_0))
        &&& (forall|i: int|
            0 <= i < self.keys@.len()
                ==> self.keyring_exists((#[trigger] self.keys@[i]).keyring_id))
        // root keyrings are pairwise distinct
        &&& (forall|i: int, j: int|
            0 <= i < j < self.users@.len()
                ==> self.users@[i].root_keyring != self.users@[j].root_keyring)
        // a folder keyring belongs to exactly one folder
        &&& (forall|i: int, j: int|
            0 <= i < j < self.files@.len() && self.files@[i].keyring_id is Some
                ==> self.files@[i].keyring_id != self.files@[j].keyring_id)
        // no keyring is both a root and a folder keyring
        &&& (forall|i: int, j: int|
            0 <= i < self.users@.len() && 0 <= j < self.files@.len()
                ==> (#[trigger] self.files@[j]).keyring_id
                    != Some((#[trigger] self.users@[i]).root_keyring))
        // every edge points at a stored file
        &&& (forall|i: int|
            0 <= i < self.keys@.len() ==> self.has_file((#[trigger] self.keys@[i]).target))
    }

    /// Find the position of a user by name; `None` means no such user.
    pub fn lookup_user(&self, name: &str) -> (r: Option<usize>)
        ensures
            match r {
                Some(i) => i < self.users@.len() && self.users@[i as int].username@ == name@
                    && (forall|j: int| 0 <= j < i ==> self.users@[j].username@ != name@),
                None => !self.has_user(name@),
            },
    {
        let n = self.users.len();
        for i in 0..n
            invariant
                n == self.users@.len(),
                forall|j: int| 0 <= j < i ==> self.users@[j].username@ != name@,
        {
            if str_eq(self.users[i].username.as_str(), name) {
                return Some(i);
            }
        }
        None
    }

    /// Find the position of a file by id.
    pub fn lookup_file(&self, id: FileId) -> (r: Option<usize>)
        ensures
            match r {
                Some(i) => i < self.files@.len() && self.files@[i as int].id == id
                    && (forall|j: int| 0 <= j < i ==> self.files@[j].id != id),
                None => !self.has_file(id),
            },
    {
        let n = self.files.len();
        for i in 0..n
            invariant
                n == self.files@.len(),
                forall|j: int| 0 <= j < i ==> self.files@[j].id != id,
        {
            if self.files[i].id == id {
                return Some(i);
            }
        }
        None
    }

    /// Find the position of a session by token.
    pub fn lookup_session(&self, token: &str) -> (r: Option<usize>)
        ensures
            match r {
                Some(i) => i < self.sessions@.len() && self.sessions@[i as int].token@ == token@
                    && (forall|j: int| 0 <= j < i ==> self.sessions@[j].token@ != token@),
                None => !self.has_session(token@),
            },
    {
        let n = self.sessions.len();
        for i in 0..n
            invariant
                n == self.sessions@.len(),
                forall|j: int| 0 <= j < i ==> self.sessions@[j].token@ != token@,
        {
            if str_eq(self.sessions[i].token.as_str(), token) {
                return Some(i);
            }
        }
        None
    }

    /// Under `wf`, a user found at index `i` is the user the spec speaks of.
    pub proof fn lemma_user_at(self, i: int)
        requires
            self.wf(),
            0 <= i < self.users@.len(),
        ensures
            self.has_user(self.users@[i].username@),
            self.user_at(self.users@[i].username@) == i,
            self.user_of(self.users@[i].username@) == self.users@[i],
    {
        let name = self.users@[i].username@;
        assert(self.has_user(name));
        let k = self.user_at(name);
        if k != i {
            assert(self.users@[k].username@ == self.users@[i].username@);
        }
    }

    /// Under `wf`, a file found at index `i` is the file the spec speaks of.
    pub proof fn lemma_file_at(self, i: int)
        requires
            self.wf(),
            0 <= i < self.files@.len(),
        ensures
            self.has_file(self.files@[i].id),
            self.file_at(self.files@[i].id) == i,
            self.file_of(self.files@[i].id) == self.files@[i],
    {
        let id = self.files@[i].id;
        assert(self.has_file(id));
        let k = self.file_at(id);
        if k != i {
            assert(self.files@[k].id == self.files@[i].id);
        }
    }

    /// Under `wf`, a session found at index `i` is the session the spec
    /// speaks of.
    pub proof fn lemma_session_at(self, i: int)
        requires
            self.wf(),
            0 <= i < self.sessions@.len(),
        ensures
            self.has_session(self.sessions@[i].token@),
            self.session_at(self.sessions@[i].token@) == i,
            self.session_of(self.sessions@[i].token@) == self.sessions@[i],
    {
        let t = self.sessions@[i].token@;
        assert(self.has_session(t));
        let k = self.session_at(t);
        if k != i {
            assert(self.sessions@[k].token@ == self.sessions@[i].token@);
        }
    }
}

} // verus!
