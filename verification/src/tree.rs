//! The keyring tree: the recursive, ciphertext-indexed access graph as it
//! crosses the wire, and the client pipeline that decrypts it.
//!
//! The server sends [`KeyringWithKeysAndFiles`] with every name and wrapped
//! key still encrypted; [`KeyringWithKeysAndFiles::from_encrypted`] unwraps
//! each edge key (asymmetrically at the root, symmetrically below) and
//! decrypts each name, producing the same shape with plaintext fields.

use vstd::prelude::*;
use crate::{FileId, KeyringId};
use crate::crypto::{
    open_name, open_wrapped, unwrap_key, utf8_to_string, b64_decode, open_sealed_bytes,
    CryptoError, AEAD_KEY_LEN,
};
use crate::store::str_eq;

verus! {

/// One file or folder of the tree, without content; `keyring` is present
/// exactly when this is a folder.
pub struct FileWithoutDataWithKeyring {
    pub id: FileId,
    pub name: String,
    pub keyring: Option<KeyringWithKeysAndFiles>,
}

/// One edge of the tree: a (wrapped or unwrapped) key and its target.
pub struct KeyWithFile {
    pub file: FileWithoutDataWithKeyring,
    pub key: Vec<u8>,
    pub keyring_id: KeyringId,
}

/// A keyring and everything below it.
pub struct KeyringWithKeysAndFiles {
    pub id: KeyringId,
    pub keys: Vec<KeyWithFile>,
}

impl FileWithoutDataWithKeyring {
    pub open spec fn spec_is_folder(self) -> bool {
        self.keyring is Some
    }

    /// Whether this entry names a folder.
    pub fn is_folder(&self) -> (r: bool)
        ensures
            r == self.spec_is_folder(),
    {
        self.keyring.is_some()
    }
}

/// Every wrapped key and name of `t` decrypts under `wkey` (asymmetric when
/// `root`), recursively.
pub open spec fn tree_decryptable(t: KeyringWithKeysAndFiles, wkey: Seq<u8>, root: bool) -> bool
    decreases t, 1int,
{
    forall|i: int|
        0 <= i < t.keys@.len() ==> entry_decryptable(#[trigger] t.keys@[i], wkey, root)
}

pub open spec fn entry_decryptable(e: KeyWithFile, wkey: Seq<u8>, root: bool) -> bool
    decreases e, 0int,
{
    match open_wrapped(wkey, e.key@, root) {
        Some(k) => {
            &&& open_name(k, e.file.name@) is Some
            &&& match e.file.keyring {
                Some(sub) => tree_decryptable(sub, k, false),
                None => true,
            }
        },
        None => false,
    }
}

/// `dec` is exactly the decryption of `enc` under `wkey`.
pub open spec fn decrypts_to(
    enc: KeyringWithKeysAndFiles,
    wkey: Seq<u8>,
    root: bool,
    dec: KeyringWithKeysAndFiles,
) -> bool
    decreases enc, 1int,
{
    &&& dec.id == enc.id
    &&& dec.keys@.len() == enc.keys@.len()
    &&& forall|i: int|
        0 <= i < enc.keys@.len() ==> entry_decrypts_to(
            #[trigger] enc.keys@[i],
            wkey,
            root,
            dec.keys@[i],
        )
}

pub open spec fn entry_decrypts_to(e: KeyWithFile, wkey: Seq<u8>, root: bool, d: KeyWithFile) -> bool
    decreases e, 0int,
{
    match open_wrapped(wkey, e.key@, root) {
        Some(k) => {
            &&& d.key@ == k
            &&& d.keyring_id == e.keyring_id
            &&& d.file.id == e.file.id
            &&& match open_name(k, e.file.name@) {
                Some(n) => d.file.name@ == n,
                None => false,
            }
            &&& match (e.file.keyring, d.file.keyring) {
                (Some(sub), Some(dsub)) => decrypts_to(sub, k, false, dsub),
                (None, None) => true,
                _ => false,
            }
        },
        None => false,
    }
}

/// The tree (at any depth) holds an entry whose target has this id.
pub open spec fn contains_id(t: KeyringWithKeysAndFiles, id: FileId) -> bool
    decreases t,
{
    exists|i: int|
        0 <= i < t.keys@.len() && {
            ||| (#[trigger] t.keys@[i]).file.id == id
            ||| match t.keys@[i].file.keyring {
                Some(sub) => contains_id(sub, id),
                None => false,
            }
        }
}

/// The tree (at any depth) holds exactly this entry.
pub open spec fn contains_entry(t: KeyringWithKeysAndFiles, k: KeyWithFile) -> bool
    decreases t,
{
    exists|i: int|
        0 <= i < t.keys@.len() && {
            ||| #[trigger] t.keys@[i] == k
            ||| match t.keys@[i].file.keyring {
                Some(sub) => contains_entry(sub, k),
                None => false,
            }
        }
}

/// The entry a depth-first search returns for `id`: each edge is tried in
/// order, descending into its folder before moving on.
pub open spec fn dfs_find(t: KeyringWithKeysAndFiles, id: FileId) -> Option<KeyWithFile>
    decreases t, t.keys@.len() + 1,
{
    dfs_find_from(t, id, 0)
}

pub open spec fn dfs_find_from(t: KeyringWithKeysAndFiles, id: FileId, i: int) -> Option<
    KeyWithFile,
>
    decreases t, t.keys@.len() - i,
{
    if i < 0 || i >= t.keys@.len() {
        None
    } else if t.keys@[i].file.id == id {
        Some(t.keys@[i])
    } else {
        let deeper = match t.keys@[i].file.keyring {
            Some(sub) => dfs_find(sub, id),
            None => None,
        };
        match deeper {
            Some(k) => Some(k),
            None => dfs_find_from(t, id, i + 1),
        }
    }
}

/// The entry a one-level search by plaintext name returns: the first edge of
/// this keyring whose target carries `name`, without descending.
pub open spec fn name_find(t: KeyringWithKeysAndFiles, name: Seq<char>) -> Option<KeyWithFile> {
    name_find_from(t, name, 0)
}

pub open spec fn name_find_from(t: KeyringWithKeysAndFiles, name: Seq<char>, i: int) -> Option<
    KeyWithFile,
>
    decreases t.keys@.len() - i,
{
    if i < 0 || i >= t.keys@.len() {
        None
    } else if t.keys@[i].file.name@ == name {
        Some(t.keys@[i])
    } else {
        name_find_from(t, name, i + 1)
    }
}

/// What a one-level name search returns is an element of that level,
/// carrying the searched name.
pub proof fn lemma_name_find_member(t: KeyringWithKeysAndFiles, name: Seq<char>, i: int)
    requires
        0 <= i,
        name_find_from(t, name, i) is Some,
    ensures
        exists|j: int|
            i <= j < t.keys@.len() && #[trigger] t.keys@[j] == name_find_from(t, name, i)->0
                && t.keys@[j].file.name@ == name,
    decreases t.keys@.len() - i,
{
    if i < t.keys@.len() && t.keys@[i].file.name@ == name {
        assert(t.keys@[i] == name_find_from(t, name, i)->0);
    } else {
        lemma_name_find_member(t, name, i + 1);
        let j = choose|j: int|
            i + 1 <= j < t.keys@.len() && #[trigger] t.keys@[j] == name_find_from(t, name, i + 1)->0
                && t.keys@[j].file.name@ == name;
        assert(t.keys@[j] == name_find_from(t, name, i)->0);
    }
}

/// A path string from folder names: `/` for the root, then each name with a
/// trailing slash.
pub open spec fn path_join(names: Seq<Seq<char>>) -> Seq<char>
    decreases names.len(),
{
    if names.len() == 0 {
        seq!['/']
    } else {
        path_join(names.drop_last()) + names.last() + seq!['/']
    }
}

impl crate::store::ServerStore {
    /// The wire tree `t` is exactly what the store holds below keyring `kr`,
    /// ciphertext throughout, to the given depth: one entry per edge of `kr`,
    /// in store order, with the target's encrypted name and, for folders, the
    /// subtree.
    pub open spec fn tree_matches(self, kr: KeyringId, t: KeyringWithKeysAndFiles, fuel: nat) -> bool
        decreases fuel,
    {
        let matching = self.keys@.filter(|e: crate::store::Key| e.keyring_id == kr);
        &&& t.id == kr
        &&& t.keys@.len() == matching.len()
        &&& forall|i: int|
            0 <= i < matching.len() ==> {
                let e = matching[i];
                let entry = #[trigger] t.keys@[i];
                &&& entry.key@ == e.key@
                &&& entry.keyring_id == kr
                &&& entry.file.id == e.target
                &&& (self.has_file(e.target) ==> entry.file.name@ == self.file_of(e.target).name@)
                &&& (if self.is_folder(e.target) && fuel > 0 {
                    entry.file.keyring matches Some(sub) && self.tree_matches(
                        self.folder_keyring(e.target),
                        sub,
                        (fuel - 1) as nat,
                    )
                } else {
                    entry.file.keyring is None
                })
            }
    }

    /// Collect the edges of one keyring as wire entries, descending into
    /// folder keyrings while `fuel` lasts.
    pub fn get_files_in_keyring(&self, keyring: KeyringId, fuel: u64) -> (r: Vec<KeyWithFile>)
        requires
            self.wf(),
        ensures
            self.tree_matches(keyring, (KeyringWithKeysAndFiles { id: keyring, keys: r }), fuel as nat),
        decreases fuel,
    {
        let ghost pred = |e: crate::store::Key| e.keyring_id == keyring;
        let mut out: Vec<KeyWithFile> = Vec::new();
        let n = self.keys.len();
        proof {
            reveal(Seq::filter);
            assert(self.keys@.take(0).filter(pred) =~= Seq::<crate::store::Key>::empty());
        }
        for j in 0..n
            invariant
                self.wf(),
                pred == (|e: crate::store::Key| e.keyring_id == keyring),
                n == self.keys@.len(),
                out@.len() == self.keys@.take(j as int).filter(pred).len(),
                forall|i: int|
                    0 <= i < out@.len() ==> {
                        let e = self.keys@.take(j as int).filter(pred)[i];
                        let entry = #[trigger] out@[i];
                        &&& entry.key@ == e.key@
                        &&& entry.keyring_id == keyring
                        &&& entry.file.id == e.target
                        &&& (self.has_file(e.target) ==> entry.file.name@ == self.file_of(
                            e.target,
                        ).name@)
                        &&& (if self.is_folder(e.target) && fuel > 0 {
                            entry.file.keyring matches Some(sub) && self.tree_matches(
                                self.folder_keyring(e.target),
                                sub,
                                (fuel - 1) as nat,
                            )
                        } else {
                            entry.file.keyring is None
                        })
                    },
            decreases n - j,
        {
            proof {
                reveal(Seq::filter);
                assert(self.keys@.take(j + 1).drop_last() =~= self.keys@.take(j as int));
                assert(self.keys@.take(j + 1).last() == self.keys@[j as int]);
            }
            if self.keys[j].keyring_id == keyring {
                let target = self.keys[j].target;
                let wrapped = crate::files::clone_bytes(&self.keys[j].key);
                let (name, sub): (String, Option<KeyringWithKeysAndFiles>) = match self
                    .lookup_file(target) {
                    Some(fi) => {
                        proof {
                            self.lemma_file_at(fi as int);
                        }
                        let name = self.files[fi].name.clone();
                        let sub = match self.files[fi].keyring_id {
                            Some(sub_kr) => {
                                if fuel > 0 {
                                    Some(
                                        KeyringWithKeysAndFiles {
                                            id: sub_kr,
                                            keys: self.get_files_in_keyring(sub_kr, fuel - 1),
                                        },
                                    )
                                } else {
                                    None
                                }
                            },
                            None => None,
                        };
                        (name, sub)
                    },
                    None => {
                        proof {
                            assert(false);
                        }
                        (String::new(), None)
                    },
                };
                out.push(
                    KeyWithFile {
                        file: FileWithoutDataWithKeyring { id: target, name, keyring: sub },
                        key: wrapped,
                        keyring_id: keyring,
                    },
                );
            }
        }
        proof {
            assert(self.keys@.take(n as int) =~= self.keys@);
        }
        out
    }

    /// The full ciphertext tree of one user, from their root keyring.
    pub fn get_user_tree(&self, user: &str) -> (r: Option<KeyringWithKeysAndFiles>)
        requires
            self.wf(),
        ensures
            r is Some <==> self.has_user(user@),
            r matches Some(t) ==> self.tree_matches(
                self.root_of(user@),
                t,
                crate::access::DEPTH_LIMIT as nat,
            ),
    {
        match self.lookup_user(user) {
            Some(i) => {
                proof {
                    self.lemma_user_at(i as int);
                }
                let root = self.users[i].root_keyring;
                Some(
                    KeyringWithKeysAndFiles {
                        id: root,
                        keys: self.get_files_in_keyring(root, crate::access::DEPTH_LIMIT),
                    },
                )
            },
            None => None,
        }
    }
}

/// Containment is transitive across folder keyrings: an entry of a contained
/// folder's keyring is contained in the whole tree.
pub proof fn lemma_contains_entry_trans(
    t: KeyringWithKeysAndFiles,
    pe: KeyWithFile,
    k: KeyWithFile,
)
    requires
        contains_entry(t, pe),
        pe.file.keyring is Some,
        contains_entry(pe.file.keyring->0, k),
    ensures
        contains_entry(t, k),
    decreases t,
{
    let i = choose|i: int|
        0 <= i < t.keys@.len() && {
            ||| #[trigger] t.keys@[i] == pe
            ||| match t.keys@[i].file.keyring {
                Some(sub) => contains_entry(sub, pe),
                None => false,
            }
        };
    if t.keys@[i] == pe {
        assert(contains_entry(t, k)) by {
            assert(t.keys@[i].file.keyring matches Some(sub) && contains_entry(sub, k));
        }
    } else {
        match t.keys@[i].file.keyring {
            Some(sub) => {
                lemma_contains_entry_trans(sub, pe, k);
                assert(contains_entry(t, k)) by {
                    assert(t.keys@[i].file.keyring matches Some(s2) && contains_entry(s2, k));
                }
            },
            None => {
                assert(false);
            },
        }
    }
}

impl KeyringWithKeysAndFiles {
    /// Decrypt a whole tree as received from the server: unwrap each edge
    /// key with `key` (RSA at the root, AEAD below), decrypt each name with
    /// the unwrapped key, and recurse into folders.
    pub fn from_encrypted(encrypted_keyring: Self, key: &[u8], root: bool) -> (r: Result<
        Self,
        CryptoError,
    >)
        requires
            !root ==> key@.len() == AEAD_KEY_LEN,
        ensures
            r is Ok <==> tree_decryptable(encrypted_keyring, key@, root),
            r matches Ok(d) ==> decrypts_to(encrypted_keyring, key@, root, d),
        decreases encrypted_keyring,
    {
        let ghost enc = encrypted_keyring;
        let id = encrypted_keyring.id;
        let mut keys = encrypted_keyring.keys;
        let ghost orig = keys@;
        let mut out: Vec<KeyWithFile> = Vec::new();
        while keys.len() > 0
            invariant
                enc == encrypted_keyring,
                !root ==> key@.len() == AEAD_KEY_LEN,
                orig == enc.keys@,
                out@.len() + keys@.len() == orig.len(),
                keys@ == orig.skip(out@.len() as int),
                forall|i: int|
                    0 <= i < out@.len() ==> entry_decrypts_to(
                        #[trigger] orig[i],
                        key@,
                        root,
                        out@[i],
                    ),
                forall|i: int|
                    0 <= i < out@.len() ==> entry_decryptable(#[trigger] orig[i], key@, root),
            decreases keys@.len(),
        {
            let ghost idx = out@.len() as int;
            proof {
                assert(keys@[0] == orig[idx]);
                assert(orig[idx] == enc.keys@[idx]);
            }
            let entry = keys.remove(0);
            let k = match unwrap_key(entry.key.as_slice(), key, root) {
                Ok(k) => k,
                Err(_) => {
                    proof {
                        assert(!entry_decryptable(enc.keys@[idx], key@, root));
                    }
                    return Err(CryptoError::KeyMismatch);
                },
            };
            let name_ct = match b64_decode(entry.file.name.as_str()) {
                Ok(c) => c,
                Err(_) => {
                    proof {
                        assert(!entry_decryptable(enc.keys@[idx], key@, root));
                    }
                    return Err(CryptoError::KeyMismatch);
                },
            };
            let name_pt = match open_sealed_bytes(name_ct.as_slice(), k.as_slice()) {
                Ok(p) => p,
                Err(_) => {
                    proof {
                        assert(!entry_decryptable(enc.keys@[idx], key@, root));
                    }
                    return Err(CryptoError::KeyMismatch);
                },
            };
            let name = match utf8_to_string(name_pt) {
                Ok(n) => n,
                Err(_) => {
                    proof {
                        assert(!entry_decryptable(enc.keys@[idx], key@, root));
                    }
                    return Err(CryptoError::KeyMismatch);
                },
            };
            let sub = match entry.file.keyring {
                Some(sub_enc) => {
                    proof {
                        assert(sub_enc == enc.keys@[idx].file.keyring->Some_0);
                    }
                    match Self::from_encrypted(sub_enc, k.as_slice(), false) {
                        Ok(d) => Some(d),
                        Err(_) => {
                            proof {
                                assert(!entry_decryptable(enc.keys@[idx], key@, root));
                            }
                            return Err(CryptoError::KeyMismatch);
                        },
                    }
                },
                None => None,
            };
            let dec_entry = KeyWithFile {
                file: FileWithoutDataWithKeyring { id: entry.file.id, name, keyring: sub },
                key: k,
                keyring_id: entry.keyring_id,
            };
            out.push(dec_entry);
            proof {
                assert(entry_decrypts_to(enc.keys@[idx], key@, root, out@[idx]));
                assert(keys@ =~= orig.skip(out@.len() as int));
            }
        }
        let result = KeyringWithKeysAndFiles { id, keys: out };
        proof {
            assert(decrypts_to(enc, key@, root, result));
            assert(tree_decryptable(enc, key@, root));
        }
        Ok(result)
    }

    /// Depth-first search for the entry targeting `file_uuid`.
    pub fn get_file(&self, file_uuid: FileId) -> (r: Option<&KeyWithFile>)
        ensures
            r is Some <==> contains_id(*self, file_uuid),
            r matches Some(k) ==> k.file.id == file_uuid && contains_entry(*self, *k)
                && dfs_find(*self, file_uuid) == Some(*k),
            r is None ==> dfs_find(*self, file_uuid) is None,
        decreases *self,
    {
        let n = self.keys.len();
        for i in 0..n
            invariant
                n == self.keys@.len(),
                dfs_find(*self, file_uuid) == dfs_find_from(*self, file_uuid, i as int),
                forall|j: int|
                    0 <= j < i ==> !((#[trigger] self.keys@[j]).file.id == file_uuid || (
                    match self.keys@[j].file.keyring {
                        Some(sub) => contains_id(sub, file_uuid),
                        None => false,
                    })),
        {
            if self.keys[i].file.id == file_uuid {
                return Some(&self.keys[i]);
            }
            match &self.keys[i].file.keyring {
                Some(folder_keyring) => {
                    match folder_keyring.get_file(file_uuid) {
                        Some(found) => {
                            return Some(found);
                        },
                        None => {},
                    }
                },
                None => {},
            }
        }
        None
    }

    /// Search this keyring level only (no descent) for an entry by plaintext
    /// name: the first match, as [`name_find`] describes it.
    pub fn get_file_by_name(&self, folder_name: &str) -> (r: Option<&KeyWithFile>)
        ensures
            r is Some <==> exists|i: int|
                0 <= i < self.keys@.len() && (#[trigger] self.keys@[i]).file.name@ == folder_name@,
            r matches Some(k) ==> name_find(*self, folder_name@) == Some(*k),
            r is None ==> name_find(*self, folder_name@) is None,
    {
        let n = self.keys.len();
        for i in 0..n
            invariant
                n == self.keys@.len(),
                name_find(*self, folder_name@) == name_find_from(*self, folder_name@, i as int),
                forall|j: int| 0 <= j < i ==> (#[trigger] self.keys@[j]).file.name@ != folder_name@,
        {
            if str_eq(self.keys[i].file.name.as_str(), folder_name) {
                return Some(&self.keys[i]);
            }
        }
        None
    }
}

} // verus!
