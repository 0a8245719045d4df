//! Server-side authorization: a user may touch a file exactly when a chain
//! of edges leads from one of their keyrings to that file.
//!
//! Traversal is bounded by a depth limit so that even a malformed store (say,
//! a cyclic keyring graph) cannot make the server loop; the contract is
//! stated against the same bounded notion of reachability.

use vstd::prelude::*;
use crate::{FileId, KeyringId};
use crate::store::ServerStore;

verus! {

/// Bound on the depth of a keyring traversal.
pub const DEPTH_LIMIT: u64 = 64;

impl ServerStore {
    /// Bounded reachability from keyring `kr` to file `fid`: some edge of
    /// `kr` either targets `fid` itself, or targets a folder whose keyring
    /// reaches `fid` within `fuel` further descents.
    pub open spec fn reaches(self, kr: KeyringId, fid: FileId, fuel: nat) -> bool
        decreases fuel,
    {
        exists|j: int|
            0 <= j < self.keys@.len() && (#[trigger] self.keys@[j]).keyring_id == kr && {
                ||| self.keys@[j].target == fid
                ||| (fuel > 0 && self.is_folder(self.keys@[j].target) && self.reaches(
                    self.folder_keyring(self.keys@[j].target),
                    fid,
                    (fuel - 1) as nat,
                ))
            }
    }

    /// Reachability only ever arrives at stored files.
    pub proof fn lemma_reaches_has_file(self, kr: KeyringId, fid: FileId, fuel: nat)
        requires
            self.wf(),
            self.reaches(kr, fid, fuel),
        ensures
            self.has_file(fid),
        decreases fuel,
    {
        let j = choose|j: int|
            0 <= j < self.keys@.len() && (#[trigger] self.keys@[j]).keyring_id == kr && {
                ||| self.keys@[j].target == fid
                ||| (fuel > 0 && self.is_folder(self.keys@[j].target) && self.reaches(
                    self.folder_keyring(self.keys@[j].target),
                    fid,
                    (fuel - 1) as nat,
                ))
            };
        if self.keys@[j].target == fid {
            assert(self.has_file(self.keys@[j].target));
        } else {
            self.lemma_reaches_has_file(
                self.folder_keyring(self.keys@[j].target),
                fid,
                (fuel - 1) as nat,
            );
        }
    }

    /// More fuel never loses a path.
    pub proof fn lemma_reaches_monotonic(self, kr: KeyringId, fid: FileId, f1: nat, f2: nat)
        requires
            self.reaches(kr, fid, f1),
            f1 <= f2,
        ensures
            self.reaches(kr, fid, f2),
        decreases f1,
    {
        let j = choose|j: int|
            0 <= j < self.keys@.len() && (#[trigger] self.keys@[j]).keyring_id == kr && {
                ||| self.keys@[j].target == fid
                ||| (f1 > 0 && self.is_folder(self.keys@[j].target) && self.reaches(
                    self.folder_keyring(self.keys@[j].target),
                    fid,
                    (f1 - 1) as nat,
                ))
            };
        if self.keys@[j].target != fid {
            self.lemma_reaches_monotonic(
                self.folder_keyring(self.keys@[j].target),
                fid,
                (f1 - 1) as nat,
                (f2 - 1) as nat,
            );
        }
    }

    /// Decide whether keyring `keyring` reaches the file `file_uid` within
    /// `fuel` descents.  This is the server's sole authorization question.
    pub fn has_access(&self, keyring: KeyringId, file_uid: FileId, fuel: u64) -> (r: bool)
        requires
            self.wf(),
        ensures
            r == self.reaches(keyring, file_uid, fuel as nat),
        decreases fuel,
    {
        let n = self.keys.len();
        for i in 0..n
            invariant
                self.wf(),
                n == self.keys@.len(),
                forall|j: int|
                    0 <= j < i ==> !((#[trigger] self.keys@[j]).keyring_id == keyring && {
                        ||| self.keys@[j].target == file_uid
                        ||| (fuel > 0 && self.is_folder(self.keys@[j].target) && self.reaches(
                            self.folder_keyring(self.keys@[j].target),
                            file_uid,
                            (fuel - 1) as nat,
                        ))
                    }),
        {
            if self.keys[i].keyring_id == keyring {
                if self.keys[i].target == file_uid {
                    return true;
                }
                if fuel > 0 {
                    let target = self.keys[i].target;
                    match self.lookup_file(target) {
                        Some(fi) => {
                            proof {
                                self.lemma_file_at(fi as int);
                            }
                            match self.files[fi].keyring_id {
                                Some(sub) => {
                                    if self.has_access(sub, file_uid, fuel - 1) {
                                        return true;
                                    }
                                },
                                None => {},
                            }
                        },
                        None => {},
                    }
                }
            }
        }
        false
    }
}

} // verus!
