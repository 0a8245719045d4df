//! The laws the access graph obeys, each proved from the operations'
//! contracts alone.
//!
//! Each proof function takes as `requires` exactly what the operations'
//! `ensures` say about the stores before and after, so a caller discharges
//! them directly from a call; the conclusions are what the design promises:
//! sharing grants access, unsharing revokes it for everyone else, a password
//! change changes no access, and uploading twice under one name makes one
//! file.

use vstd::prelude::*;
use crate::{FileId, KeyringId};
use crate::access::DEPTH_LIMIT;
use crate::crypto::{open_name, open_sealed, open_wrapped, rsa_keypair};
use crate::files::file_like;
use crate::store::{File, Key, ServerStore};

verus! {

/// Pushing a fresh file changes no other file's lookup.
pub proof fn lemma_file_of_push(s0: ServerStore, s1: ServerStore, f1: File)
    requires
        s0.wf(),
        !s0.has_file(f1.id),
        s1.files@ == s0.files@.push(f1),
    ensures
        forall|t: FileId| #[trigger]
            s0.has_file(t) ==> s1.has_file(t) && s1.file_of(t) == s0.file_of(t),
{
    assert forall|t: FileId| #[trigger] s0.has_file(t) implies s1.has_file(t) && s1.file_of(t)
        == s0.file_of(t) by {
        let i = s0.file_at(t);
        assert(s1.files@[i].id == t);
        assert(s1.has_file(t));
        let k = s1.file_at(t);
        if k != i {
            if k == s0.files@.len() {
                assert(f1.id == t);
                assert(false);
            } else {
                assert(s0.files@[k].id == t && s0.files@[i].id == t);
                assert(false);
            }
        }
    }
}

/// Two uploads of one encrypted name under one parent keyring leave exactly
/// one file row, and its content is the later payload.
///
/// The premises are what `upload_file` ensures: the first call created `f1`
/// with edge `e1` (no earlier match existed), the second found a match and
/// overwrote in place with `f2`.
pub proof fn law_upload_idempotent(
    s0: ServerStore,
    s1: ServerStore,
    s2: ServerStore,
    pk: KeyringId,
    name: Seq<char>,
    f1: File,
    e1: Key,
    f2: File,
)
    requires
        s0.wf(),
        s1.wf(),
        // before the first upload nothing under `pk` carries `name`
        !s0.has_upload_match(pk, name),
        // the first upload created `f1` and its edge `e1` (`Created` branch)
        !s0.has_file(f1.id),
        f1.name@ == name,
        f1.keyring_id is None,
        e1.target == f1.id,
        e1.keyring_id == pk,
        s1.files@ == s0.files@.push(f1),
        s1.keys@ == s0.keys@.push(e1),
        // the second upload overwrote the first match in place (`Updated`)
        s2.keys@ == s1.keys@,
        f2.id == f1.id,
        exists|j: int|
            #[trigger] s1.upload_match(pk, name, j) && s2.files@ == s1.files@.update(
                s1.file_at(s1.keys@[j].target),
                f2,
            ),
    ensures
        // the second upload was forced into the update branch
        s1.has_upload_match(pk, name),
        // every match under `pk` named `name` is the file the first call made
        forall|j: int| #[trigger] s1.upload_match(pk, name, j) ==> s1.keys@[j].target == f1.id,
        // the two uploads made exactly one row, which now holds `f2`
        s2.files@.len() == s0.files@.len() + 1,
        s2.has_file(f1.id),
        s2.file_of(f1.id) == f2,
{
    lemma_file_of_push(s0, s1, f1);
    assert forall|j: int| #[trigger] s1.upload_match(pk, name, j) implies s1.keys@[j].target
        == f1.id by {
        if j < s0.keys@.len() {
            assert(s1.keys@[j] == s0.keys@[j]);
            assert(s0.has_file(s0.keys@[j].target));
            assert(s0.keys@[j].target != f1.id);
            assert(s1.file_of(s0.keys@[j].target) == s0.file_of(s0.keys@[j].target));
            assert(s0.upload_match(pk, name, j));
            assert(false);
        } else {
            assert(s1.keys@[j] == e1);
        }
    }
    let j = choose|j: int|
        #[trigger] s1.upload_match(pk, name, j) && s2.files@ == s1.files@.update(
            s1.file_at(s1.keys@[j].target),
            f2,
        );
    assert(s1.keys@[j].target == f1.id);
    let fi = s1.file_at(f1.id);
    assert(s1.files@[s0.files@.len() as int].id == f1.id);
    assert(s1.has_file(f1.id));
    assert(fi == s0.files@.len()) by {
        if fi != s0.files@.len() {
            assert(s1.files@[fi].id == f1.id);
            assert(s0.files@[fi].id == f1.id);
            assert(s0.has_file(f1.id));
        }
    }
    assert(s2.files@[fi].id == f2.id);
    assert(s2.has_file(f1.id));
    let k2 = s2.file_at(f1.id);
    if k2 != fi {
        assert(s2.files@[k2].id == f1.id);
        assert(s1.files@[k2].id == f1.id);
        assert(false);
    }
}

/// After a share, the target user's root keyring reaches the file, at every
/// depth allowance down to one.
///
/// The premises are what `share_file` ensures on success: one new edge into
/// the target's root keyring.
pub proof fn law_share_grants_access(
    s0: ServerStore,
    s1: ServerStore,
    v: Seq<char>,
    fid: FileId,
    e: Key,
)
    requires
        s0.wf(),
        s0.has_user(v),
        e.target == fid,
        e.keyring_id == s0.root_of(v),
        s1.users@ == s0.users@,
        s1.keys@ == s0.keys@.push(e),
    ensures
        forall|fuel: nat| s1.reaches(s1.root_of(v), fid, fuel),
{
    assert(s1.has_user(v));
    assert(s1.user_at(v) == s0.user_at(v));
    assert forall|fuel: nat| s1.reaches(s1.root_of(v), fid, fuel) by {
        let j = s0.keys@.len() as int;
        assert(s1.keys@[j] == e);
        assert(s1.keys@[j].keyring_id == s1.root_of(v) && s1.keys@[j].target == fid);
    }
}

/// The shared file reads back: the target user's own private key unwraps the
/// re-wrapped file key, and that key opens the stored ciphertext to the
/// plaintext the owner uploaded.
pub proof fn law_share_then_read(
    pub_v: Seq<u8>,
    priv_v: Seq<u8>,
    file_key: Seq<u8>,
    wrapped: Seq<u8>,
    content_ct: Seq<u8>,
    content: Seq<u8>,
)
    requires
        rsa_keypair(pub_v, priv_v),
        // what `prepare_share` ensures of the edge it sends
        forall|sk: Seq<u8>| #[trigger]
            rsa_keypair(pub_v, sk) ==> open_wrapped(sk, wrapped, true) == Some(file_key),
        // what `prepare_upload` ensured of the stored content
        open_sealed(file_key, content_ct) == Some(content),
    ensures
        open_wrapped(priv_v, wrapped, true) == Some(file_key),
        open_sealed(file_key, content_ct) == Some(content),
{
}

/// What goes up comes down: a served copy of an uploaded file still opens,
/// under the file key, to exactly the uploaded name and content.
pub proof fn law_round_trip(
    s: ServerStore,
    fid: FileId,
    file_key: Seq<u8>,
    name: Seq<char>,
    content: Seq<u8>,
    served: File,
)
    requires
        s.wf(),
        s.has_file(fid),
        // what the client sent (`prepare_upload`) and the server stored
        open_name(file_key, s.file_of(fid).name@) == Some(name),
        s.file_of(fid).data matches Some(d) && open_sealed(file_key, d@) == Some(content),
        // what `download_file` serves
        file_like(served, s.file_of(fid)),
    ensures
        open_name(file_key, served.name@) == Some(name),
        served.data matches Some(d2) && open_sealed(file_key, d2@) == Some(content),
{
}

/// Reachability reads only the edges and the files, never the users or the
/// sessions.
pub proof fn lemma_reaches_depends_on_graph(
    s0: ServerStore,
    s1: ServerStore,
    kr: KeyringId,
    fid: FileId,
    fuel: nat,
)
    requires
        s0.keys@ == s1.keys@,
        s0.files@ == s1.files@,
    ensures
        s0.reaches(kr, fid, fuel) == s1.reaches(kr, fid, fuel),
    decreases fuel,
{
    assert forall|j: int| 0 <= j < s0.keys@.len() implies (s0.is_folder(s0.keys@[j].target)
        == s1.is_folder(s1.keys@[j].target) && s0.folder_keyring(s0.keys@[j].target)
        == s1.folder_keyring(s1.keys@[j].target)) by {
        assert(s0.has_file(s0.keys@[j].target) == s1.has_file(s1.keys@[j].target));
        assert(s0.file_at(s0.keys@[j].target) == s1.file_at(s1.keys@[j].target));
    }
    if fuel > 0 {
        assert forall|j: int|
            0 <= j < s0.keys@.len() && s0.is_folder(
                (#[trigger] s0.keys@[j]).target,
            ) implies s0.reaches(s0.folder_keyring(s0.keys@[j].target), fid, (fuel - 1) as nat)
            == s1.reaches(s1.folder_keyring(s1.keys@[j].target), fid, (fuel - 1) as nat) by {
            lemma_reaches_depends_on_graph(
                s0,
                s1,
                s0.folder_keyring(s0.keys@[j].target),
                fid,
                (fuel - 1) as nat,
            );
        }
    }
}

/// After a password change, the user can reach exactly the files they could
/// reach before: only the envelope and the sealed private key moved.
///
/// The premises are what `change_password` ensures: same edges, same files,
/// and every user keeps name and root keyring.
pub proof fn law_password_change_preserves_access(
    s0: ServerStore,
    s1: ServerStore,
    u: Seq<char>,
    fid: FileId,
    fuel: nat,
)
    requires
        s0.wf(),
        s1.wf(),
        s0.has_user(u),
        s1.keys@ == s0.keys@,
        s1.files@ == s0.files@,
        s1.users@.len() == s0.users@.len(),
        forall|i: int|
            0 <= i < s0.users@.len() ==> (#[trigger] s1.users@[i]).username@
                == s0.users@[i].username@ && s1.users@[i].root_keyring
                == s0.users@[i].root_keyring,
    ensures
        s1.has_user(u),
        s1.reaches(s1.root_of(u), fid, fuel) == s0.reaches(s0.root_of(u), fid, fuel),
{
    let i0 = s0.user_at(u);
    assert(s1.users@[i0].username@ == u);
    assert(s1.has_user(u));
    let i1 = s1.user_at(u);
    assert(i1 == i0) by {
        if i1 != i0 {
            assert(s1.users@[i1].username@ == u && s1.users@[i0].username@ == u);
        }
    }
    assert(s1.root_of(u) == s0.root_of(u));
    lemma_reaches_depends_on_graph(s0, s1, s0.root_of(u), fid, fuel);
}

/// No keyring but the caller's root reaches an unshared file.
proof fn lemma_unshare_isolates(
    s1: ServerStore,
    root_u: KeyringId,
    fid: FileId,
    kr: KeyringId,
    fuel: nat,
)
    requires
        s1.wf(),
        s1.is_root_keyring(root_u),
        // every edge targeting `fid` sits in `root_u`
        forall|j: int|
            0 <= j < s1.keys@.len() && (#[trigger] s1.keys@[j]).target == fid ==> s1.keys@[j].keyring_id
                == root_u,
        kr != root_u,
    ensures
        !s1.reaches(kr, fid, fuel),
    decreases fuel,
{
    if s1.reaches(kr, fid, fuel) {
        let j = choose|j: int|
            0 <= j < s1.keys@.len() && (#[trigger] s1.keys@[j]).keyring_id == kr && {
                ||| s1.keys@[j].target == fid
                ||| (fuel > 0 && s1.is_folder(s1.keys@[j].target) && s1.reaches(
                    s1.folder_keyring(s1.keys@[j].target),
                    fid,
                    (fuel - 1) as nat,
                ))
            };
        if s1.keys@[j].target == fid {
            assert(s1.keys@[j].keyring_id == root_u);
            assert(false);
        } else {
            let target = s1.keys@[j].target;
            let fk = s1.folder_keyring(target);
            assert(fk != root_u) by {
                let fi = s1.file_at(target);
                let iu = choose|iu: int|
                    0 <= iu < s1.users@.len() && (#[trigger] s1.users@[iu]).root_keyring == root_u;
                assert(s1.files@[fi].keyring_id != Some(s1.users@[iu].root_keyring));
            }
            lemma_unshare_isolates(s1, root_u, fid, fk, (fuel - 1) as nat);
            assert(false);
        }
    }
}

/// After an unshare into the caller's root, the caller still reaches the
/// file and no other user does.
///
/// The premises are what `unshare_file` ensures on success with the root as
/// parent: all old edges to the file dropped, one new edge in the caller's
/// root keyring, the file row re-encrypted in place.
pub proof fn law_unshare_revokes(
    s0: ServerStore,
    s1: ServerStore,
    u: Seq<char>,
    v: Seq<char>,
    fid: FileId,
    new_e: Key,
    f2: File,
)
    requires
        s0.wf(),
        s1.wf(),
        s0.has_user(u),
        s0.has_user(v),
        u != v,
        s0.has_file(fid),
        s1.users@ == s0.users@,
        new_e.target == fid,
        new_e.keyring_id == s0.root_of(u),
        s1.keys@ == s0.keys@.filter(|e: Key| e.target != fid).push(new_e),
        f2.id == fid,
        s1.files@ == s0.files@.update(s0.file_at(fid), f2),
    ensures
        // the caller still reaches the file
        forall|fuel: nat| s1.reaches(s1.root_of(u), fid, fuel),
        // nobody else's root does, at any depth
        forall|fuel: nat| !s1.reaches(s1.root_of(v), fid, fuel),
{
    let root_u = s0.root_of(u);
    let pred = |e: Key| e.target != fid;
    assert(s1.has_user(u) && s1.user_at(u) == s0.user_at(u));
    assert(s1.has_user(v) && s1.user_at(v) == s0.user_at(v));
    assert(s1.root_of(u) == root_u);

    // the caller's root holds the fresh edge
    assert forall|fuel: nat| s1.reaches(s1.root_of(u), fid, fuel) by {
        let j = (s1.keys@.len() - 1) as int;
        assert(s1.keys@[j] == new_e);
        assert(s1.keys@[j].keyring_id == root_u && s1.keys@[j].target == fid);
    }

    // every edge targeting the file now sits in the caller's root
    assert forall|j: int|
        0 <= j < s1.keys@.len() && (#[trigger] s1.keys@[j]).target == fid implies s1.keys@[j].keyring_id
        == root_u by {
        if j < s1.keys@.len() - 1 {
            s0.keys@.lemma_filter_pred(pred, j);
            assert(false);
        }
    }

    // the two roots are distinct users' roots
    let iu = s0.user_at(u);
    let iv = s0.user_at(v);
    assert(iu != iv) by {
        if iu == iv {
            assert(s0.users@[iu].username@ == u && s0.users@[iv].username@ == v);
        }
    }
    assert(s0.users@[iu].root_keyring != s0.users@[iv].root_keyring);
    assert(s1.is_root_keyring(root_u)) by {
        assert(s1.users@[iu].root_keyring == root_u);
    }
    assert forall|fuel: nat| !s1.reaches(s1.root_of(v), fid, fuel) by {
        lemma_unshare_isolates(s1, root_u, fid, s1.root_of(v), fuel);
    }
}

/// A keyring that reaches a folder also reaches, with one more step of
/// allowance, anything a direct edge of that folder's keyring targets.
proof fn lemma_reach_into_folder(
    s: ServerStore,
    kr: KeyringId,
    p: FileId,
    fid: FileId,
    j: int,
    fuel: nat,
)
    requires
        s.wf(),
        s.has_file(p),
        s.file_of(p).keyring_id is Some,
        0 <= j < s.keys@.len(),
        s.keys@[j].keyring_id == s.folder_keyring(p),
        s.keys@[j].target == fid,
        s.reaches(kr, p, fuel),
    ensures
        s.reaches(kr, fid, (fuel + 1) as nat),
    decreases fuel,
{
    let pk = s.folder_keyring(p);
    let i = choose|i: int|
        0 <= i < s.keys@.len() && (#[trigger] s.keys@[i]).keyring_id == kr && {
            ||| s.keys@[i].target == p
            ||| (fuel > 0 && s.is_folder(s.keys@[i].target) && s.reaches(
                s.folder_keyring(s.keys@[i].target),
                p,
                (fuel - 1) as nat,
            ))
        };
    if s.keys@[i].target == p {
        assert(s.is_folder(p));
        assert(s.reaches(pk, fid, fuel)) by {
            assert(s.keys@[j].keyring_id == pk && s.keys@[j].target == fid);
        }
        assert(s.keys@[i].keyring_id == kr && (fuel + 1) as nat > 0 && s.is_folder(
            s.keys@[i].target,
        ) && s.reaches(
            s.folder_keyring(s.keys@[i].target),
            fid,
            (((fuel + 1) as nat) - 1) as nat,
        ));
    } else {
        let sub = s.folder_keyring(s.keys@[i].target);
        lemma_reach_into_folder(s, sub, p, fid, j, (fuel - 1) as nat);
        assert(s.keys@[i].keyring_id == kr && (fuel + 1) as nat > 0 && s.is_folder(
            s.keys@[i].target,
        ) && s.reaches(sub, fid, (((fuel + 1) as nat) - 1) as nat)) by {
            assert(((fuel - 1) as nat + 1) as nat == fuel);
        }
    }
}

/// When every edge targeting a file sits in one folder's keyring, reaching
/// the file forces the traversal through that folder (or starting inside its
/// keyring).
proof fn lemma_edges_behind_folder(
    s: ServerStore,
    p: FileId,
    fid: FileId,
    kr: KeyringId,
    fuel: nat,
)
    requires
        s.wf(),
        s.has_file(p),
        s.file_of(p).keyring_id is Some,
        forall|j: int|
            0 <= j < s.keys@.len() && (#[trigger] s.keys@[j]).target == fid
                ==> s.keys@[j].keyring_id == s.folder_keyring(p),
        s.reaches(kr, fid, fuel),
    ensures
        kr == s.folder_keyring(p) || s.reaches(kr, p, fuel),
    decreases fuel,
{
    let pk = s.folder_keyring(p);
    let j = choose|j: int|
        0 <= j < s.keys@.len() && (#[trigger] s.keys@[j]).keyring_id == kr && {
            ||| s.keys@[j].target == fid
            ||| (fuel > 0 && s.is_folder(s.keys@[j].target) && s.reaches(
                s.folder_keyring(s.keys@[j].target),
                fid,
                (fuel - 1) as nat,
            ))
        };
    if s.keys@[j].target == fid {
        assert(kr == pk);
    } else {
        let t = s.keys@[j].target;
        let sub = s.folder_keyring(t);
        lemma_edges_behind_folder(s, p, fid, sub, (fuel - 1) as nat);
        if sub == pk {
            // folder keyrings are owned by exactly one folder, so `t` is `p`
            let ti = s.file_at(t);
            let pi = s.file_at(p);
            assert(s.files@[ti].keyring_id == Some(sub) && s.files@[pi].keyring_id == Some(pk));
            assert(ti == pi) by {
                if ti != pi {
                    assert(s.files@[ti].keyring_id != s.files@[pi].keyring_id);
                }
            }
            assert(t == p);
            assert(s.reaches(kr, p, fuel)) by {
                assert(s.keys@[j].keyring_id == kr && s.keys@[j].target == p);
            }
        } else {
            assert(s.reaches(sub, p, (fuel - 1) as nat));
            assert(s.reaches(kr, p, fuel)) by {
                assert(s.keys@[j].keyring_id == kr && s.is_folder(t) && s.reaches(
                    sub,
                    p,
                    (fuel - 1) as nat,
                ));
            }
        }
    }
}

/// After an unshare into a folder: whoever reaches the chosen parent folder
/// keeps access through it, and whoever cannot reach that folder cannot
/// reach the file at any depth.
///
/// The premises are what `unshare_file` ensures on success with a folder
/// parent: every edge targeting the file now sits in the parent's keyring,
/// and at least one such edge exists.
pub proof fn law_unshare_revokes_folder_parent(
    s1: ServerStore,
    u: Seq<char>,
    v: Seq<char>,
    p: FileId,
    fid: FileId,
)
    requires
        s1.wf(),
        s1.has_user(u),
        s1.has_user(v),
        s1.has_file(p),
        s1.file_of(p).keyring_id is Some,
        forall|j: int|
            0 <= j < s1.keys@.len() && (#[trigger] s1.keys@[j]).target == fid
                ==> s1.keys@[j].keyring_id == s1.folder_keyring(p),
        exists|j: int|
            0 <= j < s1.keys@.len() && (#[trigger] s1.keys@[j]).target == fid
                && s1.keys@[j].keyring_id == s1.folder_keyring(p),
        // the one caveat: the other user does not reach the chosen parent
        forall|fuel: nat| !s1.reaches(s1.root_of(v), p, fuel),
    ensures
        forall|fuel: nat|
            s1.reaches(s1.root_of(u), p, fuel) ==> s1.reaches(s1.root_of(u), fid, (fuel + 1) as nat),
        forall|fuel: nat| !s1.reaches(s1.root_of(v), fid, fuel),
{
    let j = choose|j: int|
        0 <= j < s1.keys@.len() && (#[trigger] s1.keys@[j]).target == fid
            && s1.keys@[j].keyring_id == s1.folder_keyring(p);
    assert forall|fuel: nat| s1.reaches(s1.root_of(u), p, fuel) implies s1.reaches(
        s1.root_of(u),
        fid,
        (fuel + 1) as nat,
    ) by {
        lemma_reach_into_folder(s1, s1.root_of(u), p, fid, j, fuel);
    }
    assert forall|fuel: nat| !s1.reaches(s1.root_of(v), fid, fuel) by {
        if s1.reaches(s1.root_of(v), fid, fuel) {
            lemma_edges_behind_folder(s1, p, fid, s1.root_of(v), fuel);
            assert(s1.root_of(v) != s1.folder_keyring(p)) by {
                let iv = s1.user_at(v);
                let pi = s1.file_at(p);
                assert(s1.files@[pi].keyring_id != Some(s1.users@[iv].root_keyring));
            }
            assert(false);
        }
    }
}

} // verus!
