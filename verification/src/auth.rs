//! Registration, password change, bearer sessions, and the in-flight login
//! state machine.
//!
//! The password-based key exchange itself runs outside this crate; these
//! operations keep all the state the server holds around it: the uniqueness
//! of usernames, the session table with lazy expiry, and the map of
//! half-finished logins.

use vstd::prelude::*;
use vstd::string::*;
use crate::ApiError;
use crate::store::{str_eq, Session, ServerStore, User};

verus! {

/// Session lifetime in seconds.
pub const TOKEN_LIFETIME: u64 = 3600;

/// Session lifetime in milliseconds.
pub const TOKEN_LIFETIME_MS: u64 = 3600 * 1000;

/// What the session listing shows: a token prefix, never the whole token.
pub struct SessionInfo {
    pub token_short: String,
    pub expiration_date: u64,
    pub current: bool,
}

/// The first sixteen characters of a token (all of it when shorter).
pub open spec fn token_prefix(s: Seq<char>) -> Seq<char> {
    if s.len() <= 16 {
        s
    } else {
        s.subrange(0, 16)
    }
}

impl ServerStore {
    /// First round of registration decides only one thing: whether the
    /// username is still free.
    pub fn register_start(&self, username: &str) -> (r: Result<(), ApiError>)
        ensures
            r is Ok <==> !self.has_user(username@),
            r is Err ==> r->Err_0 == ApiError::Conflict,
    {
        match self.lookup_user(username) {
            Some(_) => Err(ApiError::Conflict),
            None => Ok(()),
        }
    }

    /// Second round of registration: re-check uniqueness, then create the
    /// user together with a fresh root keyring.
    pub fn register_finish(
        &mut self,
        username: String,
        password_envelope: Vec<u8>,
        public_key: Vec<u8>,
        encrypted_private_key: Vec<u8>,
    ) -> (r: Result<(), ApiError>)
        requires
            old(self).wf(),
            old(self).next_keyring < u64::MAX,
        ensures
            final(self).wf(),
            r is Err <==> old(self).has_user(username@),
            r is Err ==> r->Err_0 == ApiError::Conflict && *final(self) == *old(self),
            r is Ok ==> {
                &&& final(self).users@ == old(self).users@.push(
                    User {
                        username,
                        password_envelope,
                        public_key,
                        encrypted_private_key,
                        root_keyring: old(self).next_keyring,
                    },
                )
                &&& final(self).next_keyring == old(self).next_keyring + 1
                &&& final(self).files@ == old(self).files@
                &&& final(self).keys@ == old(self).keys@
                &&& final(self).sessions@ == old(self).sessions@
            },
    {
        match self.lookup_user(username.as_str()) {
            Some(_) => Err(ApiError::Conflict),
            None => {
                let root_keyring = self.next_keyring;
                self.next_keyring = self.next_keyring + 1;
                self.users.push(
                    User {
                        username,
                        password_envelope,
                        public_key,
                        encrypted_private_key,
                        root_keyring,
                    },
                );
                proof {
                    assert(self.wf());
                }
                Ok(())
            },
        }
    }

    /// The stored password envelope of a user, for the login key exchange;
    /// `None` asks the caller to run the protocol against a dummy envelope,
    /// so that unknown names cannot be told apart from wrong passwords.
    pub fn login_lookup_envelope(&self, username: &str) -> (r: Option<Vec<u8>>)
        requires
            self.wf(),
        ensures
            r is Some <==> self.has_user(username@),
            r is Some ==> r->0@ == self.user_of(username@).password_envelope@,
    {
        match self.lookup_user(username) {
            Some(i) => {
                proof {
                    self.lemma_user_at(i as int);
                }
                Some(crate::files::clone_bytes(&self.users[i].password_envelope))
            },
            None => None,
        }
    }

    /// The public key of a user, for a forthcoming share.  An unknown name
    /// is told apart here (unlike at login): the endpoint already sits behind
    /// authentication, and a share needs the failure to be visible.
    pub fn get_user_public_key(&self, username: &str) -> (r: Result<Vec<u8>, ApiError>)
        requires
            self.wf(),
        ensures
            r is Ok <==> self.has_user(username@),
            r is Ok ==> r->Ok_0@ == self.user_of(username@).public_key@,
            r is Err ==> r->Err_0 == ApiError::NotFound,
    {
        match self.lookup_user(username) {
            Some(i) => {
                proof {
                    self.lemma_user_at(i as int);
                }
                Ok(crate::files::clone_bytes(&self.users[i].public_key))
            },
            None => Err(ApiError::NotFound),
        }
    }

    /// Persist a fresh session: the token is the key-exchange session key in
    /// base64, and it expires one lifetime from now.
    pub fn create_session(&mut self, username: String, token: String, now_ms: u64)
        requires
            old(self).wf(),
            !old(self).has_session(token@),
            now_ms <= u64::MAX - TOKEN_LIFETIME_MS,
        ensures
            final(self).wf(),
            final(self).sessions@ == old(self).sessions@.push(
                Session {
                    token,
                    user: username,
                    expiration_date: (now_ms + TOKEN_LIFETIME_MS) as u64,
                },
            ),
            final(self).users@ == old(self).users@,
            final(self).files@ == old(self).files@,
            final(self).keys@ == old(self).keys@,
            final(self).next_keyring == old(self).next_keyring,
    {
        let expiration_date = now_ms + TOKEN_LIFETIME_MS;
        self.sessions.push(Session { token, user: username, expiration_date });
        proof {
            assert(self.wf());
        }
    }

    /// Authenticate a bearer token: the session must exist and not be
    /// expired.  An expired session is deleted on this first touch.
    pub fn authenticate(&mut self, token: &str, now_ms: u64) -> (r: Result<Session, ApiError>)
        requires
            old(self).wf(),
        ensures
            final(self).wf(),
            final(self).users@ == old(self).users@,
            final(self).files@ == old(self).files@,
            final(self).keys@ == old(self).keys@,
            final(self).next_keyring == old(self).next_keyring,
            r is Ok <==> old(self).has_session(token@) && old(self).session_of(
                token@,
            ).expiration_date > now_ms,
            r is Err ==> r->Err_0 == ApiError::Unauthorized,
            r is Ok ==> {
                let s = old(self).session_of(token@);
                &&& final(self).sessions@ == old(self).sessions@
                &&& r->Ok_0.token@ == token@
                &&& r->Ok_0.user@ == s.user@
                &&& r->Ok_0.expiration_date == s.expiration_date
            },
            !old(self).has_session(token@) ==> final(self).sessions@ == old(self).sessions@,
            old(self).has_session(token@) && old(self).session_of(token@).expiration_date <= now_ms
                ==> final(self).sessions@ == old(self).sessions@.remove(
                old(self).session_at(token@),
            ),
            r is Err ==> !final(self).has_session(token@),
    {
        match self.lookup_session(token) {
            Some(i) => {
                proof {
                    self.lemma_session_at(i as int);
                }
                if self.sessions[i].expiration_date <= now_ms {
                    self.sessions.remove(i);
                    proof {
                        let os = *old(self);
                        let ns = *self;
                        assert forall|k: int|
                            0 <= k < ns.sessions@.len() implies (#[trigger] ns.sessions@[k]).token@
                            != token@ by {
                            if k < i {
                                assert(ns.sessions@[k] == os.sessions@[k]);
                            } else {
                                assert(ns.sessions@[k] == os.sessions@[k + 1]);
                            }
                        }
                        assert(ns.wf());
                    }
                    Err(ApiError::Unauthorized)
                } else {
                    let s = &self.sessions[i];
                    Ok(
                        Session {
                            token: s.token.clone(),
                            user: s.user.clone(),
                            expiration_date: s.expiration_date,
                        },
                    )
                }
            },
            None => Err(ApiError::Unauthorized),
        }
    }

    /// Revoke one session by token.
    pub fn revoke(&mut self, token: &str)
        requires
            old(self).wf(),
        ensures
            final(self).wf(),
            final(self).users@ == old(self).users@,
            final(self).files@ == old(self).files@,
            final(self).keys@ == old(self).keys@,
            final(self).next_keyring == old(self).next_keyring,
            !final(self).has_session(token@),
            old(self).has_session(token@) ==> final(self).sessions@ == old(self).sessions@.remove(
                old(self).session_at(token@),
            ),
            !old(self).has_session(token@) ==> final(self).sessions@ == old(self).sessions@,
    {
        match self.lookup_session(token) {
            Some(i) => {
                proof {
                    self.lemma_session_at(i as int);
                }
                self.sessions.remove(i);
                proof {
                    let os = *old(self);
                    let ns = *self;
                    assert forall|k: int|
                        0 <= k < ns.sessions@.len() implies (#[trigger] ns.sessions@[k]).token@
                        != token@ by {
                        if k < i {
                            assert(ns.sessions@[k] == os.sessions@[k]);
                        } else {
                            assert(ns.sessions@[k] == os.sessions@[k + 1]);
                        }
                    }
                    assert(ns.wf());
                }
            },
            None => {},
        }
    }

    /// Revoke every session of `user` except the one holding `keep_token`.
    pub fn revoke_all(&mut self, user: &str, keep_token: &str)
        requires
            old(self).wf(),
        ensures
            final(self).wf(),
            final(self).users@ == old(self).users@,
            final(self).files@ == old(self).files@,
            final(self).keys@ == old(self).keys@,
            final(self).next_keyring == old(self).next_keyring,
            final(self).sessions@ == old(self).sessions@.filter(
                |s: Session| s.user@ != user@ || s.token@ == keep_token@,
            ),
    {
        let ghost orig = self.sessions@;
        let ghost pred = |s: Session| s.user@ != user@ || s.token@ == keep_token@;
        let mut i: usize = 0;
        let ghost j: int = 0;
        proof {
            reveal(Seq::filter);
            assert(self.sessions@ =~= orig.take(j).filter(pred) + orig.skip(j));
        }
        while i < self.sessions.len()
            invariant
                pred == (|s: Session| s.user@ != user@ || s.token@ == keep_token@),
                0 <= j <= orig.len(),
                i == orig.take(j).filter(pred).len(),
                self.sessions@ =~= orig.take(j).filter(pred) + orig.skip(j),
                self.users@ == old(self).users@,
                self.files@ == old(self).files@,
                self.keys@ == old(self).keys@,
                self.next_keyring == old(self).next_keyring,
            decreases orig.len() - j,
        {
            proof {
                reveal(Seq::filter);
                orig.take(j).lemma_filter_len(pred);
                assert(j < orig.len());
                assert(self.sessions@[i as int] == orig.skip(j)[0]);
                assert(orig.skip(j)[0] == orig[j]);
                assert(orig.take(j + 1).drop_last() =~= orig.take(j));
                assert(orig.take(j + 1).last() == orig[j]);
            }
            let drop = str_eq(self.sessions[i].user.as_str(), user) && !str_eq(
                self.sessions[i].token.as_str(),
                keep_token,
            );
            if drop {
                self.sessions.remove(i);
                proof {
                    reveal(Seq::filter);
                    assert(!pred(orig[j]));
                    assert(orig.take(j + 1).drop_last() == orig.take(j));
                    assert(orig.take(j + 1).filter(pred) =~= orig.take(j).filter(pred));
                    assert(self.sessions@ =~= orig.take(j + 1).filter(pred) + orig.skip(j + 1));
                    j = j + 1;
                }
            } else {
                i = i + 1;
                proof {
                    reveal(Seq::filter);
                    assert(pred(orig[j]));
                    assert(orig.take(j + 1).drop_last() == orig.take(j));
                    assert(orig.take(j + 1).filter(pred) =~= orig.take(j).filter(pred).push(
                        orig[j],
                    ));
                    assert(self.sessions@ =~= orig.take(j + 1).filter(pred) + orig.skip(j + 1));
                    j = j + 1;
                }
            }
        }
        proof {
            orig.take(j).lemma_filter_len(pred);
            assert(j == orig.len());
            assert(orig.take(j) =~= orig);
            assert(self.sessions@ =~= orig.filter(pred));
            let ns = *self;
            assert forall|a: int, b: int|
                0 <= a < b < ns.sessions@.len() implies ns.sessions@[a].token@
                != ns.sessions@[b].token@ by {
                lemma_filter_subset_pair(orig, pred, a, b);
            }
            assert(ns.wf());
        }
    }

    /// List the caller's valid (unexpired) sessions, each shown as a token
    /// prefix.
    pub fn active_sessions(&self, user: &str, current_token: &str, now_ms: u64) -> (r: Vec<
        SessionInfo,
    >)
        ensures
            ({
                let matching = self.sessions@.filter(
                    |s: Session| s.user@ == user@ && s.expiration_date > now_ms,
                );
                &&& r@.len() == matching.len()
                &&& forall|k: int|
                    0 <= k < matching.len() ==> {
                        &&& (#[trigger] r@[k]).token_short@ == token_prefix(matching[k].token@)
                        &&& r@[k].expiration_date == matching[k].expiration_date
                        &&& r@[k].current == (matching[k].token@ == current_token@)
                    }
            }),
    {
        let ghost pred = |s: Session| s.user@ == user@ && s.expiration_date > now_ms;
        let mut out: Vec<SessionInfo> = Vec::new();
        let n = self.sessions.len();
        proof {
            reveal(Seq::filter);
            assert(self.sessions@.take(0).filter(pred) =~= Seq::<Session>::empty());
        }
        for i in 0..n
            invariant
                pred == (|s: Session| s.user@ == user@ && s.expiration_date > now_ms),
                n == self.sessions@.len(),
                out@.len() == self.sessions@.take(i as int).filter(pred).len(),
                forall|k: int|
                    0 <= k < out@.len() ==> {
                        let matching = self.sessions@.take(i as int).filter(pred);
                        &&& (#[trigger] out@[k]).token_short@ == token_prefix(matching[k].token@)
                        &&& out@[k].expiration_date == matching[k].expiration_date
                        &&& out@[k].current == (matching[k].token@ == current_token@)
                    },
        {
            proof {
                reveal(Seq::filter);
                assert(self.sessions@.take(i + 1).drop_last() =~= self.sessions@.take(i as int));
                assert(self.sessions@.take(i + 1).last() == self.sessions@[i as int]);
            }
            if str_eq(self.sessions[i].user.as_str(), user) && self.sessions[i].expiration_date
                > now_ms {
                let token = &self.sessions[i].token;
                let len = token.as_str().unicode_len();
                let cut = if len < 16 {
                    len
                } else {
                    16
                };
                let token_short = token.as_str().substring_char(0, cut).to_owned();
                let current = str_eq(token.as_str(), current_token);
                out.push(
                    SessionInfo {
                        token_short,
                        expiration_date: self.sessions[i].expiration_date,
                        current,
                    },
                );
            }
        }
        proof {
            assert(self.sessions@.take(n as int) =~= self.sessions@);
        }
        out
    }

    /// Replace the password envelope and the sealed private key of a user;
    /// the public key and the root keyring stay, so every edge stays valid.
    pub fn change_password(
        &mut self,
        username: &str,
        new_envelope: Vec<u8>,
        new_encrypted_private_key: Vec<u8>,
    ) -> (r: Result<(), ApiError>)
        requires
            old(self).wf(),
            old(self).has_user(username@),
        ensures
            final(self).wf(),
            r is Ok,
            final(self).users@.len() == old(self).users@.len(),
            forall|i: int|
                0 <= i < old(self).users@.len() && i != old(self).user_at(username@)
                    ==> final(self).users@[i] == old(self).users@[i],
            ({
                let u0 = old(self).user_of(username@);
                let u2 = final(self).users@[old(self).user_at(username@)];
                &&& u2.username@ == username@
                &&& u2.password_envelope == new_envelope
                &&& u2.public_key@ == u0.public_key@
                &&& u2.encrypted_private_key == new_encrypted_private_key
                &&& u2.root_keyring == u0.root_keyring
            }),
            final(self).files@ == old(self).files@,
            final(self).keys@ == old(self).keys@,
            final(self).sessions@ == old(self).sessions@,
            final(self).next_keyring == old(self).next_keyring,
    {
        let ui = match self.lookup_user(username) {
            Some(i) => i,
            None => {
                proof {
                    assert(false);
                }
                return Err(ApiError::NotFound);
            },
        };
        proof {
            self.lemma_user_at(ui as int);
        }
        let u = &self.users[ui];
        let newu = User {
            username: u.username.clone(),
            password_envelope: new_envelope,
            public_key: crate::files::clone_bytes(&u.public_key),
            encrypted_private_key: new_encrypted_private_key,
            root_keyring: u.root_keyring,
        };
        self.users.set(ui, newu);
        proof {
            let os = *old(self);
            let ns = *self;
            assert(forall|i: int|
                0 <= i < ns.users@.len() ==> (#[trigger] ns.users@[i]).username@
                    == os.users@[i].username@ && ns.users@[i].root_keyring
                    == os.users@[i].root_keyring);
            assert(ns.wf());
        }
        Ok(())
    }
}

/// Split the bearer token out of an authorization header: everything after
/// the literal prefix, or nothing when the prefix is absent.
pub fn parse_bearer(header: &str) -> (r: Option<String>)
    ensures
        r is Some <==> header@.len() >= 7 && header@.subrange(0, 7) =~= "Bearer "@,
        r matches Some(t) ==> t@ == header@.skip(7),
{
    proof {
        reveal_strlit("Bearer ");
    }
    let n = header.unicode_len();
    if n < 7 {
        return None;
    }
    let prefix = header.substring_char(0, 7);
    if !str_eq(prefix, "Bearer ") {
        return None;
    }
    let token = header.substring_char(7, n);
    proof {
        assert(token@ =~= header@.skip(7));
    }
    Some(token.to_owned())
}

/// One half-finished login: the key exchange's first round ran for this
/// username, and the opaque server state is parked under `handle` until the
/// second round.
pub struct PendingLogin {
    pub username: String,
    pub handle: u64,
    pub started_ms: u64,
}

/// The map of in-flight logins, keyed by username.  A repeated first round
/// for one username overwrites the old entry; the second round always
/// removes it, successful or not.
pub struct LoginStates {
    pub pending: Vec<PendingLogin>,
}

impl LoginStates {
    pub open spec fn has_pending(self, name: Seq<char>) -> bool {
        exists|i: int| 0 <= i < self.pending@.len() && self.pending@[i].username@ == name
    }

    pub open spec fn pending_at(self, name: Seq<char>) -> int {
        choose|i: int| 0 <= i < self.pending@.len() && self.pending@[i].username@ == name
    }

    pub open spec fn pending_of(self, name: Seq<char>) -> PendingLogin {
        self.pending@[self.pending_at(name)]
    }

    /// At most one half-finished login per username.
    pub open spec fn wf(self) -> bool {
        forall|i: int, j: int|
            0 <= i < j < self.pending@.len() ==> self.pending@[i].username@
                != self.pending@[j].username@
    }

    pub fn new() -> (r: LoginStates)
        ensures
            r.wf(),
            r.pending@ =~= Seq::<PendingLogin>::empty(),
    {
        LoginStates { pending: Vec::new() }
    }

    fn lookup(&self, name: &str) -> (r: Option<usize>)
        ensures
            match r {
                Some(i) => i < self.pending@.len() && self.pending@[i as int].username@ == name@
                    && (forall|j: int| 0 <= j < i ==> self.pending@[j].username@ != name@),
                None => !self.has_pending(name@),
            },
    {
        let n = self.pending.len();
        for i in 0..n
            invariant
                n == self.pending@.len(),
                forall|j: int| 0 <= j < i ==> self.pending@[j].username@ != name@,
        {
            if str_eq(self.pending[i].username.as_str(), name) {
                return Some(i);
            }
        }
        None
    }

    /// First round done: park the key-exchange state for this username,
    /// overwriting any earlier half-finished login of the same name.
    pub fn begin(&mut self, username: String, handle: u64, now_ms: u64)
        requires
            old(self).wf(),
        ensures
            final(self).wf(),
            final(self).has_pending(username@),
            final(self).pending_of(username@).handle == handle,
            final(self).pending_of(username@).started_ms == now_ms,
            forall|n: Seq<char>|
                n != username@ ==> (#[trigger] final(self).has_pending(n) == old(self).has_pending(
                    n,
                ) && (old(self).has_pending(n) ==> final(self).pending_of(n) == old(
                    self,
                ).pending_of(n))),
    {
        match self.lookup(username.as_str()) {
            Some(i) => {
                proof {
                    self.lemma_pending_at(i as int);
                }
                self.pending.remove(i);
                proof {
                    let os = *old(self);
                    assert forall|k: int|
                        0 <= k < self.pending@.len() implies (#[trigger] self.pending@[k]).username@
                        != username@ by {
                        if k < i {
                            assert(self.pending@[k] == os.pending@[k]);
                        } else {
                            assert(self.pending@[k] == os.pending@[k + 1]);
                        }
                    }
                }
            },
            None => {},
        }
        let ghost mid = *self;
        self.pending.push(PendingLogin { username, handle, started_ms: now_ms });
        proof {
            let ns = *self;
            let last = (ns.pending@.len() - 1) as int;
            assert(ns.pending@[last].username@ == username@);
            assert(ns.wf());
            self.lemma_pending_at(last);
            assert forall|n: Seq<char>| n != username@ implies (#[trigger] ns.has_pending(n)
                == old(self).has_pending(n) && (old(self).has_pending(n) ==> ns.pending_of(n)
                == old(self).pending_of(n))) by {
                if old(self).has_pending(n) {
                    let i0 = old(self).pending_at(n);
                    let e0 = old(self).pending@[i0];
                    assert(mid.pending@.contains(e0)) by {
                        if mid.pending@.len() < old(self).pending@.len() {
                            let ri = old(self).pending_at(username@);
                            if i0 < ri {
                                assert(mid.pending@[i0] == e0);
                            } else {
                                assert(mid.pending@[i0 - 1] == e0);
                            }
                        } else {
                            assert(mid.pending@[i0] == e0);
                        }
                    }
                    let im = choose|im: int|
                        0 <= im < mid.pending@.len() && mid.pending@[im] == e0;
                    assert(ns.pending@[im] == e0);
                    assert(ns.has_pending(n));
                    self.lemma_pending_at(im);
                }
                if ns.has_pending(n) {
                    let i1 = ns.pending_at(n);
                    assert(i1 != last);
                    assert(mid.pending@[i1] == ns.pending@[i1]);
                    if mid.pending@.len() < old(self).pending@.len() {
                        let ri = old(self).pending_at(username@);
                        if i1 < ri {
                            assert(old(self).pending@[i1] == mid.pending@[i1]);
                        } else {
                            assert(old(self).pending@[i1 + 1] == mid.pending@[i1]);
                        }
                        assert(old(self).has_pending(n));
                    } else {
                        assert(old(self).pending@[i1] == mid.pending@[i1]);
                        assert(old(self).has_pending(n));
                    }
                }
            }
        }
    }

    /// Second round: take the parked state out, whether or not the exchange
    /// will succeed.
    pub fn take(&mut self, username: &str) -> (r: Option<u64>)
        requires
            old(self).wf(),
        ensures
            final(self).wf(),
            r is Some <==> old(self).has_pending(username@),
            r matches Some(h) ==> h == old(self).pending_of(username@).handle,
            !final(self).has_pending(username@),
            forall|n: Seq<char>|
                n != username@ ==> (#[trigger] final(self).has_pending(n) == old(self).has_pending(
                    n,
                ) && (old(self).has_pending(n) ==> final(self).pending_of(n) == old(
                    self,
                ).pending_of(n))),
    {
        match self.lookup(username) {
            Some(i) => {
                proof {
                    self.lemma_pending_at(i as int);
                }
                let h = self.pending[i].handle;
                self.pending.remove(i);
                proof {
                    let os = *old(self);
                    let ns = *self;
                    assert forall|k: int|
                        0 <= k < ns.pending@.len() implies (#[trigger] ns.pending@[k]).username@
                        != username@ by {
                        if k < i {
                            assert(ns.pending@[k] == os.pending@[k]);
                        } else {
                            assert(ns.pending@[k] == os.pending@[k + 1]);
                        }
                    }
                    assert(ns.wf());
                    assert forall|n: Seq<char>| n != username@ implies (#[trigger] ns.has_pending(
                        n,
                    ) == os.has_pending(n) && (os.has_pending(n) ==> ns.pending_of(n)
                        == os.pending_of(n))) by {
                        if os.has_pending(n) {
                            let i0 = os.pending_at(n);
                            let e0 = os.pending@[i0];
                            assert(i0 != i);
                            if i0 < i {
                                assert(ns.pending@[i0] == e0);
                            } else {
                                assert(ns.pending@[i0 - 1] == e0);
                            }
                            assert(ns.has_pending(n));
                            let i1 = ns.pending_at(n);
                            if i1 < i {
                                assert(ns.pending@[i1] == os.pending@[i1]);
                            } else {
                                assert(ns.pending@[i1] == os.pending@[i1 + 1]);
                            }
                        }
                        if ns.has_pending(n) {
                            let i1 = ns.pending_at(n);
                            if i1 < i {
                                assert(os.pending@[i1] == ns.pending@[i1]);
                            } else {
                                assert(os.pending@[i1 + 1] == ns.pending@[i1]);
                            }
                            assert(os.has_pending(n));
                        }
                    }
                }
                Some(h)
            },
            None => None,
        }
    }

    /// Reap entries older than one token lifetime: a client that vanished
    /// between the two rounds must not grow this map forever.
    pub fn sweep(&mut self, now_ms: u64)
        requires
            old(self).wf(),
        ensures
            final(self).wf(),
            final(self).pending@ == old(self).pending@.filter(
                |p: PendingLogin| p.started_ms + TOKEN_LIFETIME_MS >= now_ms,
            ),
    {
        let ghost orig = self.pending@;
        let ghost pred = |p: PendingLogin| p.started_ms + TOKEN_LIFETIME_MS >= now_ms;
        let mut i: usize = 0;
        let ghost j: int = 0;
        proof {
            reveal(Seq::filter);
            assert(self.pending@ =~= orig.take(j).filter(pred) + orig.skip(j));
        }
        while i < self.pending.len()
            invariant
                pred == (|p: PendingLogin| p.started_ms + TOKEN_LIFETIME_MS >= now_ms),
                0 <= j <= orig.len(),
                i == orig.take(j).filter(pred).len(),
                self.pending@ =~= orig.take(j).filter(pred) + orig.skip(j),
            decreases orig.len() - j,
        {
            proof {
                reveal(Seq::filter);
                orig.take(j).lemma_filter_len(pred);
                assert(j < orig.len());
                assert(self.pending@[i as int] == orig.skip(j)[0]);
                assert(orig.skip(j)[0] == orig[j]);
                assert(orig.take(j + 1).drop_last() =~= orig.take(j));
                assert(orig.take(j + 1).last() == orig[j]);
            }
            let keep = {
                let p = &self.pending[i];
                p.started_ms <= u64::MAX - TOKEN_LIFETIME_MS && p.started_ms + TOKEN_LIFETIME_MS
                    >= now_ms
            };
            // a start time so late that the sum would overflow is always in
            // the future, so such entries stay
            if self.pending[i].started_ms > u64::MAX - TOKEN_LIFETIME_MS || keep {
                i = i + 1;
                proof {
                    reveal(Seq::filter);
                    assert(pred(orig[j]));
                    assert(orig.take(j + 1).drop_last() == orig.take(j));
                    assert(orig.take(j + 1).filter(pred) =~= orig.take(j).filter(pred).push(
                        orig[j],
                    ));
                    assert(self.pending@ =~= orig.take(j + 1).filter(pred) + orig.skip(j + 1));
                    j = j + 1;
                }
            } else {
                self.pending.remove(i);
                proof {
                    reveal(Seq::filter);
                    assert(!pred(orig[j]));
                    assert(orig.take(j + 1).drop_last() == orig.take(j));
                    assert(orig.take(j + 1).filter(pred) =~= orig.take(j).filter(pred));
                    assert(self.pending@ =~= orig.take(j + 1).filter(pred) + orig.skip(j + 1));
                    j = j + 1;
                }
            }
        }
        proof {
            orig.take(j).lemma_filter_len(pred);
            assert(j == orig.len());
            assert(orig.take(j) =~= orig);
            assert(self.pending@ =~= orig.filter(pred));
            let ns = *self;
            assert forall|a: int, b: int|
                0 <= a < b < ns.pending@.len() implies ns.pending@[a].username@
                != ns.pending@[b].username@ by {
                lemma_filter_subset_pair(orig, pred, a, b);
            }
        }
    }

    /// Under `wf`, a pending entry found at index `i` is the one the spec
    /// speaks of.
    pub proof fn lemma_pending_at(self, i: int)
        requires
            self.wf(),
            0 <= i < self.pending@.len(),
        ensures
            self.has_pending(self.pending@[i].username@),
            self.pending_at(self.pending@[i].username@) == i,
            self.pending_of(self.pending@[i].username@) == self.pending@[i],
    {
        let n = self.pending@[i].username@;
        assert(self.has_pending(n));
        let k = self.pending_at(n);
        if k != i {
            assert(self.pending@[k].username@ == self.pending@[i].username@);
        }
    }
}

/// Two distinct positions of a filtered sequence come from two distinct
/// positions of the original one.
pub proof fn lemma_filter_subset_pair<A>(s: Seq<A>, pred: spec_fn(A) -> bool, a: int, b: int)
    requires
        0 <= a < b < s.filter(pred).len(),
    ensures
        exists|a0: int, b0: int|
            0 <= a0 < b0 < s.len() && s[a0] == s.filter(pred)[a] && s[b0] == s.filter(pred)[b],
    decreases s.len(),
{
    reveal(Seq::filter);
    if s.len() > 0 {
        let sub = s.drop_last().filter(pred);
        if pred(s.last()) && b == sub.len() {
            crate::files::lemma_filter_subset(s.drop_last(), pred, a);
            let a0 = choose|a0: int|
                0 <= a0 < s.drop_last().len() && s.drop_last()[a0] == sub[a];
            assert(s[a0] == s.filter(pred)[a]);
            assert(s[s.len() - 1] == s.filter(pred)[b]);
        } else {
            lemma_filter_subset_pair(s.drop_last(), pred, a, b);
            let (a0, b0): (int, int) = choose|a0: int, b0: int|
                0 <= a0 < b0 < s.drop_last().len() && s.drop_last()[a0] == sub[a]
                    && s.drop_last()[b0] == sub[b];
            assert(s[a0] == s.filter(pred)[a]);
            assert(s[b0] == s.filter(pred)[b]);
        }
    }
}

} // verus!
