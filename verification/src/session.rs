//! Server-side session and revocation state.
//!
//! A session record per primary address, each carrying the set of linked
//! wallet addresses (kept as a duplicate-free vector in insertion order),
//! and a set of revoked token identifiers. The store is a plain value; the
//! service edge wraps it in a lock and passes it by shared ownership.

use vstd::pervasive::VecAdditionalExecFns;
use vstd::prelude::*;

use crate::clock::now_timestamp;
use crate::errors::AuthError;

verus! {

/// One user's session record.
#[derive(Debug)]
pub struct UserSession {
    /// The primary wallet address, the record's key.
    pub address: String,
    /// Every linked wallet address, without duplicates; always holds
    /// `address`.
    pub wallet_addresses: Vec<String>,
    /// Unix time the record was created.
    pub created_at: i64,
    /// Unix time of the last login or wallet-linking touch.
    pub last_active_at: i64,
}

impl UserSession {
    /// The record's invariant: the primary address is linked, and no
    /// address is linked twice.
    pub open spec fn wf(self) -> bool {
        &&& self.wallet_addresses.deep_view().contains(self.address@)
        &&& forall|i: int, j: int|
            0 <= i < j < self.wallet_addresses.deep_view().len()
                ==> #[trigger] self.wallet_addresses.deep_view()[i]
                != #[trigger] self.wallet_addresses.deep_view()[j]
    }

    /// An independent copy of the record.
    fn snapshot(&self) -> (r: UserSession)
        ensures
            r.address@ == self.address@,
            r.wallet_addresses.deep_view() == self.wallet_addresses.deep_view(),
            r.created_at == self.created_at,
            r.last_active_at == self.last_active_at,
    {
        UserSession {
            address: self.address.clone(),
            wallet_addresses: clone_string_vec(&self.wallet_addresses),
            created_at: self.created_at,
            last_active_at: self.last_active_at,
        }
    }
}

/// The deep view of a vector of strings, element by element.
proof fn lemma_strs_deep_view(v: Vec<String>)
    ensures
        v.deep_view().len() == v@.len(),
        forall|i: int| 0 <= i < v@.len() ==> v.deep_view()[i] == v@[i]@,
{
}

/// An element-wise copy of a vector of strings.
pub(crate) fn clone_string_vec(v: &Vec<String>) -> (r: Vec<String>)
    ensures
        r.deep_view() == v.deep_view(),
{
    let n: usize = v.len();
    let mut r: Vec<String> = Vec::new();
    let mut i: usize = 0;
    while i < n
        invariant
            0 <= i <= n,
            n == v@.len(),
            r@.len() == i,
            forall|k: int| 0 <= k < i ==> #[trigger] r@[k]@ == v@[k]@,
        decreases n - i,
    {
        r.push(v[i].clone());
        i = i + 1;
    }
    proof {
        lemma_strs_deep_view(r);
        lemma_strs_deep_view(*v);
        assert(r.deep_view() =~= v.deep_view());
    }
    r
}

/// Does `v` hold the string `x`?
fn vec_contains_string(v: &Vec<String>, x: &String) -> (r: bool)
    ensures
        r == v.deep_view().contains(x@),
{
    let n: usize = v.len();
    let mut i: usize = 0;
    while i < n
        invariant
            0 <= i <= n,
            n == v@.len(),
            forall|k: int| 0 <= k < i ==> #[trigger] v.deep_view()[k] != x@,
        decreases n - i,
    {
        if v[i].eq(x) {
            proof {
                lemma_strs_deep_view(*v);
                assert(v.deep_view()[i as int] == x@);
            }
            return true;
        }
        proof {
            lemma_strs_deep_view(*v);
        }
        i = i + 1;
    }
    proof {
        if v.deep_view().contains(x@) {
            let w = choose|k: int| 0 <= k < v.deep_view().len() && v.deep_view()[k] == x@;
            assert(v.deep_view()[w] != x@);
        }
    }
    false
}

/// The index of the first record keyed by `addr`, searching from `i`.
pub open spec fn spec_session_index(ss: Seq<UserSession>, addr: Seq<char>, i: int) -> Option<int>
    decreases ss.len() - i + 1,
{
    if i < 0 || i >= ss.len() {
        None
    } else if ss[i].address@ == addr {
        Some(i)
    } else {
        spec_session_index(ss, addr, i + 1)
    }
}

/// The index of the record keyed by `addr`, if any.
pub open spec fn spec_find_session(ss: Seq<UserSession>, addr: Seq<char>) -> Option<int> {
    spec_session_index(ss, addr, 0)
}

/// What a found index means, and what `None` means.
pub proof fn lemma_session_index_props(ss: Seq<UserSession>, addr: Seq<char>, i: int)
    requires
        0 <= i <= ss.len(),
    ensures
        match spec_session_index(ss, addr, i) {
            Some(p) => i <= p < ss.len() && ss[p].address@ == addr,
            None => forall|k: int| i <= k < ss.len() ==> (#[trigger] ss[k]).address@ != addr,
        },
    decreases ss.len() - i,
{
    if i < ss.len() && ss[i].address@ != addr {
        lemma_session_index_props(ss, addr, i + 1);
    }
}

/// Session records and revoked token identifiers.
pub struct SessionStore {
    sessions: Vec<UserSession>,
    revoked: Vec<String>,
}

/// The record transition `create_session` performs at time `now`: an
/// existing record for `address` is touched, a missing one is created
/// with `address` linked to itself, and a copy of the result is returned.
pub open spec fn create_session_post(
    pre: SessionStore,
    post: SessionStore,
    address: Seq<char>,
    now: int,
    r: UserSession,
) -> bool {
    &&& post.revoked_view() == pre.revoked_view()
    &&& post.revoked_set() == pre.revoked_set()
    &&& r.wallet_addresses.deep_view().contains(address)
    &&& match spec_find_session(pre.sessions_view(), address) {
        Some(i) => {
            &&& post.sessions_view().len() == pre.sessions_view().len()
            &&& (forall|j: int|
                0 <= j < pre.sessions_view().len() && j != i ==> #[trigger] post.sessions_view()[j]
                    == pre.sessions_view()[j])
            &&& post.sessions_view()[i].address@ == pre.sessions_view()[i].address@
            &&& post.sessions_view()[i].wallet_addresses.deep_view() == pre.sessions_view()[i].wallet_addresses.deep_view()
            &&& post.sessions_view()[i].created_at == pre.sessions_view()[i].created_at
            &&& post.sessions_view()[i].last_active_at == now
            &&& r.address@ == post.sessions_view()[i].address@
            &&& r.wallet_addresses.deep_view() == post.sessions_view()[i].wallet_addresses.deep_view()
            &&& r.created_at == post.sessions_view()[i].created_at
            &&& r.last_active_at == now
        },
        None => {
            &&& post.sessions_view().len() == pre.sessions_view().len() + 1
            &&& post.sessions_view().subrange(0, pre.sessions_view().len() as int)
                == pre.sessions_view()
            &&& post.sessions_view().last().address@ == address
            &&& post.sessions_view().last().wallet_addresses.deep_view() == seq![address]
            &&& post.sessions_view().last().created_at == now
            &&& post.sessions_view().last().last_active_at == now
            &&& r.address@ == address
            &&& r.wallet_addresses.deep_view() == seq![address]
            &&& r.created_at == now
            &&& r.last_active_at == now
        },
    }
}

/// The record transition `add_wallet` performs at time `now`: the record
/// keyed by `primary` learns `new_addr` (once) and is touched; a missing
/// record is the only failure.
pub open spec fn add_wallet_post(
    pre: SessionStore,
    post: SessionStore,
    primary: Seq<char>,
    new_addr: Seq<char>,
    now: int,
    r: Result<(), AuthError>,
) -> bool {
    &&& post.revoked_view() == pre.revoked_view()
    &&& post.revoked_set() == pre.revoked_set()
    &&& match spec_find_session(pre.sessions_view(), primary) {
        None => {
            &&& r == Err::<(), AuthError>(AuthError::NotFound)
            &&& post.sessions_view() == pre.sessions_view()
        },
        Some(i) => {
            &&& r == Ok::<(), AuthError>(())
            &&& post.sessions_view().len() == pre.sessions_view().len()
            &&& (forall|j: int|
                0 <= j < pre.sessions_view().len() && j != i ==> #[trigger] post.sessions_view()[j]
                    == pre.sessions_view()[j])
            &&& post.sessions_view()[i].address@ == pre.sessions_view()[i].address@
            &&& post.sessions_view()[i].created_at == pre.sessions_view()[i].created_at
            &&& post.sessions_view()[i].last_active_at == now
            &&& post.sessions_view()[i].wallet_addresses.deep_view() == (if pre.sessions_view()[i].wallet_addresses.deep_view().contains(
                new_addr,
            ) {
                pre.sessions_view()[i].wallet_addresses.deep_view()
            } else {
                pre.sessions_view()[i].wallet_addresses.deep_view().push(new_addr)
            })
        },
    }
}

/// Is `u` still fresh at time `now` under tolerance `max_age_sec`?
pub open spec fn session_fresh(u: UserSession, now: int, max_age_sec: int) -> bool {
    now - u.last_active_at < max_age_sec
}

/// The records of `ss` that are still fresh at time `now`, in order.
pub open spec fn spec_sweep(ss: Seq<UserSession>, now: int, max_age_sec: int) -> Seq<UserSession>
    decreases ss.len(),
{
    if ss.len() == 0 {
        Seq::empty()
    } else {
        let rest = spec_sweep(ss.drop_first(), now, max_age_sec);
        if session_fresh(ss[0], now, max_age_sec) {
            seq![ss[0]] + rest
        } else {
            rest
        }
    }
}

/// The record transition a sweep at time `now` performs: exactly the
/// records whose idle time stays under `max_age_sec` remain, in order.
pub open spec fn sweep_post(pre: SessionStore, post: SessionStore, now: int, max_age_sec: int) -> bool {
    &&& post.revoked_view() == pre.revoked_view()
    &&& post.revoked_set() == pre.revoked_set()
    &&& post.sessions_view() == spec_sweep(pre.sessions_view(), now, max_age_sec)
}

impl SessionStore {
    /// The session records, in creation order.
    pub closed spec fn sessions_view(self) -> Seq<UserSession> {
        self.sessions@
    }

    /// The revoked token identifiers, in revocation order.
    pub closed spec fn revoked_view(self) -> Seq<Seq<char>> {
        self.revoked.deep_view()
    }

    /// The revoked token identifiers, as a set.
    pub closed spec fn revoked_set(self) -> Set<Seq<char>> {
        self.revoked.deep_view().to_set()
    }

    /// The store's invariant: one record per address, each well-formed.
    pub closed spec fn wf(self) -> bool {
        &&& forall|i: int, j: int|
            0 <= i < j < self.sessions@.len() ==> (#[trigger] self.sessions@[i]).address@ != (
            #[trigger] self.sessions@[j]).address@
        &&& forall|i: int| 0 <= i < self.sessions@.len() ==> (#[trigger] self.sessions@[i]).wf()
    }

    /// An empty store.
    pub fn new() -> (s: SessionStore)
        ensures
            s.sessions_view() == Seq::<UserSession>::empty(),
            s.revoked_view() == Seq::<Seq<char>>::empty(),
            s.revoked_set() == Set::<Seq<char>>::empty(),
            s.wf(),
    {
        let s = SessionStore { sessions: Vec::new(), revoked: Vec::new() };
        proof {
            assert(s.revoked.deep_view() =~= Seq::<Seq<char>>::empty());
            assert(s.revoked.deep_view().to_set() =~= Set::<Seq<char>>::empty()) by {
                assert forall|y: Seq<char>|
                    !(#[trigger] s.revoked.deep_view().to_set().contains(y)) by {
                    lemma_to_set_contains(s.revoked.deep_view(), y);
                }
            }
        }
        s
    }

    /// The index of the record keyed by `addr`.
    fn find_index(&self, addr: &String) -> (r: Option<usize>)
        ensures
            match r {
                Some(i) => spec_find_session(self.sessions_view(), addr@) == Some(i as int) && i
                    < self.sessions_view().len(),
                None => spec_find_session(self.sessions_view(), addr@) is None,
            },
    {
        let n: usize = self.sessions.len();
        let mut i: usize = 0;
        while i < n
            invariant
                0 <= i <= n,
                n == self.sessions@.len(),
                spec_find_session(self.sessions@, addr@) == spec_session_index(
                    self.sessions@,
                    addr@,
                    i as int,
                ),
            decreases n - i,
        {
            if self.sessions[i].address.eq(addr) {
                return Some(i);
            }
            i = i + 1;
        }
        None
    }

    /// Insert or refresh the record for `address` at time `now`, and
    /// return a copy of it.
    pub fn create_session_at(&mut self, address: String, now: i64) -> (r: UserSession)
        requires
            old(self).wf(),
        ensures
            final(self).wf(),
            create_session_post(*old(self), *final(self), address@, now as int, r),
    {
        proof {
            lemma_session_index_props(self.sessions@, address@, 0);
        }
        match self.find_index(&address) {
            Some(i) => {
                let existing: &UserSession = &self.sessions[i];
                proof {
                    assert(old(self).sessions@[i as int].wf());
                    assert(old(self).sessions@[i as int].address@ == address@);
                }
                let updated = UserSession {
                    address: existing.address.clone(),
                    wallet_addresses: clone_string_vec(&existing.wallet_addresses),
                    created_at: existing.created_at,
                    last_active_at: now,
                };
                let ret = updated.snapshot();
                self.sessions.set(i, updated);
                proof {
                    assert forall|a: int, b: int|
                        0 <= a < b < self.sessions@.len() implies (#[trigger] self.sessions@[a]).address@
                        != (#[trigger] self.sessions@[b]).address@ by {
                        assert(old(self).sessions@[a].address@ != old(self).sessions@[b].address@);
                    }
                    assert forall|k: int| 0 <= k < self.sessions@.len() implies (
                    #[trigger] self.sessions@[k]).wf() by {
                        assert(old(self).sessions@[k].wf());
                    }
                }
                ret
            },
            None => {
                let mut wallets: Vec<String> = Vec::new();
                wallets.push(address.clone());
                let fresh = UserSession {
                    address,
                    wallet_addresses: wallets,
                    created_at: now,
                    last_active_at: now,
                };
                let ret = fresh.snapshot();
                proof {
                    lemma_strs_deep_view(fresh.wallet_addresses);
                    assert(fresh.wallet_addresses.deep_view() =~= seq![fresh.address@]);
                    assert(fresh.wallet_addresses.deep_view()[0] == fresh.address@);
                    assert(fresh.wf());
                }
                self.sessions.push(fresh);
                proof {
                    assert(self.sessions@.subrange(0, old(self).sessions@.len() as int) =~= old(
                        self,
                    ).sessions@);
                    assert forall|a: int, b: int|
                        0 <= a < b < self.sessions@.len() implies (#[trigger] self.sessions@[a]).address@
                        != (#[trigger] self.sessions@[b]).address@ by {
                        if b < self.sessions@.len() - 1 {
                            assert(old(self).sessions@[a].address@ != old(
                                self,
                            ).sessions@[b].address@);
                        } else {
                            assert(old(self).sessions@[a].address@ != self.sessions@[b].address@);
                        }
                    }
                    assert forall|k: int| 0 <= k < self.sessions@.len() implies (
                    #[trigger] self.sessions@[k]).wf() by {
                        if k < self.sessions@.len() - 1 {
                            assert(old(self).sessions@[k].wf());
                        }
                    }
                }
                ret
            },
        }
    }

    /// Insert or refresh the record for `address` at the current time.
    pub fn create_session(&mut self, address: String) -> (r: UserSession)
        requires
            old(self).wf(),
        ensures
            final(self).wf(),
            exists|now: int|
                #[trigger] create_session_post(*old(self), *final(self), address@, now, r),
    {
        let now: i64 = now_timestamp();
        let r = self.create_session_at(address, now);
        proof {
            assert(create_session_post(*old(self), *self, address@, now as int, r));
        }
        r
    }

    /// Link `new_address` to the record keyed by `primary_address` at time
    /// `now`; fails only when that record is missing.
    pub fn add_wallet_at(&mut self, primary_address: &str, new_address: String, now: i64) -> (r:
        Result<(), AuthError>)
        requires
            old(self).wf(),
        ensures
            final(self).wf(),
            add_wallet_post(
                *old(self),
                *final(self),
                primary_address@,
                new_address@,
                now as int,
                r,
            ),
    {
        let key: String = primary_address.to_owned();
        proof {
            lemma_session_index_props(self.sessions@, key@, 0);
        }
        match self.find_index(&key) {
            None => Err(AuthError::NotFound),
            Some(i) => {
                let ghost pre_w = old(self).sessions@[i as int].wallet_addresses.deep_view();
                let ghost new_v = new_address@;
                let existing: &UserSession = &self.sessions[i];
                let mut wallets: Vec<String> = clone_string_vec(&existing.wallet_addresses);
                let had: bool = vec_contains_string(&wallets, &new_address);
                if !had {
                    wallets.push(new_address);
                    proof {
                        lemma_strs_deep_view(wallets);
                        assert(wallets.deep_view() =~= pre_w.push(new_v));
                    }
                }
                let updated = UserSession {
                    address: existing.address.clone(),
                    wallet_addresses: wallets,
                    created_at: existing.created_at,
                    last_active_at: now,
                };
                self.sessions.set(i, updated);
                proof {
                    let postw = self.sessions@[i as int].wallet_addresses.deep_view();
                    assert(postw == if pre_w.contains(new_v) {
                        pre_w
                    } else {
                        pre_w.push(new_v)
                    });
                    assert(old(self).sessions@[i as int].wf());
                    assert forall|a: int, b: int|
                        0 <= a < b < self.sessions@.len() implies (#[trigger] self.sessions@[a]).address@
                        != (#[trigger] self.sessions@[b]).address@ by {
                        assert(old(self).sessions@[a].address@ != old(self).sessions@[b].address@);
                    }
                    assert forall|k: int| 0 <= k < self.sessions@.len() implies (
                    #[trigger] self.sessions@[k]).wf() by {
                        if k != i {
                            assert(old(self).sessions@[k].wf());
                        } else {
                            let u = self.sessions@[k];
                            assert(old(self).sessions@[k].wf());
                            if !pre_w.contains(new_v) {
                                let w = choose|w: int|
                                    0 <= w < pre_w.len() && pre_w[w] == u.address@;
                                assert(u.wallet_addresses.deep_view()[w] == u.address@);
                                assert forall|a: int, b: int|
                                    0 <= a < b < u.wallet_addresses.deep_view().len() implies (
                                #[trigger] u.wallet_addresses.deep_view()[a]) != (
                                #[trigger] u.wallet_addresses.deep_view()[b]) by {
                                    if b < pre_w.len() {
                                        assert(pre_w[a] != pre_w[b]);
                                    } else {
                                        assert(!pre_w.contains(new_v));
                                        assert(pre_w[a] != new_v);
                                    }
                                }
                            }
                        }
                    }
                }
                Ok(())
            },
        }
    }

    /// Link `new_address` to the record keyed by `primary_address` at the
    /// current time.
    pub fn add_wallet(&mut self, primary_address: &str, new_address: String) -> (r: Result<
        (),
        AuthError,
    >)
        requires
            old(self).wf(),
        ensures
            final(self).wf(),
            exists|now: int|
                #[trigger] add_wallet_post(
                    *old(self),
                    *final(self),
                    primary_address@,
                    new_address@,
                    now,
                    r,
                ),
    {
        let now: i64 = now_timestamp();
        let r = self.add_wallet_at(primary_address, new_address, now);
        proof {
            assert(add_wallet_post(
                *old(self),
                *self,
                primary_address@,
                new_address@,
                now as int,
                r,
            ));
        }
        r
    }

    /// A copy of the record keyed by `address`, if any.
    pub fn get_session(&self, address: &str) -> (r: Option<UserSession>)
        ensures
            match spec_find_session(self.sessions_view(), address@) {
                None => r is None,
                Some(i) => r matches Some(s) && s.address@ == self.sessions_view()[i].address@
                    && s.wallet_addresses.deep_view()
                    == self.sessions_view()[i].wallet_addresses.deep_view() && s.created_at
                    == self.sessions_view()[i].created_at && s.last_active_at
                    == self.sessions_view()[i].last_active_at,
            },
    {
        let key: String = address.to_owned();
        match self.find_index(&key) {
            None => None,
            Some(i) => Some(self.sessions[i].snapshot()),
        }
    }

    /// Mark a token identifier as revoked.
    pub fn revoked_token(&mut self, jti: String)
        ensures
            final(self).sessions_view() == old(self).sessions_view(),
            final(self).revoked_set() == old(self).revoked_set().insert(jti@),
    {
        if !vec_contains_string(&self.revoked, &jti) {
            self.revoked.push(jti);
            proof {
                assert(self.revoked.deep_view() =~= old(self).revoked.deep_view().push(
                    self.revoked.deep_view().last(),
                ));
                lemma_to_set_insert(old(self).revoked.deep_view(), self.revoked.deep_view().last());
            }
        } else {
            proof {
                lemma_to_set_contains(self.revoked.deep_view(), jti@);
                assert(self.revoked.deep_view().to_set() =~= self.revoked.deep_view().to_set().insert(
                    jti@,
                ));
            }
        }
    }

    /// Is a token identifier revoked?
    pub fn is_token_revoked(&self, jti: &str) -> (r: bool)
        ensures
            r == self.revoked_set().contains(jti@),
    {
        let key: String = jti.to_owned();
        let r = vec_contains_string(&self.revoked, &key);
        proof {
            lemma_to_set_contains(self.revoked.deep_view(), jti@);
        }
        r
    }

    /// Drop every record idle for `max_age_sec` seconds or more at time
    /// `now`; fresher records survive unchanged, in order.
    pub fn cleanup_expired_at(&mut self, now: i64, max_age_sec: i64)
        requires
            old(self).wf(),
        ensures
            final(self).wf(),
            sweep_post(*old(self), *final(self), now as int, max_age_sec as int),
    {
        let ghost orig = self.sessions@;
        let mut kept: Vec<UserSession> = Vec::new();
        let ghost mut rest: Seq<UserSession> = orig;
        proof {
            assert(self.sessions@ =~= rest);
        }
        while self.sessions.len() > 0
            invariant
                self.sessions@ == rest,
                spec_sweep(orig, now as int, max_age_sec as int) == kept@ + spec_sweep(
                    rest,
                    now as int,
                    max_age_sec as int,
                ),
                self.revoked.deep_view() == old(self).revoked.deep_view(),
                forall|k: int| 0 <= k < kept@.len() ==> orig.contains(#[trigger] kept@[k]),
                forall|k: int| 0 <= k < rest.len() ==> orig.contains(#[trigger] rest[k]),
            decreases self.sessions@.len(),
        {
            let ghost pre_rest = rest;
            let ghost pre_kept = kept@;
            let s: UserSession = self.sessions.remove(0);
            proof {
                rest = pre_rest.drop_first();
                assert(self.sessions@ =~= rest);
                assert(s == pre_rest[0]);
            }
            let keep: bool = (now as i128) - (s.last_active_at as i128) < (max_age_sec as i128);
            if keep {
                kept.push(s);
            }
            proof {
                if session_fresh(pre_rest[0], now as int, max_age_sec as int) {
                    assert(spec_sweep(pre_rest, now as int, max_age_sec as int) == seq![
                        pre_rest[0],
                    ] + spec_sweep(rest, now as int, max_age_sec as int));
                    assert(kept@ =~= pre_kept.push(s));
                    assert(pre_kept + spec_sweep(pre_rest, now as int, max_age_sec as int) =~= kept@
                        + spec_sweep(rest, now as int, max_age_sec as int));
                } else {
                    assert(spec_sweep(pre_rest, now as int, max_age_sec as int) == spec_sweep(
                        rest,
                        now as int,
                        max_age_sec as int,
                    ));
                }
            }
        }
        proof {
            assert(rest =~= Seq::<UserSession>::empty());
            assert(spec_sweep(rest, now as int, max_age_sec as int) =~= Seq::<UserSession>::empty());
            assert(spec_sweep(orig, now as int, max_age_sec as int) =~= kept@);
        }
        self.sessions = kept;
        proof {
            assert forall|a: int, b: int|
                0 <= a < b < self.sessions@.len() implies (#[trigger] self.sessions@[a]).address@
                != (#[trigger] self.sessions@[b]).address@ by {
                lemma_sweep_pairs(orig, now as int, max_age_sec as int, a, b);
                let (i, j) = choose|i: int, j: int|
                    0 <= i < j < orig.len() && orig[i] == spec_sweep(
                        orig,
                        now as int,
                        max_age_sec as int,
                    )[a] && orig[j] == spec_sweep(orig, now as int, max_age_sec as int)[b];
                assert(old(self).sessions@[i].address@ != old(self).sessions@[j].address@);
            }
            assert forall|k: int| 0 <= k < self.sessions@.len() implies (
            #[trigger] self.sessions@[k]).wf() by {
                lemma_sweep_element_index(orig, now as int, max_age_sec as int, k);
                let i = choose|i: int|
                    0 <= i < orig.len() && orig[i] == spec_sweep(
                        orig,
                        now as int,
                        max_age_sec as int,
                    )[k];
                assert(old(self).sessions@[i].wf());
            }
        }
    }

    /// Drop every record idle for `max_age_sec` seconds or more.
    pub fn cleanup_expired(&mut self, max_age_sec: i64)
        requires
            old(self).wf(),
        ensures
            final(self).wf(),
            final(self).revoked_view() == old(self).revoked_view(),
            exists|now: i64|
                #[trigger] sweep_post(*old(self), *final(self), now as int, max_age_sec as int),
    {
        let now: i64 = now_timestamp();
        self.cleanup_expired_at(now, max_age_sec);
        proof {
            assert(sweep_post(*old(self), *self, now as int, max_age_sec as int));
        }
    }
}

/// Membership in the set view of a sequence is membership in the sequence.
proof fn lemma_to_set_contains(s: Seq<Seq<char>>, x: Seq<char>)
    ensures
        s.to_set().contains(x) == s.contains(x),
{
    if s.contains(x) {
        assert(s.to_set().contains(x));
    }
    if s.to_set().contains(x) {
        assert(s.contains(x));
    }
}

/// Pushing an element turns the set view into an insertion.
proof fn lemma_to_set_insert(s: Seq<Seq<char>>, x: Seq<char>)
    ensures
        s.push(x).to_set() == s.to_set().insert(x),
{
    assert(s.push(x).to_set() =~= s.to_set().insert(x)) by {
        assert forall|y: Seq<char>| s.push(x).to_set().contains(y) implies s.to_set().insert(
            x,
        ).contains(y) by {
            lemma_to_set_contains(s.push(x), y);
            if y != x {
                let w = choose|k: int| 0 <= k < s.push(x).len() && s.push(x)[k] == y;
                assert(s[w] == y);
                lemma_to_set_contains(s, y);
            }
        }
        assert forall|y: Seq<char>| s.to_set().insert(x).contains(y) implies s.push(
            x,
        ).to_set().contains(y) by {
            if y == x {
                assert(s.push(x)[s.len() as int] == x);
                lemma_to_set_contains(s.push(x), y);
            } else {
                lemma_to_set_contains(s, y);
                let w = choose|k: int| 0 <= k < s.len() && s[k] == y;
                assert(s.push(x)[w] == y);
                lemma_to_set_contains(s.push(x), y);
            }
        }
    }
}

/// A record kept by a sweep satisfies the freshness bound.
proof fn lemma_sweep_pred(ss: Seq<UserSession>, now: int, max_age: int, a: int)
    requires
        0 <= a < spec_sweep(ss, now, max_age).len(),
    ensures
        session_fresh(spec_sweep(ss, now, max_age)[a], now, max_age),
    decreases ss.len(),
{
    if ss.len() > 0 {
        let rest = ss.drop_first();
        if session_fresh(ss[0], now, max_age) {
            if a > 0 {
                lemma_sweep_pred(rest, now, max_age, a - 1);
            }
        } else {
            lemma_sweep_pred(rest, now, max_age, a);
        }
    }
}

/// An element kept by a sweep stands somewhere in the original.
proof fn lemma_sweep_element_index(ss: Seq<UserSession>, now: int, max_age: int, a: int)
    requires
        0 <= a < spec_sweep(ss, now, max_age).len(),
    ensures
        exists|i: int| 0 <= i < ss.len() && ss[i] == spec_sweep(ss, now, max_age)[a],
    decreases ss.len(),
{
    if ss.len() > 0 {
        let rest = ss.drop_first();
        let sw = spec_sweep(ss, now, max_age);
        if session_fresh(ss[0], now, max_age) {
            if a == 0 {
                assert(ss[0] == sw[0]);
            } else {
                lemma_sweep_element_index(rest, now, max_age, a - 1);
                let i = choose|i: int|
                    0 <= i < rest.len() && rest[i] == spec_sweep(rest, now, max_age)[a - 1];
                assert(ss[i + 1] == sw[a]);
            }
        } else {
            lemma_sweep_element_index(rest, now, max_age, a);
            let i = choose|i: int|
                0 <= i < rest.len() && rest[i] == spec_sweep(rest, now, max_age)[a];
            assert(ss[i + 1] == sw[a]);
        }
    }
}

/// Two positions of a swept sequence come from two positions of the
/// original, in the same order.
proof fn lemma_sweep_pairs(ss: Seq<UserSession>, now: int, max_age: int, a: int, b: int)
    requires
        0 <= a < b < spec_sweep(ss, now, max_age).len(),
    ensures
        exists|i: int, j: int|
            0 <= i < j < ss.len() && ss[i] == spec_sweep(ss, now, max_age)[a] && ss[j]
                == spec_sweep(ss, now, max_age)[b],
    decreases ss.len(),
{
    if ss.len() > 0 {
        let rest = ss.drop_first();
        let sw = spec_sweep(ss, now, max_age);
        if session_fresh(ss[0], now, max_age) {
            if a == 0 {
                lemma_sweep_element_index(rest, now, max_age, b - 1);
                let j = choose|j: int|
                    0 <= j < rest.len() && rest[j] == spec_sweep(rest, now, max_age)[b - 1];
                assert(ss[0] == sw[a]);
                assert(ss[j + 1] == sw[b]);
            } else {
                lemma_sweep_pairs(rest, now, max_age, a - 1, b - 1);
                let (i, j) = choose|i: int, j: int|
                    0 <= i < j < rest.len() && rest[i] == spec_sweep(rest, now, max_age)[a - 1]
                        && rest[j] == spec_sweep(rest, now, max_age)[b - 1];
                assert(ss[i + 1] == sw[a] && ss[j + 1] == sw[b]);
            }
        } else {
            lemma_sweep_pairs(rest, now, max_age, a, b);
            let (i, j) = choose|i: int, j: int|
                0 <= i < j < rest.len() && rest[i] == spec_sweep(rest, now, max_age)[a] && rest[j]
                    == spec_sweep(rest, now, max_age)[b];
            assert(ss[i + 1] == sw[a] && ss[j + 1] == sw[b]);
        }
    }
}

/// A fresh record of the original survives the sweep.
proof fn lemma_sweep_keeps(ss: Seq<UserSession>, now: int, max_age: int, i: int)
    requires
        0 <= i < ss.len(),
        session_fresh(ss[i], now, max_age),
    ensures
        spec_sweep(ss, now, max_age).contains(ss[i]),
    decreases ss.len(),
{
    let rest = ss.drop_first();
    let sw = spec_sweep(ss, now, max_age);
    if i == 0 {
        assert(sw[0] == ss[0]);
    } else {
        lemma_sweep_keeps(rest, now, max_age, i - 1);
        let k = choose|k: int|
            0 <= k < spec_sweep(rest, now, max_age).len() && spec_sweep(rest, now, max_age)[k]
                == rest[i - 1];
        if session_fresh(ss[0], now, max_age) {
            assert(sw[k + 1] == rest[i - 1]);
        } else {
            assert(sw[k] == rest[i - 1]);
        }
        assert(rest[i - 1] == ss[i]);
    }
}

// ---------------------------------------------------------------------------
// Revocation and sweep laws
// ---------------------------------------------------------------------------

/// Every record of a well-formed store links its own primary address.
pub proof fn lemma_wf_session_links_self(s: SessionStore, i: int)
    requires
        s.wf(),
        0 <= i < s.sessions_view().len(),
    ensures
        s.sessions_view()[i].wallet_addresses.deep_view().contains(
            s.sessions_view()[i].address@,
        ),
{
    assert(s.sessions_view()[i].wf());
}

/// After revoking an identifier it is revoked, and any other identifier
/// keeps exactly the status it had.
pub proof fn lemma_revocation(revoked: Set<Seq<char>>, jti: Seq<char>, other: Seq<char>)
    ensures
        revoked.insert(jti).contains(jti),
        other != jti ==> revoked.insert(jti).contains(other) == revoked.contains(other),
{
}

/// After a sweep at time `now` with tolerance `max_age`, a record idle for
/// `max_age` or longer is absent, and a fresher record that was present
/// remains present.
pub proof fn lemma_sweep(ss: Seq<UserSession>, now: int, max_age: int, s: UserSession)
    ensures
        now - s.last_active_at >= max_age ==> !spec_sweep(ss, now, max_age).contains(s),
        ss.contains(s) && now - s.last_active_at < max_age ==> spec_sweep(
            ss,
            now,
            max_age,
        ).contains(s),
{
    if now - s.last_active_at >= max_age {
        if spec_sweep(ss, now, max_age).contains(s) {
            let a = choose|a: int|
                0 <= a < spec_sweep(ss, now, max_age).len() && spec_sweep(ss, now, max_age)[a]
                    == s;
            lemma_sweep_pred(ss, now, max_age, a);
        }
    }
    if ss.contains(s) && now - s.last_active_at < max_age {
        let i = choose|i: int| 0 <= i < ss.len() && ss[i] == s;
        lemma_sweep_keeps(ss, now, max_age, i);
    }
}

/// Sweeping is idempotent: a second sweep at the same time and tolerance
/// changes nothing, since everything a sweep keeps is fresh.
pub proof fn lemma_sweep_idempotent(ss: Seq<UserSession>, now: int, max_age: int)
    ensures
        spec_sweep(spec_sweep(ss, now, max_age), now, max_age) == spec_sweep(ss, now, max_age),
    decreases ss.len(),
{
    let sw = spec_sweep(ss, now, max_age);
    if ss.len() == 0 {
        assert(sw =~= Seq::<UserSession>::empty());
    } else {
        let rest = ss.drop_first();
        lemma_sweep_idempotent(rest, now, max_age);
        if session_fresh(ss[0], now, max_age) {
            let tail = spec_sweep(rest, now, max_age);
            assert(sw == seq![ss[0]] + tail);
            assert(sw.len() > 0 && sw[0] == ss[0]);
            assert(sw.drop_first() =~= tail);
            assert(spec_sweep(sw, now, max_age) == seq![sw[0]] + spec_sweep(
                tail,
                now,
                max_age,
            ));
        } else {
            assert(sw == spec_sweep(rest, now, max_age));
        }
    }
}

} // verus!
