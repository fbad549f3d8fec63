//! The tenant-scoped lobby directory. A registry owns zero or one lobby
//! per tenant: creation on an occupied tenant fails without mutating
//! anything, every lobby-mutating entry point touches the lobby's
//! interaction timestamp on success and removes a lobby the moment its
//! membership empties, and a periodic sweep removes lobbies idle past a
//! threshold. Exclusive access (`&mut self`) serializes all mutation, so
//! every check-then-act sequence below is atomic with respect to other
//! mutators.

use vstd::prelude::*;

use crate::game::GameSettings;
use crate::game::SettingsError;
use crate::lobby::Lobby;
use crate::lobby::LobbyInviteError;
use crate::lobby::LobbyJoinError;
use crate::lobby::LobbyKick;
use crate::lobby::LobbyKickError;
use crate::lobby::LobbyPromoteError;
use crate::lobby::LobbyUninviteError;
use crate::lobby::PlayerId;

verus! {

/// A tenant identifier: an isolated scope (a community, a server) that
/// owns at most one lobby.
pub type TenantId = u64;

/// Failure of `LobbyRegistry::create`.
#[derive(Clone, Copy, Debug, PartialEq, Eq, Structural)]
pub enum RegistryCreateError {
    /// The tenant already owns a lobby.
    AlreadyExists(TenantId),
}

/// Failure of a registry entry point that targets an existing lobby:
/// either the tenant owns no lobby, or the lobby operation itself failed.
#[derive(Debug, PartialEq, Eq)]
pub enum CombinedError<E> {
    NoSuchLobby(TenantId),
    Op(E),
}

/// One directory entry: a tenant and the lobby it owns.
pub struct RegistryEntry {
    pub tenant: TenantId,
    pub lobby: Lobby,
}

/// The directory itself: a set of entries with pairwise distinct tenants,
/// each holding a well-formed (in particular non-empty) lobby.
pub struct LobbyRegistry {
    pub entries: Vec<RegistryEntry>,
}

impl LobbyRegistry {
    /// No two entries share a tenant: each tenant owns at most one lobby.
    pub open spec fn unique_tenants(self) -> bool {
        forall|i: int, j: int|
            0 <= i < self.entries@.len() && 0 <= j < self.entries@.len() && i != j
                ==> #[trigger] self.entries@[i].tenant != #[trigger] self.entries@[j].tenant
    }

    /// Registry invariant: distinct tenants, and every stored lobby is
    /// well-formed — in particular, never empty.
    pub open spec fn wf(self) -> bool {
        &&& self.unique_tenants()
        &&& forall|i: int|
            0 <= i < self.entries@.len() ==> (#[trigger] self.entries@[i]).lobby.wf()
    }

    /// Whether `tenant` currently owns a lobby.
    pub open spec fn spec_contains(self, tenant: TenantId) -> bool {
        exists|i: int|
            0 <= i < self.entries@.len() && (#[trigger] self.entries@[i]).tenant == tenant
    }

    /// The index of `tenant`'s entry (meaningful when `spec_contains`).
    pub open spec fn idx_of(self, tenant: TenantId) -> int {
        choose|i: int|
            0 <= i < self.entries@.len() && (#[trigger] self.entries@[i]).tenant == tenant
    }

    /// The lobby `tenant` owns (meaningful when `spec_contains`).
    pub open spec fn spec_lobby(self, tenant: TenantId) -> Lobby {
        self.entries@[self.idx_of(tenant)].lobby
    }

    /// Frame: every tenant other than `tenant` owns a lobby afterwards
    /// exactly if it did before, and an unchanged one.
    pub open spec fn others_unchanged(pre: LobbyRegistry, post: LobbyRegistry, tenant: TenantId) -> bool {
        forall|u: TenantId|
            u != tenant ==> #[trigger] post.spec_contains(u) == pre.spec_contains(u) && (
            pre.spec_contains(u) ==> post.spec_lobby(u) == pre.spec_lobby(u))
    }

    /// An entry found at an index is the entry the model denotes: tenants
    /// are unique, so the index and the lobby are determined.
    proof fn lemma_at_index(self, tenant: TenantId, i: int)
        requires
            self.unique_tenants(),
            0 <= i < self.entries@.len(),
            self.entries@[i].tenant == tenant,
        ensures
            self.spec_contains(tenant),
            self.idx_of(tenant) == i,
            self.spec_lobby(tenant) == self.entries@[i].lobby,
    {
        assert(self.spec_contains(tenant));
        let j = self.idx_of(tenant);
        assert(0 <= j < self.entries@.len() && self.entries@[j].tenant == tenant) by {
            assert(self.spec_contains(tenant));
        }
    }

    /// Replacing the entry at `i` by one for the same tenant keeps every
    /// other tenant's view of the directory unchanged.
    proof fn lemma_update_frame(pre: LobbyRegistry, post: LobbyRegistry, i: int)
        requires
            pre.unique_tenants(),
            0 <= i < pre.entries@.len(),
            post.entries@.len() == pre.entries@.len(),
            forall|j: int|
                0 <= j < pre.entries@.len() && j != i ==> post.entries@[j] == pre.entries@[j],
            post.entries@[i].tenant == pre.entries@[i].tenant,
        ensures
            post.unique_tenants(),
            forall|u: TenantId| #[trigger] post.spec_contains(u) == pre.spec_contains(u),
            LobbyRegistry::others_unchanged(pre, post, pre.entries@[i].tenant),
            post.spec_contains(pre.entries@[i].tenant),
            post.idx_of(pre.entries@[i].tenant) == i,
            post.spec_lobby(pre.entries@[i].tenant) == post.entries@[i].lobby,
    {
        let t = pre.entries@[i].tenant;
        assert(forall|j: int|
            0 <= j < post.entries@.len() ==> #[trigger] post.entries@[j].tenant
                == pre.entries@[j].tenant);
        assert forall|u: TenantId| #[trigger] post.spec_contains(u) == pre.spec_contains(u) by {
            if pre.spec_contains(u) {
                let k = pre.idx_of(u);
                assert(pre.entries@[k].tenant == u) by {
                    assert(pre.spec_contains(u));
                }
                assert(post.entries@[k].tenant == u);
            }
            if post.spec_contains(u) {
                let k = post.idx_of(u);
                assert(post.entries@[k].tenant == u) by {
                    assert(post.spec_contains(u));
                }
                assert(pre.entries@[k].tenant == u);
            }
        }
        post.lemma_at_index(t, i);
        assert forall|u: TenantId|
            u != t && pre.spec_contains(u) implies post.spec_lobby(u) == pre.spec_lobby(u) by {
            let k = pre.idx_of(u);
            assert(pre.entries@[k].tenant == u) by {
                assert(pre.spec_contains(u));
            }
            pre.lemma_at_index(u, k);
            assert(k != i);
            post.lemma_at_index(u, k);
        }
    }

    /// Removing the entry at `i` removes exactly that tenant's lobby and
    /// keeps every other tenant's view unchanged.
    proof fn lemma_remove_frame(pre: LobbyRegistry, post: LobbyRegistry, i: int)
        requires
            pre.wf(),
            0 <= i < pre.entries@.len(),
            post.entries@ == pre.entries@.remove(i),
        ensures
            post.wf(),
            !post.spec_contains(pre.entries@[i].tenant),
            LobbyRegistry::others_unchanged(pre, post, pre.entries@[i].tenant),
            post.entries@.len() == pre.entries@.len() - 1,
    {
        let t = pre.entries@[i].tenant;
        pre.entries@.remove_ensures(i);
        assert forall|k: int, j: int|
            0 <= k < post.entries@.len() && 0 <= j < post.entries@.len() && k
                != j implies #[trigger] post.entries@[k].tenant != #[trigger] post.entries@[j].tenant by {
            let k2 = if k < i { k } else { k + 1 };
            let j2 = if j < i { j } else { j + 1 };
            assert(post.entries@[k] == pre.entries@[k2]);
            assert(post.entries@[j] == pre.entries@[j2]);
        }
        assert forall|k: int| 0 <= k < post.entries@.len() implies (#[trigger] post.entries@[k]).lobby.wf() by {
            let k2 = if k < i { k } else { k + 1 };
            assert(post.entries@[k] == pre.entries@[k2]);
        }
        if post.spec_contains(t) {
            let k = post.idx_of(t);
            assert(post.entries@[k].tenant == t) by {
                assert(post.spec_contains(t));
            }
            let k2 = if k < i { k } else { k + 1 };
            assert(pre.entries@[k2].tenant == t);
            assert(k2 != i);
            assert(false);
        }
        assert forall|u: TenantId|
            u != t implies #[trigger] post.spec_contains(u) == pre.spec_contains(u) && (
        pre.spec_contains(u) ==> post.spec_lobby(u) == pre.spec_lobby(u)) by {
            if pre.spec_contains(u) {
                let k2 = pre.idx_of(u);
                assert(pre.entries@[k2].tenant == u) by {
                    assert(pre.spec_contains(u));
                }
                assert(k2 != i);
                let k = if k2 < i { k2 } else { k2 - 1 };
                assert(post.entries@[k] == pre.entries@[k2]);
                pre.lemma_at_index(u, k2);
                post.lemma_at_index(u, k);
            }
            if post.spec_contains(u) {
                let k = post.idx_of(u);
                assert(post.entries@[k].tenant == u) by {
                    assert(post.spec_contains(u));
                }
                let k2 = if k < i { k } else { k + 1 };
                assert(pre.entries@[k2].tenant == u);
            }
        }
    }

    /// Appending an entry for a tenant that owned no lobby gives exactly
    /// that tenant a lobby and keeps every other tenant's view unchanged.
    proof fn lemma_push_frame(pre: LobbyRegistry, post: LobbyRegistry, e: RegistryEntry)
        requires
            pre.wf(),
            e.lobby.wf(),
            !pre.spec_contains(e.tenant),
            post.entries@ == pre.entries@.push(e),
        ensures
            post.wf(),
            post.spec_contains(e.tenant),
            post.spec_lobby(e.tenant) == e.lobby,
            LobbyRegistry::others_unchanged(pre, post, e.tenant),
    {
        let n = pre.entries@.len() as int;
        assert(post.entries@[n] == e);
        assert(forall|j: int| 0 <= j < n ==> post.entries@[j] == pre.entries@[j]);
        assert forall|k: int, j: int|
            0 <= k < post.entries@.len() && 0 <= j < post.entries@.len() && k
                != j implies #[trigger] post.entries@[k].tenant != #[trigger] post.entries@[j].tenant by {
            if k < n && j < n {
            } else if k == n {
                assert(pre.entries@[j].tenant != e.tenant) by {
                    if pre.entries@[j].tenant == e.tenant {
                        assert(pre.spec_contains(e.tenant));
                    }
                }
            } else {
                assert(pre.entries@[k].tenant != e.tenant) by {
                    if pre.entries@[k].tenant == e.tenant {
                        assert(pre.spec_contains(e.tenant));
                    }
                }
            }
        }
        assert forall|k: int| 0 <= k < post.entries@.len() implies (#[trigger] post.entries@[k]).lobby.wf() by {
            if k < n {
                assert(post.entries@[k] == pre.entries@[k]);
            }
        }
        post.lemma_at_index(e.tenant, n);
        assert forall|u: TenantId|
            u != e.tenant implies #[trigger] post.spec_contains(u) == pre.spec_contains(u) && (
        pre.spec_contains(u) ==> post.spec_lobby(u) == pre.spec_lobby(u)) by {
            if pre.spec_contains(u) {
                let k = pre.idx_of(u);
                assert(pre.entries@[k].tenant == u) by {
                    assert(pre.spec_contains(u));
                }
                pre.lemma_at_index(u, k);
                post.lemma_at_index(u, k);
            }
            if post.spec_contains(u) {
                let k = post.idx_of(u);
                assert(post.entries@[k].tenant == u) by {
                    assert(post.spec_contains(u));
                }
                assert(k != n);
                assert(pre.entries@[k].tenant == u);
            }
        }
    }

    /// An empty registry: no tenant owns a lobby.
    pub fn new() -> (r: LobbyRegistry)
        ensures
            r.wf(),
            r.entries@.len() == 0,
            forall|u: TenantId| !r.spec_contains(u),
    {
        LobbyRegistry { entries: Vec::new() }
    }

    /// The index of `tenant`'s entry, if it owns one.
    fn find_tenant(&self, tenant: TenantId) -> (r: Option<usize>)
        requires
            self.unique_tenants(),
        ensures
            match r {
                Some(i) => i < self.entries@.len() && self.entries@[i as int].tenant == tenant
                    && self.spec_contains(tenant) && self.idx_of(tenant) == i,
                None => !self.spec_contains(tenant),
            },
    {
        let mut i: usize = 0;
        while i < self.entries.len()
            invariant
                i <= self.entries@.len(),
                forall|j: int| 0 <= j < i ==> (#[trigger] self.entries@[j]).tenant != tenant,
                self.unique_tenants(),
            decreases self.entries@.len() - i,
        {
            if self.entries[i].tenant == tenant {
                proof {
                    self.lemma_at_index(tenant, i as int);
                }
                return Some(i);
            }
            i += 1;
        }
        None
    }

    /// Creates a lobby for `tenant` with `host` as its only member, with
    /// both timestamps at `now`. Fails, mutating nothing, exactly when the
    /// tenant already owns a lobby.
    pub fn create(&mut self, tenant: TenantId, host: PlayerId, now: u64) -> (r: Result<
        (),
        RegistryCreateError,
    >)
        requires
            old(self).wf(),
        ensures
            final(self).wf(),
            r is Ok <==> !old(self).spec_contains(tenant),
            r is Err ==> *final(self) == *old(self) && r == Err::<(), RegistryCreateError>(
                RegistryCreateError::AlreadyExists(tenant),
            ),
            r is Ok ==> final(self).spec_contains(tenant) && final(self).spec_lobby(
                tenant,
            ).is_fresh(host, now),
            LobbyRegistry::others_unchanged(*old(self), *final(self), tenant),
    {
        match self.find_tenant(tenant) {
            Some(_) => Err(RegistryCreateError::AlreadyExists(tenant)),
            None => {
                let lobby = Lobby::new(host, now);
                self.entries.push(RegistryEntry { tenant, lobby });
                proof {
                    let e = self.entries@[self.entries@.len() - 1];
                    LobbyRegistry::lemma_push_frame(*old(self), *self, e);
                }
                Ok(())
            },
        }
    }

    /// Read-only lookup: the lobby `tenant` owns, if any.
    pub fn get(&self, tenant: TenantId) -> (r: Option<&Lobby>)
        requires
            self.wf(),
        ensures
            match r {
                Some(l) => self.spec_contains(tenant) && *l == self.spec_lobby(tenant),
                None => !self.spec_contains(tenant),
            },
    {
        match self.find_tenant(tenant) {
            Some(i) => Some(&self.entries[i].lobby),
            None => None,
        }
    }
}

/// Removing the entry at `i` and reinserting an entry at the same place
/// is an in-place replacement.
proof fn lemma_remove_insert(s: Seq<RegistryEntry>, i: int, e: RegistryEntry)
    requires
        0 <= i < s.len(),
    ensures
        s.remove(i).insert(i, e) =~= s.update(i, e),
{
    s.remove_ensures(i);
    s.remove(i).insert_ensures(i, e);
}

/// The lobby transition a successful registry `join` enacts: the member
/// appended, the interaction clock touched at `now`, everything else kept.
pub open spec fn joined_touched(pre: Lobby, post: Lobby, user: PlayerId, now: u64) -> bool {
    &&& post.players@ == pre.players@.push(user)
    &&& post.last_interaction == now
    &&& Lobby::same_core(pre, post)
}

/// The lobby transition a successful registry `kick` enacts when members
/// remain: the target removed, the clock touched, everything else kept.
pub open spec fn kicked_touched(pre: Lobby, post: Lobby, user: PlayerId, now: u64) -> bool {
    &&& post.players@ == pre.players@.remove_value(user)
    &&& post.last_interaction == now
    &&& Lobby::same_core(pre, post)
}

/// The lobby transition a successful registry `promote_host` enacts: the
/// member moved to the front, the clock touched, everything else kept.
pub open spec fn promoted_touched(pre: Lobby, post: Lobby, user: PlayerId, now: u64) -> bool {
    &&& post.players@ == seq![user] + pre.players@.remove_value(user)
    &&& post.last_interaction == now
    &&& Lobby::same_core(pre, post)
}

/// The lobby transition a successful registry `invite` enacts: the id
/// appended to the invitation list, the clock touched, the rest kept.
pub open spec fn invited_touched(pre: Lobby, post: Lobby, user: PlayerId, now: u64) -> bool {
    &&& post.accessibility.spec_invitations() == Some(
        pre.accessibility.spec_invitations().unwrap().push(user),
    )
    &&& post.players@ == pre.players@
    &&& post.last_interaction == now
    &&& post.created_at == pre.created_at
    &&& post.player_limit == pre.player_limit
    &&& post.game_settings == pre.game_settings
}

/// The lobby transition a successful registry `uninvite` enacts: the id
/// removed from the invitation list, the clock touched, the rest kept.
pub open spec fn uninvited_touched(pre: Lobby, post: Lobby, user: PlayerId, now: u64) -> bool {
    &&& post.accessibility.spec_invitations() == Some(
        pre.accessibility.spec_invitations().unwrap().remove_value(user),
    )
    &&& post.players@ == pre.players@
    &&& post.last_interaction == now
    &&& post.created_at == pre.created_at
    &&& post.player_limit == pre.player_limit
    &&& post.game_settings == pre.game_settings
}

/// The lobby transition a successful registry `update_settings` enacts:
/// the validated settings stored, the clock touched, the rest kept.
pub open spec fn configured_touched(pre: Lobby, post: Lobby, settings: GameSettings, now: u64) -> bool {
    &&& post.game_settings == settings
    &&& post.players@ == pre.players@
    &&& post.last_interaction == now
    &&& post.created_at == pre.created_at
    &&& post.player_limit == pre.player_limit
    &&& post.accessibility == pre.accessibility
}

impl LobbyRegistry {
    /// The directory is unchanged: same entries in the same order.
    pub open spec fn unchanged(pre: LobbyRegistry, post: LobbyRegistry) -> bool {
        post.entries@ == pre.entries@
    }

    /// Lets `user` join `tenant`'s lobby and touches its interaction
    /// clock. The tenant must own a lobby and the lobby's own join rules
    /// must all pass; any failure leaves the registry unchanged.
    pub fn join(&mut self, tenant: TenantId, user: PlayerId, now: u64) -> (r: Result<
        (),
        CombinedError<LobbyJoinError>,
    >)
        requires
            old(self).wf(),
        ensures
            final(self).wf(),
            LobbyRegistry::others_unchanged(*old(self), *final(self), tenant),
            !old(self).spec_contains(tenant) ==> LobbyRegistry::unchanged(*old(self), *final(self))
                && r == Err::<(), CombinedError<LobbyJoinError>>(CombinedError::NoSuchLobby(tenant)),
            old(self).spec_contains(tenant) ==> ({
                let pre = old(self).spec_lobby(tenant);
                &&& (r is Ok <==> pre.join_allowed(user))
                &&& r is Ok ==> final(self).spec_contains(tenant) && joined_touched(
                    pre,
                    final(self).spec_lobby(tenant),
                    user,
                    now,
                )
                &&& r is Err ==> LobbyRegistry::unchanged(*old(self), *final(self)) && r == Err::<
                    (),
                    CombinedError<LobbyJoinError>,
                >(CombinedError::Op(pre.join_err(user)))
            }),
    {
        match self.find_tenant(tenant) {
            None => Err(CombinedError::NoSuchLobby(tenant)),
            Some(i) => {
                let ghost pre_entries = self.entries@;
                let mut entry = self.entries.remove(i);
                let res = entry.lobby.join(user);
                if res.is_ok() {
                    entry.lobby.notify_interaction(now);
                }
                self.entries.insert(i, entry);
                proof {
                    lemma_remove_insert(pre_entries, i as int, self.entries@[i as int]);
                    LobbyRegistry::lemma_update_frame(*old(self), *self, i as int);
                    assert forall|k: int|
                        0 <= k < self.entries@.len() implies (#[trigger] self.entries@[k]).lobby.wf() by {
                        if k != i as int {
                            assert(self.entries@[k] == old(self).entries@[k]);
                        }
                    }
                    if res is Err {
                        assert(self.entries@ =~= old(self).entries@);
                    }
                }
                match res {
                    Ok(()) => Ok(()),
                    Err(e) => Err(CombinedError::Op(e)),
                }
            },
        }
    }

    /// Removes `user` from `tenant`'s lobby. When members remain, the
    /// lobby stays with its clock touched; when the kick empties the
    /// lobby, the registry destroys it in the same step, so no empty
    /// lobby is ever observable.
    pub fn kick(&mut self, tenant: TenantId, user: PlayerId, now: u64) -> (r: Result<
        LobbyKick,
        CombinedError<LobbyKickError>,
    >)
        requires
            old(self).wf(),
        ensures
            final(self).wf(),
            LobbyRegistry::others_unchanged(*old(self), *final(self), tenant),
            !old(self).spec_contains(tenant) ==> LobbyRegistry::unchanged(*old(self), *final(self))
                && r == Err::<LobbyKick, CombinedError<LobbyKickError>>(
                CombinedError::NoSuchLobby(tenant),
            ),
            old(self).spec_contains(tenant) ==> ({
                let pre = old(self).spec_lobby(tenant);
                &&& (r is Ok <==> pre.is_member(user))
                &&& r matches Ok(k) ==> ({
                    &&& (k.lobby_empty <==> pre.players@.len() == 1)
                    &&& k.lobby_empty ==> !final(self).spec_contains(tenant)
                    &&& !k.lobby_empty ==> final(self).spec_contains(tenant) && kicked_touched(
                        pre,
                        final(self).spec_lobby(tenant),
                        user,
                        now,
                    )
                })
                &&& r is Err ==> LobbyRegistry::unchanged(*old(self), *final(self)) && r == Err::<
                    LobbyKick,
                    CombinedError<LobbyKickError>,
                >(CombinedError::Op(LobbyKickError::NotJoined(user)))
            }),
    {
        match self.find_tenant(tenant) {
            None => Err(CombinedError::NoSuchLobby(tenant)),
            Some(i) => {
                let ghost pre_entries = self.entries@;
                let mut entry = self.entries.remove(i);
                let res = entry.lobby.kick(user);
                match res {
                    Ok(k) => {
                        if k.lobby_empty {
                            proof {
                                LobbyRegistry::lemma_remove_frame(*old(self), *self, i as int);
                            }
                            Ok(k)
                        } else {
                            entry.lobby.notify_interaction(now);
                            self.entries.insert(i, entry);
                            proof {
                                lemma_remove_insert(pre_entries, i as int, self.entries@[i as int]);
                                LobbyRegistry::lemma_update_frame(*old(self), *self, i as int);
                                assert forall|k2: int|
                                    0 <= k2 < self.entries@.len() implies (#[trigger] self.entries@[k2]).lobby.wf() by {
                                    if k2 != i as int {
                                        assert(self.entries@[k2] == old(self).entries@[k2]);
                                    }
                                }
                            }
                            Ok(k)
                        }
                    },
                    Err(e) => {
                        self.entries.insert(i, entry);
                        proof {
                            lemma_remove_insert(pre_entries, i as int, self.entries@[i as int]);
                            LobbyRegistry::lemma_update_frame(*old(self), *self, i as int);
                            assert(self.entries@ =~= old(self).entries@);
                        }
                        Err(CombinedError::Op(e))
                    },
                }
            },
        }
    }

    /// Moves the member `user` to the front of `tenant`'s lobby, making
    /// them the host, and touches the clock.
    pub fn promote_host(&mut self, tenant: TenantId, user: PlayerId, now: u64) -> (r: Result<
        (),
        CombinedError<LobbyPromoteError>,
    >)
        requires
            old(self).wf(),
        ensures
            final(self).wf(),
            LobbyRegistry::others_unchanged(*old(self), *final(self), tenant),
            !old(self).spec_contains(tenant) ==> LobbyRegistry::unchanged(*old(self), *final(self))
                && r == Err::<(), CombinedError<LobbyPromoteError>>(
                CombinedError::NoSuchLobby(tenant),
            ),
            old(self).spec_contains(tenant) ==> ({
                let pre = old(self).spec_lobby(tenant);
                &&& (r is Ok <==> pre.is_member(user))
                &&& r is Ok ==> final(self).spec_contains(tenant) && promoted_touched(
                    pre,
                    final(self).spec_lobby(tenant),
                    user,
                    now,
                )
                &&& r is Err ==> LobbyRegistry::unchanged(*old(self), *final(self)) && r == Err::<
                    (),
                    CombinedError<LobbyPromoteError>,
                >(CombinedError::Op(LobbyPromoteError::NotJoined(user)))
            }),
    {
        match self.find_tenant(tenant) {
            None => Err(CombinedError::NoSuchLobby(tenant)),
            Some(i) => {
                let ghost pre_entries = self.entries@;
                let mut entry = self.entries.remove(i);
                let res = entry.lobby.promote_host(user);
                if res.is_ok() {
                    entry.lobby.notify_interaction(now);
                }
                self.entries.insert(i, entry);
                proof {
                    lemma_remove_insert(pre_entries, i as int, self.entries@[i as int]);
                    LobbyRegistry::lemma_update_frame(*old(self), *self, i as int);
                    assert forall|k: int|
                        0 <= k < self.entries@.len() implies (#[trigger] self.entries@[k]).lobby.wf() by {
                        if k != i as int {
                            assert(self.entries@[k] == old(self).entries@[k]);
                        }
                    }
                    if res is Err {
                        assert(self.entries@ =~= old(self).entries@);
                    }
                }
                match res {
                    Ok(()) => Ok(()),
                    Err(e) => Err(CombinedError::Op(e)),
                }
            },
        }
    }

    /// Adds `user` to the invitation list of `tenant`'s lobby and touches
    /// the clock.
    pub fn invite(&mut self, tenant: TenantId, user: PlayerId, now: u64) -> (r: Result<
        (),
        CombinedError<LobbyInviteError>,
    >)
        requires
            old(self).wf(),
        ensures
            final(self).wf(),
            LobbyRegistry::others_unchanged(*old(self), *final(self), tenant),
            !old(self).spec_contains(tenant) ==> LobbyRegistry::unchanged(*old(self), *final(self))
                && r == Err::<(), CombinedError<LobbyInviteError>>(
                CombinedError::NoSuchLobby(tenant),
            ),
            old(self).spec_contains(tenant) ==> ({
                let pre = old(self).spec_lobby(tenant);
                &&& (r is Ok <==> user != pre.spec_host() && pre.accessibility is Private
                    && !pre.accessibility.spec_can_join(user))
                &&& r is Ok ==> final(self).spec_contains(tenant) && invited_touched(
                    pre,
                    final(self).spec_lobby(tenant),
                    user,
                    now,
                )
                &&& r is Err ==> LobbyRegistry::unchanged(*old(self), *final(self)) && r == Err::<
                    (),
                    CombinedError<LobbyInviteError>,
                >(CombinedError::Op(pre.lobby_invite_err(user)))
            }),
    {
        match self.find_tenant(tenant) {
            None => Err(CombinedError::NoSuchLobby(tenant)),
            Some(i) => {
                let ghost pre_entries = self.entries@;
                let mut entry = self.entries.remove(i);
                let res = entry.lobby.invite(user);
                if res.is_ok() {
                    entry.lobby.notify_interaction(now);
                }
                self.entries.insert(i, entry);
                proof {
                    lemma_remove_insert(pre_entries, i as int, self.entries@[i as int]);
                    LobbyRegistry::lemma_update_frame(*old(self), *self, i as int);
                    assert forall|k: int|
                        0 <= k < self.entries@.len() implies (#[trigger] self.entries@[k]).lobby.wf() by {
                        if k != i as int {
                            assert(self.entries@[k] == old(self).entries@[k]);
                        }
                    }
                    if res is Err {
                        assert(self.entries@ =~= old(self).entries@);
                    }
                }
                match res {
                    Ok(()) => Ok(()),
                    Err(e) => Err(CombinedError::Op(e)),
                }
            },
        }
    }

    /// Removes `user` from the invitation list of `tenant`'s lobby and
    /// touches the clock. Membership is unaffected: an uninvited member
    /// stays a member.
    pub fn uninvite(&mut self, tenant: TenantId, user: PlayerId, now: u64) -> (r: Result<
        (),
        CombinedError<LobbyUninviteError>,
    >)
        requires
            old(self).wf(),
        ensures
            final(self).wf(),
            LobbyRegistry::others_unchanged(*old(self), *final(self), tenant),
            !old(self).spec_contains(tenant) ==> LobbyRegistry::unchanged(*old(self), *final(self))
                && r == Err::<(), CombinedError<LobbyUninviteError>>(
                CombinedError::NoSuchLobby(tenant),
            ),
            old(self).spec_contains(tenant) ==> ({
                let pre = old(self).spec_lobby(tenant);
                &&& (r is Ok <==> user != pre.spec_host() && pre.accessibility is Private
                    && pre.accessibility.spec_can_join(user))
                &&& r is Ok ==> final(self).spec_contains(tenant) && uninvited_touched(
                    pre,
                    final(self).spec_lobby(tenant),
                    user,
                    now,
                )
                &&& r is Err ==> LobbyRegistry::unchanged(*old(self), *final(self)) && r == Err::<
                    (),
                    CombinedError<LobbyUninviteError>,
                >(CombinedError::Op(pre.lobby_uninvite_err(user)))
            }),
    {
        match self.find_tenant(tenant) {
            None => Err(CombinedError::NoSuchLobby(tenant)),
            Some(i) => {
                let ghost pre_entries = self.entries@;
                let mut entry = self.entries.remove(i);
                let res = entry.lobby.uninvite(user);
                if res.is_ok() {
                    entry.lobby.notify_interaction(now);
                }
                self.entries.insert(i, entry);
                proof {
                    lemma_remove_insert(pre_entries, i as int, self.entries@[i as int]);
                    LobbyRegistry::lemma_update_frame(*old(self), *self, i as int);
                    assert forall|k: int|
                        0 <= k < self.entries@.len() implies (#[trigger] self.entries@[k]).lobby.wf() by {
                        if k != i as int {
                            assert(self.entries@[k] == old(self).entries@[k]);
                        }
                    }
                    if res is Err {
                        assert(self.entries@ =~= old(self).entries@);
                    }
                }
                match res {
                    Ok(()) => Ok(()),
                    Err(e) => Err(CombinedError::Op(e)),
                }
            },
        }
    }

    /// Replaces the settings of `tenant`'s lobby after validation and
    /// touches the clock.
    pub fn update_settings(&mut self, tenant: TenantId, rounds: u64, guess_time_secs: u64, now: u64) -> (r:
        Result<(), CombinedError<SettingsError>>)
        requires
            old(self).wf(),
        ensures
            final(self).wf(),
            LobbyRegistry::others_unchanged(*old(self), *final(self), tenant),
            !old(self).spec_contains(tenant) ==> LobbyRegistry::unchanged(*old(self), *final(self))
                && r == Err::<(), CombinedError<SettingsError>>(CombinedError::NoSuchLobby(tenant)),
            old(self).spec_contains(tenant) ==> ({
                let pre = old(self).spec_lobby(tenant);
                &&& (r is Ok <==> rounds >= 1 && guess_time_secs >= 1)
                &&& r is Ok ==> final(self).spec_contains(tenant) && configured_touched(
                    pre,
                    final(self).spec_lobby(tenant),
                    GameSettings { rounds, guess_time_secs },
                    now,
                )
                &&& r is Err ==> LobbyRegistry::unchanged(*old(self), *final(self)) && r == Err::<
                    (),
                    CombinedError<SettingsError>,
                >(CombinedError::Op(SettingsError::InvalidSettings))
            }),
    {
        match self.find_tenant(tenant) {
            None => Err(CombinedError::NoSuchLobby(tenant)),
            Some(i) => {
                let ghost pre_entries = self.entries@;
                let mut entry = self.entries.remove(i);
                let res = entry.lobby.update_settings(rounds, guess_time_secs);
                if res.is_ok() {
                    entry.lobby.notify_interaction(now);
                }
                self.entries.insert(i, entry);
                proof {
                    lemma_remove_insert(pre_entries, i as int, self.entries@[i as int]);
                    LobbyRegistry::lemma_update_frame(*old(self), *self, i as int);
                    assert forall|k: int|
                        0 <= k < self.entries@.len() implies (#[trigger] self.entries@[k]).lobby.wf() by {
                        if k != i as int {
                            assert(self.entries@[k] == old(self).entries@[k]);
                        }
                    }
                    if res is Err {
                        assert(self.entries@ =~= old(self).entries@);
                    }
                }
                match res {
                    Ok(()) => Ok(()),
                    Err(e) => Err(CombinedError::Op(e)),
                }
            },
        }
    }
}

/// Whether a lobby's last interaction lies more than `idle_threshold`
/// clock units before `now`.
pub open spec fn lobby_expired(l: Lobby, idle_threshold: u64, now: u64) -> bool {
    l.last_interaction + idle_threshold < now
}

/// Exec test for expiry, phrased to avoid overflow.
fn is_expired(l: &Lobby, idle_threshold: u64, now: u64) -> (r: bool)
    ensures
        r == lobby_expired(*l, idle_threshold, now),
{
    idle_threshold < now && l.last_interaction < now - idle_threshold
}

impl LobbyRegistry {
    /// Removes every lobby whose last interaction is older than
    /// `idle_threshold` before `now` and returns how many were removed;
    /// every retained lobby is kept exactly as it was, and no retained
    /// lobby's clock is touched — a sweep is not an interaction.
    pub fn sweep_expired(&mut self, idle_threshold: u64, now: u64) -> (count: usize)
        requires
            old(self).wf(),
        ensures
            final(self).wf(),
            final(self).entries@.len() + count == old(self).entries@.len(),
            forall|u: TenantId| #[trigger]
                final(self).spec_contains(u) ==> old(self).spec_contains(u) && !lobby_expired(
                    old(self).spec_lobby(u),
                    idle_threshold,
                    now,
                ) && final(self).spec_lobby(u) == old(self).spec_lobby(u),
            forall|u: TenantId|
                old(self).spec_contains(u) && !lobby_expired(
                    old(self).spec_lobby(u),
                    idle_threshold,
                    now,
                ) ==> #[trigger] final(self).spec_contains(u),
    {
        let total: usize = self.entries.len();
        let mut i: usize = total;
        let mut count: usize = 0;
        proof {
            assert forall|u: TenantId| #[trigger]
                old(self).spec_contains(u) implies old(self).idx_of(u) < i by {
                assert(old(self).spec_contains(u));
            }
        }
        while i > 0
            invariant
                old(self).wf(),
                total == old(self).entries@.len(),
                self.wf(),
                i <= self.entries@.len(),
                self.entries@.len() + count == total,
                forall|k: int| 0 <= k < i ==> #[trigger] self.entries@[k] == old(self).entries@[k],
                forall|u: TenantId| #[trigger]
                    self.spec_contains(u) ==> old(self).spec_contains(u) && self.spec_lobby(u)
                        == old(self).spec_lobby(u),
                forall|u: TenantId| #[trigger]
                    old(self).spec_contains(u) ==> (old(self).idx_of(u) < i ==> self.spec_contains(
                        u,
                    )) && (old(self).idx_of(u) >= i ==> (self.spec_contains(u) <==> !lobby_expired(
                        old(self).spec_lobby(u),
                        idle_threshold,
                        now,
                    ))),
            decreases i,
        {
            i -= 1;
            let expired = is_expired(&self.entries[i].lobby, idle_threshold, now);
            let ghost snap = *self;
            if expired {
                self.entries.remove(i);
                count += 1;
            }
            proof {
                lemma_sweep_step(*old(self), snap, *self, i as int, expired, idle_threshold, now);
            }
        }
        proof {
            assert forall|u: TenantId|
                old(self).spec_contains(u) && !lobby_expired(
                old(self).spec_lobby(u),
                idle_threshold,
                now,
            ) implies #[trigger] self.spec_contains(u) by {
                assert(old(self).spec_contains(u));
                assert(old(self).idx_of(u) >= 0);
            }
            assert forall|u: TenantId| #[trigger]
                self.spec_contains(u) implies !lobby_expired(
                old(self).spec_lobby(u),
                idle_threshold,
                now,
            ) by {
                assert(old(self).spec_contains(u));
                assert(old(self).idx_of(u) >= 0);
            }
        }
        count
    }
}

/// One step of the expiry sweep, examining the entry at position `i`:
/// `orig` is the registry before the sweep, `snap` the state with
/// positions `i` and above already processed and positions up to `i`
/// untouched, and `post` is `snap` with the entry at `i` dropped when it
/// had expired, kept when it had not.
proof fn lemma_sweep_step(
    orig: LobbyRegistry,
    snap: LobbyRegistry,
    post: LobbyRegistry,
    i: int,
    expired: bool,
    idle_threshold: u64,
    now: u64,
)
    requires
        orig.wf(),
        snap.wf(),
        0 <= i < snap.entries@.len(),
        snap.entries@.len() <= orig.entries@.len(),
        forall|k: int| 0 <= k < i + 1 ==> #[trigger] snap.entries@[k] == orig.entries@[k],
        forall|u: TenantId| #[trigger]
            snap.spec_contains(u) ==> orig.spec_contains(u) && snap.spec_lobby(u)
                == orig.spec_lobby(u),
        forall|u: TenantId| #[trigger]
            orig.spec_contains(u) ==> (orig.idx_of(u) < i + 1 ==> snap.spec_contains(u)) && (
            orig.idx_of(u) >= i + 1 ==> (snap.spec_contains(u) <==> !lobby_expired(
                orig.spec_lobby(u),
                idle_threshold,
                now,
            ))),
        expired == lobby_expired(snap.entries@[i].lobby, idle_threshold, now),
        expired ==> post.entries@ == snap.entries@.remove(i),
        !expired ==> post == snap,
    ensures
        post.wf(),
        expired ==> post.entries@.len() == snap.entries@.len() - 1,
        forall|k: int| 0 <= k < i ==> #[trigger] post.entries@[k] == orig.entries@[k],
        forall|u: TenantId| #[trigger]
            post.spec_contains(u) ==> orig.spec_contains(u) && post.spec_lobby(u)
                == orig.spec_lobby(u),
        forall|u: TenantId| #[trigger]
            orig.spec_contains(u) ==> (orig.idx_of(u) < i ==> post.spec_contains(u)) && (
            orig.idx_of(u) >= i ==> (post.spec_contains(u) <==> !lobby_expired(
                orig.spec_lobby(u),
                idle_threshold,
                now,
            ))),
{
    let t = snap.entries@[i].tenant;
    snap.lemma_at_index(t, i);
    orig.lemma_at_index(t, i);
    assert(orig.spec_lobby(t) == snap.entries@[i].lobby);
    if expired {
        LobbyRegistry::lemma_remove_frame(snap, post, i);
        snap.entries@.remove_ensures(i);
        assert forall|u: TenantId| #[trigger]
            post.spec_contains(u) implies orig.spec_contains(u) && post.spec_lobby(u)
            == orig.spec_lobby(u) by {
            assert(u != t);
            assert(post.spec_contains(u) == snap.spec_contains(u));
        }
        assert forall|u: TenantId| #[trigger]
            orig.spec_contains(u) implies (orig.idx_of(u) < i ==> post.spec_contains(u)) && (
        orig.idx_of(u) >= i ==> (post.spec_contains(u) <==> !lobby_expired(
            orig.spec_lobby(u),
            idle_threshold,
            now,
        ))) by {
            if u == t {
                assert(orig.idx_of(u) == i);
                assert(!post.spec_contains(u));
            } else {
                assert(post.spec_contains(u) == snap.spec_contains(u));
            }
        }
    } else {
        assert forall|u: TenantId| #[trigger]
            orig.spec_contains(u) implies (orig.idx_of(u) < i ==> post.spec_contains(u)) && (
        orig.idx_of(u) >= i ==> (post.spec_contains(u) <==> !lobby_expired(
            orig.spec_lobby(u),
            idle_threshold,
            now,
        ))) by {
            if u == t {
                assert(orig.idx_of(u) == i);
                assert(post.spec_contains(u));
            }
        }
    }
}

/// Law: a tenant owns at most one lobby — in a well-formed registry, any
/// two entries for the same tenant are one and the same entry.
pub proof fn lemma_at_most_one_lobby(r: LobbyRegistry, tenant: TenantId, i: int, j: int)
    requires
        r.wf(),
        0 <= i < r.entries@.len(),
        0 <= j < r.entries@.len(),
        r.entries@[i].tenant == tenant,
        r.entries@[j].tenant == tenant,
    ensures
        i == j,
{
}

} // verus!
