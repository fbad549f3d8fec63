//! One lobby: an ordered, duplicate-free membership list whose first
//! element is the host, an access rule (open to anyone or gated on an
//! invitation list), an optional capacity, game settings, and two
//! monotonic timestamps. Every mutating operation states exactly when it
//! succeeds, which typed failure it returns otherwise, and how the new
//! state relates to the old one.

use vstd::prelude::*;

use crate::game::GameSettings;
use crate::game::SettingsError;

verus! {

/// A participant identifier. The surrounding system resolves real user
/// handles to these plain ids before calling into the core.
pub type PlayerId = u64;

/// Capacity rule of a lobby: either unbounded or capped at a positive
/// member count.
#[derive(Clone, Copy, Debug, PartialEq, Eq, Structural)]
pub enum PlayerLimit {
    Unlimited,
    AtMost(usize),
}

impl PlayerLimit {
    /// A cap, where present, is positive.
    pub open spec fn wf(self) -> bool {
        match self {
            PlayerLimit::Unlimited => true,
            PlayerLimit::AtMost(n) => n >= 1,
        }
    }
}

/// Access rule of a lobby: open to anyone, or restricted to an explicit
/// invitation list (the host is always admitted implicitly and is never
/// listed by the lobby's own operations).
#[derive(Debug, PartialEq, Eq)]
pub enum LobbyAccessibility {
    Public,
    Private { invitations: Vec<PlayerId> },
}

/// Failures of `Lobby::join`.
#[derive(Clone, Copy, Debug, PartialEq, Eq, Structural)]
pub enum LobbyJoinError {
    /// The candidate is neither invited nor the host of a private lobby.
    AccessDenied(PlayerId),
    /// The lobby already holds as many members as its cap allows.
    LobbyFull(PlayerId),
    /// The candidate is already a member.
    AlreadyJoined(PlayerId),
}

/// Failures of `Lobby::kick`.
#[derive(Clone, Copy, Debug, PartialEq, Eq, Structural)]
pub enum LobbyKickError {
    /// The target is not a member.
    NotJoined(PlayerId),
}

/// Failures of `Lobby::promote_host`.
#[derive(Clone, Copy, Debug, PartialEq, Eq, Structural)]
pub enum LobbyPromoteError {
    /// The candidate host is not a member.
    NotJoined(PlayerId),
}

/// Failures of invitation.
#[derive(Clone, Copy, Debug, PartialEq, Eq, Structural)]
pub enum LobbyInviteError {
    /// A public lobby keeps no invitation list.
    PublicLobbyInviteNotApplicable,
    /// The candidate is already on the invitation list.
    AlreadyInvited(PlayerId),
    /// The host's access is implicit and never listed.
    CannotModifyHost,
}

/// Failures of uninvitation.
#[derive(Clone, Copy, Debug, PartialEq, Eq, Structural)]
pub enum LobbyUninviteError {
    /// A public lobby keeps no invitation list.
    PublicLobbyUninviteNotApplicable,
    /// The candidate is not on the invitation list.
    NotInvited(PlayerId),
    /// The host's access is implicit and never listed.
    CannotModifyHost,
}

/// Successful result of `Lobby::kick`: reports whether the kick emptied
/// the lobby, in which case the owner (the registry) must destroy it.
#[derive(Clone, Copy, Debug, PartialEq, Eq, Structural)]
pub struct LobbyKick {
    pub lobby_empty: bool,
}

/// Whether `v` holds `user`.
fn contains_player(v: &Vec<PlayerId>, user: PlayerId) -> (r: bool)
    ensures
        r == v@.contains(user),
{
    let mut i: usize = 0;
    while i < v.len()
        invariant
            i <= v@.len(),
            forall|j: int| 0 <= j < i ==> v@[j] != user,
        decreases v@.len() - i,
    {
        if v[i] == user {
            assert(v@.contains(user));
            return true;
        }
        i += 1;
    }
    assert(forall|j: int| 0 <= j < v@.len() ==> v@[j] != user);
    false
}

/// The index of the first occurrence of `user` in `v`, if any.
fn find_player(v: &Vec<PlayerId>, user: PlayerId) -> (r: Option<usize>)
    ensures
        match r {
            Some(i) => i < v@.len() && v@[i as int] == user && forall|j: int|
                0 <= j < i ==> v@[j] != user,
            None => !v@.contains(user),
        },
{
    let mut i: usize = 0;
    while i < v.len()
        invariant
            i <= v@.len(),
            forall|j: int| 0 <= j < i ==> v@[j] != user,
        decreases v@.len() - i,
    {
        if v[i] == user {
            return Some(i);
        }
        i += 1;
    }
    assert(forall|j: int| 0 <= j < v@.len() ==> v@[j] != user);
    None
}

/// The first occurrence found by a left-to-right scan is what
/// `Seq::index_of_first` denotes.
proof fn lemma_first_occurrence(s: Seq<PlayerId>, user: PlayerId, i: int)
    requires
        0 <= i < s.len(),
        s[i] == user,
        forall|j: int| 0 <= j < i ==> s[j] != user,
    ensures
        s.index_of_first(user) == Some(i),
{
    assert(s.contains(user));
    s.index_of_first_ensures(user);
    let k = s.index_of_first(user).unwrap();
    if k < i {
        assert(s[k] == user);
    }
    if k > i {
        assert(s[i] != user);
    }
}

impl LobbyAccessibility {
    /// The invitation list, where the rule keeps one.
    pub open spec fn spec_invitations(self) -> Option<Seq<PlayerId>> {
        match self {
            LobbyAccessibility::Public => None,
            LobbyAccessibility::Private { invitations } => Some(invitations@),
        }
    }

    /// Whether the rule itself admits `user`: a public lobby admits
    /// anyone; a private lobby admits the listed ids. The host's implicit
    /// admission is the containing lobby's concern, not the rule's.
    pub open spec fn spec_can_join(self, user: PlayerId) -> bool {
        match self {
            LobbyAccessibility::Public => true,
            LobbyAccessibility::Private { invitations } => invitations@.contains(user),
        }
    }

    /// A well-formed rule lists no id twice.
    pub open spec fn wf(self) -> bool {
        match self {
            LobbyAccessibility::Public => true,
            LobbyAccessibility::Private { invitations } => invitations@.no_duplicates(),
        }
    }

    /// The failure `invite(user)` returns when it fails.
    pub open spec fn invite_err(self, user: PlayerId) -> LobbyInviteError {
        if self is Public {
            LobbyInviteError::PublicLobbyInviteNotApplicable
        } else {
            LobbyInviteError::AlreadyInvited(user)
        }
    }

    /// The failure `uninvite(user)` returns when it fails.
    pub open spec fn uninvite_err(self, user: PlayerId) -> LobbyUninviteError {
        if self is Public {
            LobbyUninviteError::PublicLobbyUninviteNotApplicable
        } else {
            LobbyUninviteError::NotInvited(user)
        }
    }

    pub fn can_join(&self, user: PlayerId) -> (r: bool)
        ensures
            r == self.spec_can_join(user),
    {
        match self {
            LobbyAccessibility::Public => true,
            LobbyAccessibility::Private { invitations } => contains_player(invitations, user),
        }
    }

    pub fn invitations(&self) -> (r: Option<&Vec<PlayerId>>)
        ensures
            match r {
                Some(v) => self.spec_invitations() == Some(v@),
                None => self.spec_invitations() is None,
            },
    {
        match self {
            LobbyAccessibility::Public => None,
            LobbyAccessibility::Private { invitations } => Some(invitations),
        }
    }

    /// Appends `user` to the invitation list of a private rule. Fails on a
    /// public rule, and when `user` is already listed; a failure leaves the
    /// rule untouched.
    pub fn invite(&mut self, user: PlayerId) -> (r: Result<(), LobbyInviteError>)
        requires
            old(self).wf(),
        ensures
            final(self).wf(),
            r is Ok <==> *old(self) is Private && !old(self).spec_can_join(user),
            r is Ok ==> final(self).spec_invitations() == Some(
                old(self).spec_invitations().unwrap().push(user),
            ),
            r is Err ==> *final(self) == *old(self) && r == Err::<(), LobbyInviteError>(
                old(self).invite_err(user),
            ),
    {
        match self {
            LobbyAccessibility::Public => Err(LobbyInviteError::PublicLobbyInviteNotApplicable),
            LobbyAccessibility::Private { invitations } => {
                if contains_player(invitations, user) {
                    Err(LobbyInviteError::AlreadyInvited(user))
                } else {
                    invitations.push(user);
                    Ok(())
                }
            },
        }
    }

    /// Removes `user` from the invitation list of a private rule. Fails on
    /// a public rule, and when `user` is not listed; a failure leaves the
    /// rule untouched.
    pub fn uninvite(&mut self, user: PlayerId) -> (r: Result<(), LobbyUninviteError>)
        requires
            old(self).wf(),
        ensures
            final(self).wf(),
            r is Ok <==> *old(self) is Private && old(self).spec_can_join(user),
            r is Ok ==> final(self).spec_invitations() == Some(
                old(self).spec_invitations().unwrap().remove_value(user),
            ),
            r is Err ==> *final(self) == *old(self) && r == Err::<(), LobbyUninviteError>(
                old(self).uninvite_err(user),
            ),
    {
        match self {
            LobbyAccessibility::Public => Err(LobbyUninviteError::PublicLobbyUninviteNotApplicable),
            LobbyAccessibility::Private { invitations } => {
                match find_player(invitations, user) {
                    Some(index) => {
                        let ghost pre = invitations@;
                        proof {
                            lemma_first_occurrence(pre, user, index as int);
                        }
                        invitations.remove(index);
                        proof {
                            pre.remove_ensures(index as int);
                            assert(invitations@.no_duplicates());
                        }
                        Ok(())
                    },
                    None => Err(LobbyUninviteError::NotInvited(user)),
                }
            },
        }
    }
}

/// One session's full state. `created_at` and `last_interaction` are
/// readings of a monotonic clock, in whatever unit the caller uses
/// consistently; the core only stores and compares them. Element 0 of
/// `players` is the host.
pub struct Lobby {
    pub created_at: u64,
    pub last_interaction: u64,
    pub players: Vec<PlayerId>,
    pub player_limit: PlayerLimit,
    pub accessibility: LobbyAccessibility,
    pub game_settings: GameSettings,
}

impl Lobby {
    /// Structural invariants that every membership mutation keeps, whether
    /// or not the lobby still has members: no duplicate members, a
    /// positive cap respected by the member count, a duplicate-free
    /// invitation list, and valid settings.
    pub open spec fn wf_members(self) -> bool {
        &&& self.players@.no_duplicates()
        &&& self.player_limit.wf()
        &&& match self.player_limit {
            PlayerLimit::Unlimited => true,
            PlayerLimit::AtMost(n) => self.players@.len() <= n,
        }
        &&& self.accessibility.wf()
        &&& self.game_settings.wf()
    }

    /// A live lobby additionally has at least one member; a lobby whose
    /// membership was emptied must be destroyed by its owner, never kept.
    pub open spec fn wf(self) -> bool {
        self.wf_members() && self.players@.len() >= 1
    }

    /// The host is the first member by convention, not a separate field.
    pub open spec fn spec_host(self) -> PlayerId {
        self.players@[0]
    }

    pub open spec fn is_member(self, user: PlayerId) -> bool {
        self.players@.contains(user)
    }

    pub open spec fn at_capacity(self) -> bool {
        match self.player_limit {
            PlayerLimit::Unlimited => false,
            PlayerLimit::AtMost(n) => self.players@.len() >= n,
        }
    }

    /// Whether the access rule admits `user`: the host is admitted
    /// implicitly, everyone else by the accessibility rule.
    pub open spec fn allows_join(self, user: PlayerId) -> bool {
        self.accessibility.spec_can_join(user) || user == self.spec_host()
    }

    /// Exactly when `join(user)` succeeds: admitted, room left, and not a
    /// member yet.
    pub open spec fn join_allowed(self, user: PlayerId) -> bool {
        self.allows_join(user) && !self.at_capacity() && !self.is_member(user)
    }

    /// The failure `join(user)` returns when it fails; the access check
    /// comes before the capacity check, which comes before the duplicate
    /// check.
    pub open spec fn join_err(self, user: PlayerId) -> LobbyJoinError {
        if !self.allows_join(user) {
            LobbyJoinError::AccessDenied(user)
        } else if self.at_capacity() {
            LobbyJoinError::LobbyFull(user)
        } else {
            LobbyJoinError::AlreadyJoined(user)
        }
    }

    /// The failure `invite(user)` returns when it fails; the host check
    /// comes first.
    pub open spec fn lobby_invite_err(self, user: PlayerId) -> LobbyInviteError {
        if user == self.spec_host() {
            LobbyInviteError::CannotModifyHost
        } else {
            self.accessibility.invite_err(user)
        }
    }

    /// The failure `uninvite(user)` returns when it fails; the host check
    /// comes first.
    pub open spec fn lobby_uninvite_err(self, user: PlayerId) -> LobbyUninviteError {
        if user == self.spec_host() {
            LobbyUninviteError::CannotModifyHost
        } else {
            self.accessibility.uninvite_err(user)
        }
    }

    /// Frame: everything except membership and the interaction timestamp
    /// agrees between `pre` and `post`.
    pub open spec fn same_core(pre: Lobby, post: Lobby) -> bool {
        &&& post.created_at == pre.created_at
        &&& post.player_limit == pre.player_limit
        &&& post.accessibility == pre.accessibility
        &&& post.game_settings == pre.game_settings
    }

    /// What `new(host, now)` returns: the host alone, an empty private
    /// invitation list, no cap, default settings, both timestamps at
    /// `now`.
    pub open spec fn is_fresh(self, host: PlayerId, now: u64) -> bool {
        &&& self.created_at == now
        &&& self.last_interaction == now
        &&& self.players@ == seq![host]
        &&& self.player_limit == PlayerLimit::Unlimited
        &&& self.accessibility is Private
        &&& self.accessibility.spec_invitations() == Some(Seq::<PlayerId>::empty())
        &&& self.game_settings == (GameSettings {
            rounds: crate::game::DEFAULT_ROUNDS,
            guess_time_secs: crate::game::DEFAULT_GUESS_TIME_SECS,
        })
    }

    /// A fresh lobby: the host is its only member and the default access
    /// rule is restrictive (private with no invitations), not open.
    pub fn new(host: PlayerId, now: u64) -> (r: Lobby)
        ensures
            r.is_fresh(host, now),
            r.wf(),
    {
        let mut players: Vec<PlayerId> = Vec::new();
        players.push(host);
        let r = Lobby {
            created_at: now,
            last_interaction: now,
            players,
            player_limit: PlayerLimit::Unlimited,
            accessibility: LobbyAccessibility::Private { invitations: Vec::new() },
            game_settings: GameSettings::default(),
        };
        assert(r.players@ =~= seq![host]);
        r
    }

    pub fn created_at(&self) -> (r: u64)
        ensures
            r == self.created_at,
    {
        self.created_at
    }

    pub fn last_interaction(&self) -> (r: u64)
        ensures
            r == self.last_interaction,
    {
        self.last_interaction
    }

    /// The host. Callers must uphold the non-empty invariant; on an empty
    /// membership there is no host, which is a structural defect, not a
    /// recoverable failure.
    pub fn host(&self) -> (r: PlayerId)
        requires
            self.players@.len() >= 1,
        ensures
            r == self.spec_host(),
    {
        self.players[0]
    }

    pub fn players(&self) -> (r: &Vec<PlayerId>)
        ensures
            r@ == self.players@,
    {
        &self.players
    }

    pub fn player_limit(&self) -> (r: PlayerLimit)
        ensures
            r == self.player_limit,
    {
        self.player_limit
    }

    pub fn game_settings(&self) -> (r: GameSettings)
        ensures
            r == self.game_settings,
    {
        self.game_settings
    }

    pub fn accessibility(&self) -> (r: &LobbyAccessibility)
        ensures
            *r == self.accessibility,
    {
        &self.accessibility
    }

    /// Appends `user` to the membership. The access check comes before the
    /// capacity check, which comes before the duplicate check; a failure
    /// leaves the lobby untouched.
    pub fn join(&mut self, user: PlayerId) -> (r: Result<(), LobbyJoinError>)
        requires
            old(self).wf(),
        ensures
            final(self).wf(),
            r is Ok <==> old(self).join_allowed(user),
            r is Ok ==> final(self).players@ == old(self).players@.push(user) && Lobby::same_core(
                *old(self),
                *final(self),
            ) && final(self).last_interaction == old(self).last_interaction,
            r is Err ==> *final(self) == *old(self) && r == Err::<(), LobbyJoinError>(
                old(self).join_err(user),
            ),
    {
        let is_host = user == self.players[0];
        if !self.accessibility.can_join(user) && !is_host {
            return Err(LobbyJoinError::AccessDenied(user));
        }
        if let PlayerLimit::AtMost(max_players) = self.player_limit {
            if self.players.len() >= max_players {
                return Err(LobbyJoinError::LobbyFull(user));
            }
        }
        if contains_player(&self.players, user) {
            return Err(LobbyJoinError::AlreadyJoined(user));
        }
        let ghost pre = self.players@;
        self.players.push(user);
        proof {
            assert forall|i: int, j: int|
                0 <= i < self.players@.len() && 0 <= j < self.players@.len() && i
                    != j implies self.players@[i] != self.players@[j] by {
                if i < pre.len() && j < pre.len() {
                    assert(pre[i] == self.players@[i] && pre[j] == self.players@[j]);
                } else if j == pre.len() {
                    assert(!pre.contains(user));
                    assert(pre[i] != user);
                } else {
                    assert(!pre.contains(user));
                    assert(pre[j] != user);
                }
            }
        }
        Ok(())
    }

    /// Removes `user` from the membership and reports whether the lobby is
    /// now empty; the caller that owns the lobby must destroy it when it
    /// is. Kicking the host is permitted: the next member, if any, becomes
    /// the host by taking position 0.
    pub fn kick(&mut self, user: PlayerId) -> (r: Result<LobbyKick, LobbyKickError>)
        requires
            old(self).wf(),
        ensures
            final(self).wf_members(),
            r is Ok <==> old(self).is_member(user),
            r matches Ok(k) ==> ({
                &&& final(self).players@ == old(self).players@.remove_value(user)
                &&& (k.lobby_empty <==> final(self).players@.len() == 0)
                &&& Lobby::same_core(*old(self), *final(self))
                &&& final(self).last_interaction == old(self).last_interaction
                &&& final(self).players@.len() == old(self).players@.len() - 1
            }),
            r is Err ==> *final(self) == *old(self) && r == Err::<LobbyKick, LobbyKickError>(
                LobbyKickError::NotJoined(user),
            ),
    {
        match find_player(&self.players, user) {
            Some(index) => {
                let ghost pre = self.players@;
                proof {
                    lemma_first_occurrence(pre, user, index as int);
                }
                self.players.remove(index);
                proof {
                    pre.remove_ensures(index as int);
                    assert(self.players@.no_duplicates());
                }
                let lobby_empty = self.players.is_empty();
                Ok(LobbyKick { lobby_empty })
            },
            None => Err(LobbyKickError::NotJoined(user)),
        }
    }

    /// Moves the member `user` to position 0, making them the host; the
    /// relative order of all other members is unchanged. Fails when `user`
    /// is not a member, leaving the lobby untouched.
    pub fn promote_host(&mut self, user: PlayerId) -> (r: Result<(), LobbyPromoteError>)
        requires
            old(self).wf(),
        ensures
            final(self).wf(),
            r is Ok <==> old(self).is_member(user),
            r is Ok ==> ({
                &&& final(self).players@ == seq![user] + old(self).players@.remove_value(user)
                &&& final(self).spec_host() == user
                &&& Lobby::same_core(*old(self), *final(self))
                &&& final(self).last_interaction == old(self).last_interaction
                &&& final(self).players@.len() == old(self).players@.len()
            }),
            r is Err ==> *final(self) == *old(self) && r == Err::<(), LobbyPromoteError>(
                LobbyPromoteError::NotJoined(user),
            ),
    {
        match find_player(&self.players, user) {
            Some(index) => {
                let ghost pre = self.players@;
                proof {
                    lemma_first_occurrence(pre, user, index as int);
                }
                let promoted = self.players.remove(index);
                self.players.insert(0, promoted);
                proof {
                    pre.remove_ensures(index as int);
                    assert(self.players@ =~= seq![user] + pre.remove(index as int));
                    assert forall|i: int, j: int|
                        0 <= i < self.players@.len() && 0 <= j < self.players@.len() && i
                            != j implies self.players@[i] != self.players@[j] by {
                        assert(forall|k: int|
                            0 <= k < pre.remove(index as int).len() ==> pre.remove(index as int)[k]
                                != user);
                    }
                }
                Ok(())
            },
            None => Err(LobbyPromoteError::NotJoined(user)),
        }
    }

    /// Adds `user` to the invitation list. The host is rejected first
    /// (host access is implicit and never listed); the rest delegates to
    /// the accessibility rule. A failure leaves the lobby untouched.
    pub fn invite(&mut self, user: PlayerId) -> (r: Result<(), LobbyInviteError>)
        requires
            old(self).wf(),
        ensures
            final(self).wf(),
            r is Ok <==> user != old(self).spec_host() && old(self).accessibility is Private
                && !old(self).accessibility.spec_can_join(user),
            r is Ok ==> ({
                &&& final(self).accessibility.spec_invitations() == Some(
                    old(self).accessibility.spec_invitations().unwrap().push(user),
                )
                &&& final(self).accessibility is Private
                &&& final(self).players@ == old(self).players@
                &&& final(self).created_at == old(self).created_at
                &&& final(self).last_interaction == old(self).last_interaction
                &&& final(self).player_limit == old(self).player_limit
                &&& final(self).game_settings == old(self).game_settings
            }),
            r is Err ==> *final(self) == *old(self) && r == Err::<(), LobbyInviteError>(
                old(self).lobby_invite_err(user),
            ),
    {
        let host = self.players[0];
        if user == host {
            return Err(LobbyInviteError::CannotModifyHost);
        }
        self.accessibility.invite(user)
    }

    /// Removes `user` from the invitation list. The host is rejected
    /// first; the rest delegates to the accessibility rule. A failure
    /// leaves the lobby untouched. A member who is uninvited stays a
    /// member: membership does not depend on remaining listed.
    pub fn uninvite(&mut self, user: PlayerId) -> (r: Result<(), LobbyUninviteError>)
        requires
            old(self).wf(),
        ensures
            final(self).wf(),
            r is Ok <==> user != old(self).spec_host() && old(self).accessibility is Private
                && old(self).accessibility.spec_can_join(user),
            r is Ok ==> ({
                &&& final(self).accessibility.spec_invitations() == Some(
                    old(self).accessibility.spec_invitations().unwrap().remove_value(user),
                )
                &&& final(self).accessibility is Private
                &&& final(self).players@ == old(self).players@
                &&& final(self).created_at == old(self).created_at
                &&& final(self).last_interaction == old(self).last_interaction
                &&& final(self).player_limit == old(self).player_limit
                &&& final(self).game_settings == old(self).game_settings
            }),
            r is Err ==> *final(self) == *old(self) && r == Err::<(), LobbyUninviteError>(
                old(self).lobby_uninvite_err(user),
            ),
    {
        let host = self.players[0];
        if user == host {
            return Err(LobbyUninviteError::CannotModifyHost);
        }
        self.accessibility.uninvite(user)
    }

    /// Replaces the settings after validation; a rejection leaves them
    /// untouched.
    pub fn update_settings(&mut self, rounds: u64, guess_time_secs: u64) -> (r: Result<
        (),
        SettingsError,
    >)
        requires
            old(self).wf(),
        ensures
            final(self).wf(),
            r is Ok <==> rounds >= 1 && guess_time_secs >= 1,
            r is Ok ==> ({
                &&& final(self).game_settings == (GameSettings { rounds, guess_time_secs })
                &&& final(self).players@ == old(self).players@
                &&& final(self).created_at == old(self).created_at
                &&& final(self).last_interaction == old(self).last_interaction
                &&& final(self).player_limit == old(self).player_limit
                &&& final(self).accessibility == old(self).accessibility
            }),
            r is Err ==> *final(self) == *old(self) && r == Err::<(), SettingsError>(
                SettingsError::InvalidSettings,
            ),
    {
        self.game_settings.configure(rounds, guess_time_secs)
    }

    /// Records a successful lobby-touching interaction at time `now`;
    /// this is what keeps an active lobby from idle expiry. Read-only
    /// queries deliberately do not touch the clock.
    pub fn notify_interaction(&mut self, now: u64)
        ensures
            final(self).last_interaction == now,
            final(self).players@ == old(self).players@,
            Lobby::same_core(*old(self), *final(self)),
            old(self).wf() ==> final(self).wf(),
            old(self).wf_members() ==> final(self).wf_members(),
    {
        self.last_interaction = now;
    }
}

/// Law: in any well-formed lobby with a cap of `n`, the member count is at
/// most `n`; every mutating operation keeps well-formedness, so this holds
/// after every operation.
pub proof fn lemma_capacity_invariant(l: Lobby)
    requires
        l.wf(),
    ensures
        l.player_limit matches PlayerLimit::AtMost(n) ==> l.players@.len() <= n,
{
}

/// Law: a well-formed lobby never lists a member twice; every mutating
/// operation keeps well-formedness, so no sequence of `join` calls can
/// introduce a duplicate.
pub proof fn lemma_membership_no_duplicates(l: Lobby)
    requires
        l.wf(),
    ensures
        l.players@.no_duplicates(),
{
}

/// Law: after a successful `join(user)` that leaves the lobby below its
/// cap, joining the same `user` again fails with `AlreadyJoined`, and a
/// failed `join` leaves the membership exactly as it was, so the
/// membership after the failed second call equals the membership after
/// the first. (When the first join fills the lobby to its cap, the second
/// attempt is instead rejected as `LobbyFull`, the capacity check coming
/// before the duplicate check.)
pub proof fn lemma_join_then_rejoin(pre: Lobby, mid: Lobby, user: PlayerId)
    requires
        pre.wf(),
        pre.join_allowed(user),
        mid.players@ == pre.players@.push(user),
        Lobby::same_core(pre, mid),
        !mid.at_capacity(),
    ensures
        !mid.join_allowed(user),
        mid.join_err(user) == LobbyJoinError::AlreadyJoined(user),
{
    assert(mid.players@[mid.players@.len() - 1] == user);
    assert(mid.is_member(user));
    assert(pre.players@.contains(pre.players@[0]));
    assert(user != pre.spec_host());
    assert(mid.spec_host() == pre.spec_host());
    assert(mid.allows_join(user));
}

/// Law: a well-formed lobby at capacity admits no further member: every
/// join attempt fails, with `LobbyFull` whenever the access rule admits
/// the candidate, and a failed `join` leaves the lobby unchanged — so any
/// number of attempts, in any interleaving the owner serializes, leaves
/// the membership as it was.
pub proof fn lemma_full_lobby_rejects_join(l: Lobby, user: PlayerId)
    requires
        l.wf(),
        l.at_capacity(),
    ensures
        !l.join_allowed(user),
        l.allows_join(user) ==> l.join_err(user) == LobbyJoinError::LobbyFull(user),
{
}

} // verus!
