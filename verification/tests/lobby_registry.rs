use game_lobby::game::SettingsError;
use game_lobby::lobby::{
    Lobby, LobbyAccessibility, LobbyInviteError, LobbyJoinError, LobbyKickError,
    LobbyPromoteError, LobbyUninviteError, PlayerLimit,
};
use game_lobby::registry::{CombinedError, LobbyRegistry, RegistryCreateError};

const H: u64 = 1;
const U1: u64 = 2;
const U2: u64 = 3;
const TENANT: u64 = 77;

#[test]
fn fresh_lobby_holds_host_alone_and_is_private() {
    let lobby = Lobby::new(H, 10);
    assert_eq!(lobby.players(), &vec![H]);
    assert_eq!(lobby.host(), H);
    assert_eq!(lobby.player_limit(), PlayerLimit::Unlimited);
    assert_eq!(lobby.created_at(), 10);
    assert_eq!(lobby.last_interaction(), 10);
    let invitations = lobby.accessibility().invitations().expect("fresh lobby is private");
    assert!(invitations.is_empty());
    let settings = lobby.game_settings();
    assert_eq!(settings.rounds(), 20);
    assert_eq!(settings.guess_time_secs(), 30);
}

#[test]
fn create_invite_join_scenario() {
    let mut lobby = Lobby::new(H, 0);
    assert_eq!(lobby.join(H), Err(LobbyJoinError::AlreadyJoined(H)));
    assert_eq!(lobby.invite(U1), Ok(()));
    assert_eq!(lobby.join(U1), Ok(()));
    assert_eq!(lobby.players(), &vec![H, U1]);
    assert_eq!(lobby.invite(U1), Err(LobbyInviteError::AlreadyInvited(U1)));
}

#[test]
fn join_twice_is_success_then_already_joined() {
    let mut lobby = Lobby::new(H, 0);
    lobby.invite(U1).unwrap();
    assert_eq!(lobby.join(U1), Ok(()));
    let after_first = lobby.players().clone();
    assert_eq!(lobby.join(U1), Err(LobbyJoinError::AlreadyJoined(U1)));
    assert_eq!(lobby.players(), &after_first);
}

#[test]
fn full_lobby_rejects_even_invited_candidates() {
    let mut lobby = Lobby::new(H, 0);
    lobby.player_limit = PlayerLimit::AtMost(1);
    assert_eq!(lobby.invite(U1), Ok(()));
    assert_eq!(lobby.join(U1), Err(LobbyJoinError::LobbyFull(U1)));
    assert_eq!(lobby.players(), &vec![H]);
}

#[test]
fn many_join_attempts_on_a_full_lobby_all_fail() {
    let mut lobby = Lobby::new(H, 0);
    lobby.player_limit = PlayerLimit::AtMost(1);
    for user in 10..20u64 {
        lobby.invite(user).unwrap();
    }
    for user in 10..20u64 {
        assert_eq!(lobby.join(user), Err(LobbyJoinError::LobbyFull(user)));
    }
    assert_eq!(lobby.join(H), Err(LobbyJoinError::LobbyFull(H)));
    assert_eq!(lobby.players(), &vec![H]);
}

#[test]
fn access_denied_for_uninvited_candidate() {
    let mut lobby = Lobby::new(H, 0);
    assert_eq!(lobby.join(U1), Err(LobbyJoinError::AccessDenied(U1)));
    let mut public = Lobby::new(H, 0);
    public.accessibility = LobbyAccessibility::Public;
    assert_eq!(public.join(U1), Ok(()));
    assert_eq!(public.players(), &vec![H, U1]);
}

#[test]
fn kicking_the_host_promotes_the_next_member() {
    let mut lobby = Lobby::new(H, 0);
    lobby.invite(U1).unwrap();
    lobby.join(U1).unwrap();
    let kick = lobby.kick(H).unwrap();
    assert!(!kick.lobby_empty);
    assert_eq!(lobby.players(), &vec![U1]);
    assert_eq!(lobby.host(), U1);
}

#[test]
fn kicking_an_absent_user_fails() {
    let mut lobby = Lobby::new(H, 0);
    assert_eq!(lobby.kick(U1), Err(LobbyKickError::NotJoined(U1)));
}

#[test]
fn kicking_the_sole_member_reports_an_empty_lobby() {
    let mut lobby = Lobby::new(H, 0);
    let kick = lobby.kick(H).unwrap();
    assert!(kick.lobby_empty);
}

#[test]
fn registry_kick_of_last_member_destroys_the_lobby() {
    let mut registry = LobbyRegistry::new();
    registry.create(TENANT, H, 0).unwrap();
    let kick = registry.kick(TENANT, H, 1).unwrap();
    assert!(kick.lobby_empty);
    assert!(registry.get(TENANT).is_none());
    assert_eq!(
        registry.kick(TENANT, H, 2),
        Err(CombinedError::NoSuchLobby(TENANT))
    );
}

#[test]
fn promote_host_moves_a_member_to_the_front() {
    let mut lobby = Lobby::new(H, 0);
    lobby.invite(U1).unwrap();
    lobby.invite(U2).unwrap();
    lobby.join(U1).unwrap();
    lobby.join(U2).unwrap();
    assert_eq!(lobby.promote_host(U2), Ok(()));
    assert_eq!(lobby.players(), &vec![U2, H, U1]);
    assert_eq!(lobby.host(), U2);
    assert_eq!(
        lobby.promote_host(99),
        Err(LobbyPromoteError::NotJoined(99))
    );
}

#[test]
fn invitation_rules_are_enforced() {
    let mut lobby = Lobby::new(H, 0);
    assert_eq!(lobby.invite(H), Err(LobbyInviteError::CannotModifyHost));
    assert_eq!(lobby.uninvite(H), Err(LobbyUninviteError::CannotModifyHost));
    assert_eq!(lobby.uninvite(U1), Err(LobbyUninviteError::NotInvited(U1)));
    assert_eq!(lobby.invite(U1), Ok(()));
    assert_eq!(lobby.uninvite(U1), Ok(()));
    assert_eq!(lobby.uninvite(U1), Err(LobbyUninviteError::NotInvited(U1)));

    lobby.accessibility = LobbyAccessibility::Public;
    assert_eq!(
        lobby.invite(U1),
        Err(LobbyInviteError::PublicLobbyInviteNotApplicable)
    );
    assert_eq!(
        lobby.uninvite(U1),
        Err(LobbyUninviteError::PublicLobbyUninviteNotApplicable)
    );
}

#[test]
fn uninvited_member_stays_a_member() {
    let mut lobby = Lobby::new(H, 0);
    lobby.invite(U1).unwrap();
    lobby.join(U1).unwrap();
    lobby.uninvite(U1).unwrap();
    assert_eq!(lobby.players(), &vec![H, U1]);
    assert_eq!(lobby.join(U1), Err(LobbyJoinError::AccessDenied(U1)));
}

#[test]
fn settings_setter_validates_its_inputs() {
    let mut lobby = Lobby::new(H, 0);
    assert_eq!(
        lobby.update_settings(0, 30),
        Err(SettingsError::InvalidSettings)
    );
    assert_eq!(
        lobby.update_settings(10, 0),
        Err(SettingsError::InvalidSettings)
    );
    assert_eq!(lobby.game_settings().rounds(), 20);
    assert_eq!(lobby.update_settings(5, 45), Ok(()));
    assert_eq!(lobby.game_settings().rounds(), 5);
    assert_eq!(lobby.game_settings().guess_time_secs(), 45);
}

#[test]
fn create_on_an_occupied_tenant_fails_without_mutation() {
    let mut registry = LobbyRegistry::new();
    assert_eq!(registry.create(TENANT, H, 5), Ok(()));
    assert_eq!(
        registry.create(TENANT, U1, 6),
        Err(RegistryCreateError::AlreadyExists(TENANT))
    );
    let lobby = registry.get(TENANT).expect("lobby still present");
    assert_eq!(lobby.host(), H);
    assert_eq!(lobby.created_at(), 5);
}

#[test]
fn registry_operations_touch_the_interaction_clock() {
    let mut registry = LobbyRegistry::new();
    registry.create(TENANT, H, 5).unwrap();
    assert_eq!(registry.invite(TENANT, U1, 8), Ok(()));
    assert_eq!(registry.get(TENANT).unwrap().last_interaction(), 8);
    assert_eq!(registry.join(TENANT, U1, 9), Ok(()));
    assert_eq!(registry.get(TENANT).unwrap().last_interaction(), 9);
    assert_eq!(
        registry.join(TENANT, U1, 12),
        Err(CombinedError::Op(LobbyJoinError::AlreadyJoined(U1)))
    );
    assert_eq!(registry.get(TENANT).unwrap().last_interaction(), 9);
    assert_eq!(registry.promote_host(TENANT, U1, 13), Ok(()));
    assert_eq!(registry.get(TENANT).unwrap().host(), U1);
    assert_eq!(registry.update_settings(TENANT, 3, 60, 14), Ok(()));
    assert_eq!(registry.get(TENANT).unwrap().last_interaction(), 14);
    assert_eq!(registry.invite(TENANT, U2, 15), Ok(()));
    assert_eq!(registry.get(TENANT).unwrap().last_interaction(), 15);
    assert_eq!(registry.uninvite(TENANT, U2, 16), Ok(()));
    assert_eq!(registry.get(TENANT).unwrap().last_interaction(), 16);
}

#[test]
fn registry_kick_with_members_left_keeps_the_lobby() {
    let mut registry = LobbyRegistry::new();
    registry.create(TENANT, H, 0).unwrap();
    registry.invite(TENANT, U1, 1).unwrap();
    registry.join(TENANT, U1, 2).unwrap();
    let kick = registry.kick(TENANT, H, 3).unwrap();
    assert!(!kick.lobby_empty);
    let lobby = registry.get(TENANT).expect("lobby retained");
    assert_eq!(lobby.players(), &vec![U1]);
    assert_eq!(lobby.host(), U1);
    assert_eq!(lobby.last_interaction(), 3);
}

#[test]
fn registry_reports_missing_tenants() {
    let mut registry = LobbyRegistry::new();
    assert!(registry.get(TENANT).is_none());
    assert_eq!(
        registry.join(TENANT, U1, 0),
        Err(CombinedError::NoSuchLobby(TENANT))
    );
    assert_eq!(
        registry.invite(TENANT, U1, 0),
        Err(CombinedError::NoSuchLobby(TENANT))
    );
    assert_eq!(
        registry.update_settings(TENANT, 5, 30, 0),
        Err(CombinedError::NoSuchLobby(TENANT))
    );
}

#[test]
fn sweep_removes_only_lobbies_idle_past_the_threshold() {
    let mut registry = LobbyRegistry::new();
    registry.create(1, H, 100).unwrap();
    registry.create(2, U1, 121).unwrap();
    let removed = registry.sweep_expired(30, 131);
    assert_eq!(removed, 1);
    assert!(registry.get(1).is_none());
    let kept = registry.get(2).expect("recently touched lobby is retained");
    assert_eq!(kept.host(), U1);
    assert_eq!(kept.last_interaction(), 121);
}

#[test]
fn sweep_at_exactly_the_threshold_retains_the_lobby() {
    let mut registry = LobbyRegistry::new();
    registry.create(1, H, 100).unwrap();
    assert_eq!(registry.sweep_expired(30, 130), 0);
    assert!(registry.get(1).is_some());
    assert_eq!(registry.sweep_expired(30, 131), 1);
    assert!(registry.get(1).is_none());
}
