use pumpkin_core::events::{EventBus, EventHandler, HandlerBehavior, ResourceLocation};
use pumpkin_core::machine::{
    ConnectionError, ConnectionSession, Packet, PacketOutcome, PendingCookie, Phase,
};
use pumpkin_core::moderation::{BannedIpEntry, BannedIpList, BannedPlayerList};
use pumpkin_core::net::{GameProfile, IpAddress};
use pumpkin_core::session_registry::SessionRegistry;

fn ip(a: u8, b: u8, c: u8, d: u8) -> IpAddress {
    IpAddress::V4(
        ((a as u32) << 24) | ((b as u32) << 16) | ((c as u32) << 8) | (d as u32),
    )
}

fn empty_world() -> (BannedIpList, BannedPlayerList, SessionRegistry, EventBus) {
    (
        BannedIpList { banned_ips: vec![], needs_save: false },
        BannedPlayerList { banned_players: vec![], needs_save: false },
        SessionRegistry::new(),
        EventBus::new(),
    )
}

#[test]
fn illegal_packet_yields_protocol_violation_and_closes() {
    let (mut ips, mut players, mut reg, bus) = empty_world();
    // A keep-alive is legal only in Play; in Handshake it must violate.
    let mut session = ConnectionSession::new(1, ip(192, 0, 2, 1));
    let r = session.handle_packet(Packet::KeepAlive, &mut ips, &mut players, &mut reg, &bus, 0);
    assert_eq!(r, Err(ConnectionError::ProtocolViolation));
    assert_eq!(session.phase, Phase::Closed);
    // A status request during Login must violate too.
    let mut session = ConnectionSession::new(2, ip(192, 0, 2, 1));
    session
        .handle_packet(
            Packet::Handshake { protocol_version: 770, next_phase: 2 },
            &mut ips,
            &mut players,
            &mut reg,
            &bus,
            0,
        )
        .unwrap();
    assert_eq!(session.phase, Phase::Login);
    let r = session.handle_packet(Packet::StatusRequest, &mut ips, &mut players, &mut reg, &bus, 0);
    assert_eq!(r, Err(ConnectionError::ProtocolViolation));
    assert_eq!(session.phase, Phase::Closed);
}

#[test]
fn malformed_handshake_next_phase_violates() {
    let (mut ips, mut players, mut reg, bus) = empty_world();
    let mut session = ConnectionSession::new(1, ip(192, 0, 2, 1));
    let r = session.handle_packet(
        Packet::Handshake { protocol_version: 770, next_phase: 9 },
        &mut ips,
        &mut players,
        &mut reg,
        &bus,
        0,
    );
    assert_eq!(r, Err(ConnectionError::ProtocolViolation));
    assert_eq!(session.phase, Phase::Closed);
}

#[test]
fn status_exchange_answers_once_and_closes() {
    let (mut ips, mut players, mut reg, bus) = empty_world();
    let mut session = ConnectionSession::new(1, ip(192, 0, 2, 1));
    session
        .handle_packet(
            Packet::Handshake { protocol_version: 770, next_phase: 1 },
            &mut ips,
            &mut players,
            &mut reg,
            &bus,
            0,
        )
        .unwrap();
    assert_eq!(session.phase, Phase::Status);
    let r = session.handle_packet(Packet::StatusRequest, &mut ips, &mut players, &mut reg, &bus, 0);
    assert_eq!(r, Ok(PacketOutcome::StatusResponded));
    assert_eq!(session.phase, Phase::Closed);
    // Once closed, further packets are dropped.
    let r = session.handle_packet(Packet::StatusRequest, &mut ips, &mut players, &mut reg, &bus, 0);
    assert_eq!(r, Ok(PacketOutcome::Ignored));
}

#[test]
fn permanently_banned_ip_is_rejected_and_no_session_registered() {
    // IP 203.0.113.5 banned with no expiry: permanent.
    let banned = ip(203, 0, 113, 5);
    let mut ips = BannedIpList {
        banned_ips: vec![BannedIpEntry {
            ip: banned,
            reason: Some(String::from("abuse")),
            expires: None,
            source: String::from("console"),
        }],
        needs_save: false,
    };
    let mut players = BannedPlayerList { banned_players: vec![], needs_save: false };
    let mut reg = SessionRegistry::new();
    let bus = EventBus::new();
    let mut session = ConnectionSession::new(9, banned);
    session
        .handle_packet(
            Packet::Handshake { protocol_version: 770, next_phase: 2 },
            &mut ips,
            &mut players,
            &mut reg,
            &bus,
            1000,
        )
        .unwrap();
    let profile = GameProfile { id: 77, name: String::from("Mallory") };
    let r = session.handle_packet(
        Packet::LoginStart { profile },
        &mut ips,
        &mut players,
        &mut reg,
        &bus,
        1000,
    );
    assert_eq!(
        r,
        Err(ConnectionError::Banned { reason: Some(String::from("abuse")), expires: None }),
    );
    assert_eq!(session.phase, Phase::Closed);
    assert_eq!(session.identity, None);
    assert_eq!(reg.lookup(77), None);
}

#[test]
fn successful_login_registers_and_enters_configuration() {
    let (mut ips, mut players, mut reg, bus) = empty_world();
    let mut session = ConnectionSession::new(5, ip(198, 51, 100, 7));
    session
        .handle_packet(
            Packet::Handshake { protocol_version: 770, next_phase: 2 },
            &mut ips,
            &mut players,
            &mut reg,
            &bus,
            0,
        )
        .unwrap();
    let profile = GameProfile { id: 1234, name: String::from("Robin") };
    let r = session.handle_packet(
        Packet::LoginStart { profile },
        &mut ips,
        &mut players,
        &mut reg,
        &bus,
        0,
    );
    assert_eq!(r, Ok(PacketOutcome::Accepted));
    assert_eq!(session.phase, Phase::Configuration);
    assert_eq!(reg.lookup(1234), Some(5));
    // The ready signal moves the connection into Play.
    let r = session.handle_packet(
        Packet::FinishConfiguration,
        &mut ips,
        &mut players,
        &mut reg,
        &bus,
        0,
    );
    assert_eq!(r, Ok(PacketOutcome::Accepted));
    assert_eq!(session.phase, Phase::Play);
    let r = session.handle_packet(Packet::KeepAlive, &mut ips, &mut players, &mut reg, &bus, 0);
    assert_eq!(r, Ok(PacketOutcome::Accepted));
}

#[test]
fn duplicate_login_fails_the_new_connection_only() {
    let (mut ips, mut players, mut reg, bus) = empty_world();
    let mut first = ConnectionSession::new(1, ip(198, 51, 100, 1));
    first
        .handle_packet(
            Packet::Handshake { protocol_version: 770, next_phase: 2 },
            &mut ips,
            &mut players,
            &mut reg,
            &bus,
            0,
        )
        .unwrap();
    let r = first.handle_packet(
        Packet::LoginStart { profile: GameProfile { id: 50, name: String::from("Kim") } },
        &mut ips,
        &mut players,
        &mut reg,
        &bus,
        0,
    );
    assert_eq!(r, Ok(PacketOutcome::Accepted));
    let mut second = ConnectionSession::new(2, ip(198, 51, 100, 2));
    second
        .handle_packet(
            Packet::Handshake { protocol_version: 770, next_phase: 2 },
            &mut ips,
            &mut players,
            &mut reg,
            &bus,
            0,
        )
        .unwrap();
    let r = second.handle_packet(
        Packet::LoginStart { profile: GameProfile { id: 50, name: String::from("Kim") } },
        &mut ips,
        &mut players,
        &mut reg,
        &bus,
        0,
    );
    assert_eq!(r, Err(ConnectionError::DuplicateLogin));
    assert_eq!(second.phase, Phase::Closed);
    // The existing session is unaffected.
    assert_eq!(first.phase, Phase::Configuration);
    assert_eq!(reg.lookup(50), Some(1));
}

#[test]
fn close_is_idempotent_and_deregisters_exactly_once() {
    let (mut ips, mut players, mut reg, bus) = empty_world();
    let mut session = ConnectionSession::new(3, ip(198, 51, 100, 3));
    session
        .handle_packet(
            Packet::Handshake { protocol_version: 770, next_phase: 2 },
            &mut ips,
            &mut players,
            &mut reg,
            &bus,
            0,
        )
        .unwrap();
    session
        .handle_packet(
            Packet::LoginStart { profile: GameProfile { id: 8, name: String::from("Sam") } },
            &mut ips,
            &mut players,
            &mut reg,
            &bus,
            0,
        )
        .unwrap();
    assert_eq!(reg.lookup(8), Some(3));
    session.close(&mut reg);
    assert_eq!(session.phase, Phase::Closed);
    assert_eq!(reg.lookup(8), None);
    // Re-register the identity from another connection, then close the
    // first session again: the second close must not deregister anything.
    let mut other = ConnectionSession::new(4, ip(198, 51, 100, 4));
    other
        .handle_packet(
            Packet::Handshake { protocol_version: 770, next_phase: 2 },
            &mut ips,
            &mut players,
            &mut reg,
            &bus,
            0,
        )
        .unwrap();
    other
        .handle_packet(
            Packet::LoginStart { profile: GameProfile { id: 8, name: String::from("Sam") } },
            &mut ips,
            &mut players,
            &mut reg,
            &bus,
            0,
        )
        .unwrap();
    assert_eq!(reg.lookup(8), Some(4));
    session.close(&mut reg);
    assert_eq!(reg.lookup(8), Some(4));
}

#[test]
fn cancelled_cookie_response_does_not_resume_deferred_step() {
    let mut bus = EventBus::new();
    bus.register(EventHandler { id: 1, priority: 0, behavior: HandlerBehavior::Cancel });
    let (mut ips, mut players, mut reg, _) = empty_world();
    let key = ResourceLocation::new(String::from("example"), String::from("session"));
    let mut session = ConnectionSession {
        id: 11,
        ip: ip(198, 51, 100, 9),
        phase: Phase::Configuration,
        identity: None,
        pending_cookies: vec![],
    };
    session.request_cookie(ResourceLocation::new(
        String::from("example"),
        String::from("session"),
    ));
    assert!(session.pending_cookies[0].awaiting);
    let r = session.handle_packet(
        Packet::CookieResponse { key, has_payload: true, payload: Some(vec![1, 2, 3]) },
        &mut ips,
        &mut players,
        &mut reg,
        &bus,
        0,
    );
    assert_eq!(r, Ok(PacketOutcome::CookieCancelled));
    // The deferred step bound to the cookie did not resume.
    assert!(session.pending_cookies[0].awaiting);
    assert_eq!(session.phase, Phase::Configuration);
}

#[test]
fn uncancelled_cookie_response_resumes_deferred_step() {
    let bus = EventBus::new();
    let (mut ips, mut players, mut reg, _) = empty_world();
    let mut session = ConnectionSession {
        id: 11,
        ip: ip(198, 51, 100, 9),
        phase: Phase::Configuration,
        identity: None,
        pending_cookies: vec![PendingCookie {
            key: ResourceLocation::new(String::from("example"), String::from("session")),
            awaiting: true,
        }],
    };
    let key = ResourceLocation::new(String::from("example"), String::from("session"));
    let r = session.handle_packet(
        Packet::CookieResponse { key, has_payload: false, payload: None },
        &mut ips,
        &mut players,
        &mut reg,
        &bus,
        0,
    );
    assert_eq!(r, Ok(PacketOutcome::Accepted));
    assert!(!session.pending_cookies[0].awaiting);
}
