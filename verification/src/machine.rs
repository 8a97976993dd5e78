//! The per-connection protocol phase machine. A connection walks
//! Handshake, then Status or Login, then Configuration, then Play, with a
//! terminal Closed reachable from anywhere. Login is gated by the
//! moderation store and by the session registry; the cookie exchange of
//! the configuration phase is gated by the event bus. A packet illegal in
//! the current phase is refused as a protocol violation and the connection
//! force-closed.

use vstd::prelude::*;
use crate::events::{ConfigCookieResponseEvent, CookieEventView, EventBus, EventView, ResourceLocation, dispatch_seq, opt_bytes_view};
use crate::moderation::{
    BannedIpEntry, BannedIpList, BannedPlayerEntry, BannedPlayerList, purged_ips, purged_players,
    spec_find_ip, spec_find_player,
};
use crate::net::{GameProfile, IpAddress};
use crate::session_registry::{SessionRegistry, reg_contains, removed_identity};
use crate::text::clone_opt_string;

verus! {

/// Why a connection was refused or torn down.
#[derive(Debug, PartialEq, Eq)]
pub enum ConnectionError {
    /// The client sent a packet illegal for the current phase, or
    /// malformed handshake data. Fatal to the connection.
    ProtocolViolation,
    /// Login was rejected by a moderation entry; the disconnect notice
    /// carries the recorded reason and expiry.
    Banned { reason: Option<String>, expires: Option<i64> },
    /// The identity already holds a live session; the new connection is
    /// refused, the existing session unaffected.
    DuplicateLogin,
    /// A moderation document could not be read or written.
    PersistenceFailure,
}

/// A stage of the connection protocol, constraining which packets are
/// legal.
#[derive(Clone, Copy, Debug, PartialEq, Eq, Structural)]
pub enum Phase {
    Handshake,
    Status,
    Login,
    Configuration,
    Play,
    Closed,
}

/// The logical packets the phase machine routes. Payload shapes beyond
/// the phase, ban and cookie semantics stay with their collaborators.
pub enum Packet {
    /// The protocol version and the declared next phase: 1 for Status, 2
    /// for Login; anything else is malformed.
    Handshake { protocol_version: u32, next_phase: u32 },
    /// The one server-list ping exchange.
    StatusRequest,
    /// The claimed identity opening the login sequence.
    LoginStart { profile: GameProfile },
    /// A cookie echoed back during configuration.
    CookieResponse { key: ResourceLocation, has_payload: bool, payload: Option<Vec<u8>> },
    /// The explicit ready signal ending configuration.
    FinishConfiguration,
    /// The steady-state liveness packet of the play phase.
    KeepAlive,
}

/// What the machine did with a packet it accepted.
#[derive(Clone, Copy, Debug, PartialEq, Eq, Structural)]
pub enum PacketOutcome {
    /// The packet took its default effect.
    Accepted,
    /// The one status exchange was answered and the connection closed.
    StatusResponded,
    /// The connection is already closed; the packet was dropped.
    Ignored,
    /// A handler cancelled the cookie event, so its default action was
    /// skipped.
    CookieCancelled,
}

/// In which phase each packet is legal.
pub open spec fn packet_legal_in(p: Packet, phase: Phase) -> bool {
    match p {
        Packet::Handshake { .. } => phase is Handshake,
        Packet::StatusRequest => phase is Status,
        Packet::LoginStart { .. } => phase is Login,
        Packet::CookieResponse { .. } => phase is Configuration,
        Packet::FinishConfiguration => phase is Configuration,
        Packet::KeepAlive => phase is Play,
    }
}

/// A cookie the server asked the client to echo, and whether the deferred
/// configuration step bound to it still awaits the reply.
pub struct PendingCookie {
    /// The cookie's key.
    pub key: ResourceLocation,
    /// Whether the reply is still awaited.
    pub awaiting: bool,
}

/// The pending cookies after an uncancelled response for the key arrived:
/// the first entry still awaiting that key is marked answered — its
/// deferred step resumes — and everything else is untouched.
pub open spec fn resolve_cookie(s: Seq<PendingCookie>, ns: Seq<char>, path: Seq<char>) -> Seq<
    PendingCookie,
>
    decreases s.len(),
{
    if s.len() == 0 {
        s
    } else if s[0].key.namespace@ == ns && s[0].key.path@ == path && s[0].awaiting {
        seq![PendingCookie { key: s[0].key, awaiting: false }] + s.drop_first()
    } else {
        seq![s[0]] + resolve_cookie(s.drop_first(), ns, path)
    }
}

/// The decision the login gate takes, in order: the connecting IP's ban
/// list (as purged at `now`), then the claimed identity's ban list (as
/// purged at `now`), then the registry's duplicate check.
pub open spec fn login_decision(
    ip_list: Seq<BannedIpEntry>,
    player_list: Seq<BannedPlayerEntry>,
    reg: Seq<(u128, u64)>,
    ip: IpAddress,
    profile: GameProfile,
    now: i64,
) -> Result<PacketOutcome, ConnectionError> {
    match spec_find_ip(purged_ips(ip_list, now), ip) {
        Some(e) => Err(ConnectionError::Banned { reason: e.reason, expires: e.expires }),
        None => match spec_find_player(purged_players(player_list, now), profile.id, profile.name@) {
            Some(e) => Err(ConnectionError::Banned { reason: e.reason, expires: e.expires }),
            None => if reg_contains(reg, profile.id) {
                Err(ConnectionError::DuplicateLogin)
            } else {
                Ok(PacketOutcome::Accepted)
            },
        },
    }
}

/// One connection's protocol state, owned by the task driving that
/// connection.
pub struct ConnectionSession {
    /// The opaque handle of the connection, as recorded in the registry.
    pub id: u64,
    /// The address the client connected from.
    pub ip: IpAddress,
    /// The phase the connection currently stands in.
    pub phase: Phase,
    /// The player identity, assigned once login succeeds.
    pub identity: Option<GameProfile>,
    /// The cookies the server asked for and the steps awaiting them.
    pub pending_cookies: Vec<PendingCookie>,
}

impl ConnectionSession {
    /// Before login succeeds no identity is assigned.
    pub open spec fn wf(&self) -> bool {
        (self.phase is Handshake || self.phase is Status || self.phase is Login)
            ==> self.identity is None
    }

    /// A freshly accepted connection: in the handshake phase, anonymous,
    /// with nothing pending.
    pub fn new(id: u64, ip: IpAddress) -> (r: Self)
        ensures
            r.id == id,
            r.ip == ip,
            r.phase is Handshake,
            r.identity is None,
            r.pending_cookies@ == Seq::<PendingCookie>::empty(),
            r.wf(),
    {
        Self { id, ip, phase: Phase::Handshake, identity: None, pending_cookies: Vec::new() }
    }

    /// Records that the server asked the client to echo this cookie and
    /// that a configuration step awaits the reply.
    pub fn request_cookie(&mut self, key: ResourceLocation)
        ensures
            final(self).pending_cookies@ == old(self).pending_cookies@.push(
                (PendingCookie { key: key, awaiting: true }),
            ),
            final(self).id == old(self).id,
            final(self).ip == old(self).ip,
            final(self).phase == old(self).phase,
            final(self).identity == old(self).identity,
    {
        self.pending_cookies.push(PendingCookie { key, awaiting: true });
    }

    /// Tears the connection down: the phase becomes Closed and the
    /// session's registration, if any, is withdrawn. On a connection
    /// already closed this is a no-op: nothing changes and no
    /// deregistration side effect runs again.
    pub fn close(&mut self, registry: &mut SessionRegistry)
        requires
            old(registry).wf(),
        ensures
            final(registry).wf(),
            final(self).phase is Closed,
            old(self).phase is Closed ==> *final(self) == *old(self) && *final(registry) == *old(registry),
            !(old(self).phase is Closed) ==> {
                &&& final(self).id == old(self).id
                &&& final(self).ip == old(self).ip
                &&& final(self).identity == old(self).identity
                &&& final(self).pending_cookies@ == old(self).pending_cookies@
                &&& (match old(self).identity {
                    Some(p) => removed_identity(
                        old(registry).entries(),
                        final(registry).entries(),
                        p.id,
                    ),
                    None => *final(registry) == *old(registry),
                })
            },
    {
        if self.phase == Phase::Closed {
            return ;
        }
        self.phase = Phase::Closed;
        match &self.identity {
            Some(p) => {
                let uuid = p.id;
                registry.remove(uuid);
            },
            None => {},
        }
    }

    /// Marks the first pending cookie with this key as answered, resuming
    /// the step that awaited it.
    fn resolve_pending(&mut self, key: &ResourceLocation)
        ensures
            final(self).pending_cookies@ == resolve_cookie(
                old(self).pending_cookies@,
                key.namespace@,
                key.path@,
            ),
            final(self).id == old(self).id,
            final(self).ip == old(self).ip,
            final(self).phase == old(self).phase,
            final(self).identity == old(self).identity,
    {
        let ghost s = self.pending_cookies@;
        let ghost ns = key.namespace@;
        let ghost path = key.path@;
        let mut i: usize = 0;
        proof {
            assert(s.skip(0) =~= s);
        }
        while i < self.pending_cookies.len()
            invariant
                s == self.pending_cookies@,
                i <= s.len(),
                ns == key.namespace@,
                path == key.path@,
                self.id == old(self).id,
                self.ip == old(self).ip,
                self.phase == old(self).phase,
                self.identity == old(self).identity,
                s == old(self).pending_cookies@,
                forall|j: int|
                    0 <= j < i ==> !(s[j].key.namespace@ == ns && s[j].key.path@ == path
                        && s[j].awaiting),
                resolve_cookie(s, ns, path) == s.take(i as int) + resolve_cookie(
                    s.skip(i as int),
                    ns,
                    path,
                ),
            decreases s.len() - i,
        {
            let hit = self.pending_cookies[i].awaiting && self.pending_cookies[i].key.same_key(key);
            if hit {
                let entry = self.pending_cookies.remove(i);
                let resolved = PendingCookie { key: entry.key, awaiting: false };
                self.pending_cookies.insert(i, resolved);
                proof {
                    assert(s.skip(i as int)[0] == s[i as int]);
                    assert(resolve_cookie(s.skip(i as int), ns, path) == seq![
                        (PendingCookie { key: s[i as int].key, awaiting: false }),
                    ] + s.skip(i as int).drop_first());
                    assert(s.skip(i as int).drop_first() =~= s.skip(i as int + 1));
                    assert(self.pending_cookies@ =~= s.remove(i as int).insert(
                        i as int,
                        (PendingCookie { key: s[i as int].key, awaiting: false }),
                    ));
                    assert(self.pending_cookies@ =~= s.take(i as int) + (seq![
                        (PendingCookie { key: s[i as int].key, awaiting: false }),
                    ] + s.skip(i as int + 1)));
                    assert(self.pending_cookies@ =~= resolve_cookie(s, ns, path));
                }
                return ;
            }
            proof {
                assert(s.skip(i as int)[0] == s[i as int]);
                assert(s.skip(i as int).drop_first() =~= s.skip(i as int + 1));
                assert(resolve_cookie(s.skip(i as int), ns, path) == seq![s[i as int]]
                    + resolve_cookie(s.skip(i as int + 1), ns, path));
                assert(s.take(i as int) + seq![s[i as int]] =~= s.take(i as int + 1));
                assert(s.take(i as int) + (seq![s[i as int]] + resolve_cookie(
                    s.skip(i as int + 1),
                    ns,
                    path,
                )) =~= s.take(i as int + 1) + resolve_cookie(s.skip(i as int + 1), ns, path));
            }
            i = i + 1;
        }
        proof {
            assert(s.skip(i as int).len() == 0);
            assert(resolve_cookie(s.skip(i as int), ns, path) =~= Seq::<PendingCookie>::empty());
            assert(s.take(i as int) + resolve_cookie(s.skip(i as int), ns, path) =~= s);
        }
    }

    /// The login gate: the connecting IP's bans, then the identity's
    /// bans — each list purged of lapsed entries at `now` and marked for
    /// saving if that removed anything — then the registry's duplicate
    /// check. Success assigns the identity, records the session and moves
    /// to Configuration; any refusal closes the connection and registers
    /// nothing.
    pub fn handle_login(
        &mut self,
        profile: GameProfile,
        ip_bans: &mut BannedIpList,
        player_bans: &mut BannedPlayerList,
        registry: &mut SessionRegistry,
        now: i64,
    ) -> (r: Result<PacketOutcome, ConnectionError>)
        requires
            old(self).phase is Login,
            old(self).identity is None,
            old(registry).wf(),
        ensures
            final(registry).wf(),
            final(self).wf(),
            r == login_decision(
                old(ip_bans).banned_ips@,
                old(player_bans).banned_players@,
                old(registry).entries(),
                old(self).ip,
                profile,
                now,
            ),
            final(ip_bans).banned_ips@ == purged_ips(old(ip_bans).banned_ips@, now),
            final(ip_bans).needs_save == (old(ip_bans).needs_save || purged_ips(
                old(ip_bans).banned_ips@,
                now,
            ).len() != old(ip_bans).banned_ips@.len()),
            spec_find_ip(purged_ips(old(ip_bans).banned_ips@, now), old(self).ip) is Some ==> *final(player_bans) == *old(player_bans),
            spec_find_ip(purged_ips(old(ip_bans).banned_ips@, now), old(self).ip) is None ==> final(player_bans).banned_players@ == purged_players(old(player_bans).banned_players@, now) && final(player_bans).needs_save == (old(player_bans).needs_save || purged_players(
                old(player_bans).banned_players@,
                now,
            ).len() != old(player_bans).banned_players@.len()),
            r == Ok::<PacketOutcome, ConnectionError>(PacketOutcome::Accepted) ==> final(self).phase is Configuration && final(self).identity == Some(profile) && final(registry).entries() == old(registry).entries().push((profile.id, old(self).id)),
            r is Err ==> final(self).phase is Closed && final(self).identity is None && final(registry).entries() == old(registry).entries(),
            final(self).id == old(self).id,
            final(self).ip == old(self).ip,
            final(self).pending_cookies@ == old(self).pending_cookies@,
    {
        let ip_hit = ip_bans.get_entry_at(&self.ip, now);
        if let Some(e) = ip_hit {
            let err = ConnectionError::Banned {
                reason: clone_opt_string(&e.reason),
                expires: e.expires,
            };
            self.phase = Phase::Closed;
            return Err(err);
        }
        let player_hit = player_bans.get_entry_at(&profile, now);
        if let Some(e) = player_hit {
            let err = ConnectionError::Banned {
                reason: clone_opt_string(&e.reason),
                expires: e.expires,
            };
            self.phase = Phase::Closed;
            return Err(err);
        }
        match registry.insert(profile.id, self.id) {
            Err(_) => {
                self.phase = Phase::Closed;
                Err(ConnectionError::DuplicateLogin)
            },
            Ok(_) => {
                self.identity = Some(profile);
                self.phase = Phase::Configuration;
                Ok(PacketOutcome::Accepted)
            },
        }
    }

    /// The cookie-response gate: the decoded response is wrapped in an
    /// event and published before anything is applied. Only if no handler
    /// cancelled it is the pending cookie marked answered — the deferred
    /// step bound to it resumes; a cancelled event leaves the session
    /// exactly as it was.
    pub fn handle_cookie_response(
        &mut self,
        key: ResourceLocation,
        has_payload: bool,
        payload: Option<Vec<u8>>,
        bus: &EventBus,
    ) -> (r: Result<PacketOutcome, ConnectionError>)
        requires
            old(self).phase is Configuration,
        ensures
            dispatch_seq(
                bus.spec_handlers(),
                (EventView {
                    payload: (CookieEventView {
                        client: old(self).id,
                        key_ns: key.namespace@,
                        key_path: key.path@,
                        has_payload: has_payload,
                        payload: opt_bytes_view(payload),
                    }),
                    cancelled: false,
                }),
            ).cancelled ==> r == Ok::<PacketOutcome, ConnectionError>(
                PacketOutcome::CookieCancelled,
            ) && *final(self) == *old(self),
            !dispatch_seq(
                bus.spec_handlers(),
                (EventView {
                    payload: (CookieEventView {
                        client: old(self).id,
                        key_ns: key.namespace@,
                        key_path: key.path@,
                        has_payload: has_payload,
                        payload: opt_bytes_view(payload),
                    }),
                    cancelled: false,
                }),
            ).cancelled ==> r == Ok::<PacketOutcome, ConnectionError>(PacketOutcome::Accepted)
                && final(self).pending_cookies@ == resolve_cookie(
                old(self).pending_cookies@,
                key.namespace@,
                key.path@,
            ),
            final(self).id == old(self).id,
            final(self).ip == old(self).ip,
            final(self).phase == old(self).phase,
            final(self).identity == old(self).identity,
    {
        let key_kept = key.clone_key();
        let event = bus.publish(ConfigCookieResponseEvent::new(self.id, key, has_payload, payload));
        if event.cancelled {
            Ok(PacketOutcome::CookieCancelled)
        } else {
            self.resolve_pending(&key_kept);
            Ok(PacketOutcome::Accepted)
        }
    }

    /// Routes one inbound packet through the phase machine. A connection
    /// already closed drops the packet. A packet illegal in the current
    /// phase — and a handshake declaring any next phase but Status or
    /// Login — is refused as a protocol violation and the connection
    /// force-closed, deregistering the session exactly once if it was
    /// registered. Legal packets take their phase's default effect: the
    /// handshake picks Status or Login, the one status exchange closes the
    /// connection, login runs the moderation and duplicate gates, a cookie
    /// response is published on the bus before it is applied, the ready
    /// signal enters Play.
    pub fn handle_packet(
        &mut self,
        packet: Packet,
        ip_bans: &mut BannedIpList,
        player_bans: &mut BannedPlayerList,
        registry: &mut SessionRegistry,
        bus: &EventBus,
        now: i64,
    ) -> (r: Result<PacketOutcome, ConnectionError>)
        requires
            old(self).wf(),
            old(registry).wf(),
        ensures
            final(self).wf(),
            final(registry).wf(),
            final(self).id == old(self).id,
            final(self).ip == old(self).ip,
            old(self).phase is Closed ==> *final(self) == *old(self) && *final(registry) == *old(registry) && *final(ip_bans) == *old(ip_bans) && *final(player_bans) == *old(player_bans) && r
                == Ok::<PacketOutcome, ConnectionError>(PacketOutcome::Ignored),
            !(old(self).phase is Closed) && !packet_legal_in(packet, old(self).phase) ==> r == Err::<
                PacketOutcome,
                ConnectionError,
            >(ConnectionError::ProtocolViolation) && final(self).phase is Closed,
            r == Err::<PacketOutcome, ConnectionError>(ConnectionError::ProtocolViolation) ==> (
            match old(self).identity {
                Some(p) => removed_identity(
                    old(registry).entries(),
                    final(registry).entries(),
                    p.id,
                ),
                None => *final(registry) == *old(registry),
            }),
            !(old(self).phase is Login && packet is LoginStart) ==> *final(ip_bans) == *old(ip_bans) && *final(player_bans) == *old(player_bans),
            !(old(self).phase is Login && packet is LoginStart) && !(r == Err::<
                PacketOutcome,
                ConnectionError,
            >(ConnectionError::ProtocolViolation)) ==> *final(registry) == *old(registry),
            !(old(self).phase is Login && packet is LoginStart) ==> final(self).identity == old(self).identity,
            !(old(self).phase is Configuration && packet is CookieResponse) ==> final(self).pending_cookies@ == old(self).pending_cookies@,
            packet matches Packet::Handshake { protocol_version, next_phase } ==> (old(self).phase is Handshake ==> (if next_phase == 1 {
                final(self).phase is Status && r == Ok::<PacketOutcome, ConnectionError>(
                    PacketOutcome::Accepted,
                )
            } else if next_phase == 2 {
                final(self).phase is Login && r == Ok::<PacketOutcome, ConnectionError>(
                    PacketOutcome::Accepted,
                )
            } else {
                final(self).phase is Closed && r == Err::<PacketOutcome, ConnectionError>(
                    ConnectionError::ProtocolViolation,
                )
            })),
            old(self).phase is Status && packet is StatusRequest ==> r == Ok::<
                PacketOutcome,
                ConnectionError,
            >(PacketOutcome::StatusResponded) && final(self).phase is Closed,
            packet matches Packet::LoginStart { profile } ==> (old(self).phase is Login ==> {
                &&& r == login_decision(
                    old(ip_bans).banned_ips@,
                    old(player_bans).banned_players@,
                    old(registry).entries(),
                    old(self).ip,
                    profile,
                    now,
                )
                &&& final(ip_bans).banned_ips@ == purged_ips(old(ip_bans).banned_ips@, now)
                &&& (r == Ok::<PacketOutcome, ConnectionError>(PacketOutcome::Accepted) ==> final(self).phase is Configuration && final(self).identity == Some(profile) && final(registry).entries() == old(registry).entries().push((profile.id, old(self).id)))
                &&& (r is Err ==> final(self).phase is Closed && final(self).identity is None
                    && final(registry).entries() == old(registry).entries())
            }),
            packet matches Packet::CookieResponse { key, has_payload, payload } ==> (old(self).phase is Configuration ==> {
                &&& final(self).phase is Configuration
                &&& final(self).identity == old(self).identity
                &&& (dispatch_seq(
                    bus.spec_handlers(),
                    (EventView {
                        payload: (CookieEventView {
                            client: old(self).id,
                            key_ns: key.namespace@,
                            key_path: key.path@,
                            has_payload: has_payload,
                            payload: opt_bytes_view(payload),
                        }),
                        cancelled: false,
                    }),
                ).cancelled ==> r == Ok::<PacketOutcome, ConnectionError>(
                    PacketOutcome::CookieCancelled,
                ) && final(self).pending_cookies@ == old(self).pending_cookies@)
                &&& (!dispatch_seq(
                    bus.spec_handlers(),
                    (EventView {
                        payload: (CookieEventView {
                            client: old(self).id,
                            key_ns: key.namespace@,
                            key_path: key.path@,
                            has_payload: has_payload,
                            payload: opt_bytes_view(payload),
                        }),
                        cancelled: false,
                    }),
                ).cancelled ==> r == Ok::<PacketOutcome, ConnectionError>(PacketOutcome::Accepted)
                    && final(self).pending_cookies@ == resolve_cookie(
                    old(self).pending_cookies@,
                    key.namespace@,
                    key.path@,
                ))
            }),
            old(self).phase is Configuration && packet is FinishConfiguration ==> r == Ok::<
                PacketOutcome,
                ConnectionError,
            >(PacketOutcome::Accepted) && final(self).phase is Play && final(self).identity == old(self).identity,
            old(self).phase is Play && packet is KeepAlive ==> r == Ok::<
                PacketOutcome,
                ConnectionError,
            >(PacketOutcome::Accepted) && *final(self) == *old(self),
    {
        if self.phase == Phase::Closed {
            return Ok(PacketOutcome::Ignored);
        }
        match packet {
            Packet::Handshake { protocol_version: _, next_phase } => {
                if self.phase == Phase::Handshake {
                    if next_phase == 1 {
                        self.phase = Phase::Status;
                        Ok(PacketOutcome::Accepted)
                    } else if next_phase == 2 {
                        self.phase = Phase::Login;
                        Ok(PacketOutcome::Accepted)
                    } else {
                        self.close(registry);
                        Err(ConnectionError::ProtocolViolation)
                    }
                } else {
                    self.close(registry);
                    Err(ConnectionError::ProtocolViolation)
                }
            },
            Packet::StatusRequest => {
                if self.phase == Phase::Status {
                    self.close(registry);
                    Ok(PacketOutcome::StatusResponded)
                } else {
                    self.close(registry);
                    Err(ConnectionError::ProtocolViolation)
                }
            },
            Packet::LoginStart { profile } => {
                if self.phase == Phase::Login {
                    self.handle_login(profile, ip_bans, player_bans, registry, now)
                } else {
                    self.close(registry);
                    Err(ConnectionError::ProtocolViolation)
                }
            },
            Packet::CookieResponse { key, has_payload, payload } => {
                if self.phase == Phase::Configuration {
                    self.handle_cookie_response(key, has_payload, payload, bus)
                } else {
                    self.close(registry);
                    Err(ConnectionError::ProtocolViolation)
                }
            },
            Packet::FinishConfiguration => {
                if self.phase == Phase::Configuration {
                    self.phase = Phase::Play;
                    Ok(PacketOutcome::Accepted)
                } else {
                    self.close(registry);
                    Err(ConnectionError::ProtocolViolation)
                }
            },
            Packet::KeepAlive => {
                if self.phase == Phase::Play {
                    Ok(PacketOutcome::Accepted)
                } else {
                    self.close(registry);
                    Err(ConnectionError::ProtocolViolation)
                }
            },
        }
    }
}

} // verus!
