//! The moderation store: ordered lists of banned IPs, banned player
//! identities, and operator grants. Lookups on the ban lists first purge
//! entries whose expiry lies in the past; a purge marks the list as needing
//! to be persisted. A validation pass reports findings without ever
//! changing the data.

use vstd::prelude::*;
use crate::net::{GameProfile, IpAddress, spec_uuid_is_nil};

verus! {

/// Whether an entry with this expiry is still in force at `now`. An entry
/// with no expiry is permanent.
pub open spec fn entry_active(expires: Option<i64>, now: i64) -> bool {
    match expires {
        None => true,
        Some(t) => t >= now,
    }
}

/// A ban on an IP address.
#[derive(Debug, PartialEq, Eq)]
pub struct BannedIpEntry {
    /// The banned address.
    pub ip: IpAddress,
    /// Why the ban was placed, if recorded.
    pub reason: Option<String>,
    /// When the ban lapses, as seconds since the Unix epoch; permanent if
    /// absent.
    pub expires: Option<i64>,
    /// Who or what placed the ban.
    pub source: String,
}

/// A ban on a player identity.
#[derive(Debug, PartialEq, Eq)]
pub struct BannedPlayerEntry {
    /// The banned player's unique id.
    pub uuid: u128,
    /// The banned player's display name.
    pub name: String,
    /// Why the ban was placed, if recorded.
    pub reason: Option<String>,
    /// When the ban lapses, as seconds since the Unix epoch; permanent if
    /// absent.
    pub expires: Option<i64>,
    /// Who or what placed the ban.
    pub source: String,
}

/// An operator grant.
#[derive(Debug, PartialEq, Eq)]
pub struct Op {
    /// The operator's unique id.
    pub uuid: u128,
    /// The operator's display name.
    pub name: String,
    /// The privilege level granted.
    pub permission_level: u8,
    /// Whether this operator may join past the player limit.
    pub bypasses_player_limit: bool,
}

/// A finding of the advisory validation pass.
#[derive(Clone, Copy, Debug, PartialEq, Eq, Structural)]
pub enum ValidationWarning {
    /// The entry's key already occurs earlier in the list.
    DuplicateKey { index: usize },
    /// The entry's display name already occurs earlier in the list.
    DuplicateName { index: usize },
    /// The entry bans the all-zero address, which would match everyone.
    UnspecifiedIp { index: usize },
    /// The entry bans a loopback address, which only affects local
    /// connections.
    LoopbackIp { index: usize },
    /// The entry carries the all-zero player id.
    NilUuid { index: usize },
    /// The entry carries an empty display name.
    EmptyName { index: usize },
    /// The entry has already lapsed and will be purged on the next lookup.
    ExpiredEntry { index: usize },
}

// ---------------------------------------------------------------------------
// Banned IPs
// ---------------------------------------------------------------------------

/// The entries of `s` still in force at `now`, in their original order.
pub open spec fn purged_ips(s: Seq<BannedIpEntry>, now: i64) -> Seq<BannedIpEntry>
    decreases s.len(),
{
    if s.len() == 0 {
        Seq::empty()
    } else {
        let rest = purged_ips(s.drop_last(), now);
        if entry_active(s.last().expires, now) {
            rest.push(s.last())
        } else {
            rest
        }
    }
}

/// The first entry of `s` banning `ip`, if any.
pub open spec fn spec_find_ip(s: Seq<BannedIpEntry>, ip: IpAddress) -> Option<BannedIpEntry>
    decreases s.len(),
{
    if s.len() == 0 {
        None
    } else if s[0].ip == ip {
        Some(s[0])
    } else {
        spec_find_ip(s.drop_first(), ip)
    }
}

/// Whether an earlier entry bans the same address as entry `i`.
pub open spec fn ip_dup_earlier(s: Seq<BannedIpEntry>, i: int) -> bool {
    exists|j: int| 0 <= j < i && s[j].ip == s[i].ip
}

/// The findings the validation pass reports for entry `i` of an IP list,
/// in the order it reports them.
pub open spec fn ip_warnings_at(s: Seq<BannedIpEntry>, now: i64, i: int) -> Seq<ValidationWarning> {
    (if ip_dup_earlier(s, i) {
        seq![ValidationWarning::DuplicateKey { index: i as usize }]
    } else {
        Seq::empty()
    }) + (if s[i].ip.spec_is_unspecified() {
        seq![ValidationWarning::UnspecifiedIp { index: i as usize }]
    } else {
        Seq::empty()
    }) + (if s[i].ip.spec_is_loopback() {
        seq![ValidationWarning::LoopbackIp { index: i as usize }]
    } else {
        Seq::empty()
    }) + (if (match s[i].expires {
        Some(t) => t <= now,
        None => false,
    }) {
        seq![ValidationWarning::ExpiredEntry { index: i as usize }]
    } else {
        Seq::empty()
    })
}

/// The findings for the first `n` entries of an IP list.
pub open spec fn ip_warnings_upto(s: Seq<BannedIpEntry>, now: i64, n: int) -> Seq<ValidationWarning>
    decreases n,
{
    if n <= 0 {
        Seq::empty()
    } else {
        ip_warnings_upto(s, now, n - 1) + ip_warnings_at(s, now, n - 1)
    }
}

/// Every finding the validation pass reports for an IP list.
pub open spec fn spec_validate_ips(s: Seq<BannedIpEntry>, now: i64) -> Seq<ValidationWarning> {
    ip_warnings_upto(s, now, s.len() as int)
}

/// The persisted list of banned IP addresses.
#[derive(Debug, PartialEq, Eq)]
pub struct BannedIpList {
    /// The entries, in insertion order.
    pub banned_ips: Vec<BannedIpEntry>,
    /// Whether the in-memory list has diverged from its persisted document
    /// and must be saved.
    pub needs_save: bool,
}

/// The first index at or after which `v` holds an entry banning `ip`.
fn find_ip_index(v: &Vec<BannedIpEntry>, ip: &IpAddress) -> (r: Option<usize>)
    ensures
        (match r {
            Some(i) => i < v@.len() && spec_find_ip(v@, *ip) == Some(v@[i as int]),
            None => spec_find_ip(v@, *ip) is None,
        }),
{
    let mut i: usize = 0;
    proof {
        assert(v@.skip(0) =~= v@);
    }
    while i < v.len()
        invariant
            i <= v@.len(),
            spec_find_ip(v@, *ip) == spec_find_ip(v@.skip(i as int), *ip),
        decreases v@.len() - i,
    {
        if v[i].ip == *ip {
            proof {
                assert(v@.skip(i as int)[0] == v@[i as int]);
            }
            return Some(i);
        }
        proof {
            assert(v@.skip(i as int).drop_first() =~= v@.skip(i as int + 1));
            assert(v@.skip(i as int)[0] == v@[i as int]);
        }
        i = i + 1;
    }
    None
}

impl BannedIpList {
    /// An empty list, as used when no document exists yet.
    pub fn new() -> (r: Self)
        ensures
            r.banned_ips@ == Seq::<BannedIpEntry>::empty(),
            r.needs_save == false,
    {
        Self { banned_ips: Vec::new(), needs_save: false }
    }

    /// Drops every entry whose expiry lies in the past of `now`; if any was
    /// dropped, marks the list as needing to be persisted.
    fn remove_invalid_entries(&mut self, now: i64)
        ensures
            final(self).banned_ips@ == purged_ips(old(self).banned_ips@, now),
            final(self).needs_save == (old(self).needs_save || purged_ips(
                old(self).banned_ips@,
                now,
            ).len() != old(self).banned_ips@.len()),
    {
        let ghost orig = self.banned_ips@;
        let original_len = self.banned_ips.len();
        let mut kept: Vec<BannedIpEntry> = Vec::new();
        let mut done: usize = 0;
        while self.banned_ips.len() > 0
            invariant
                done <= orig.len(),
                original_len == orig.len(),
                self.banned_ips@ == orig.skip(done as int),
                kept@ == purged_ips(orig.take(done as int), now),
                self.needs_save == old(self).needs_save,
            decreases orig.len() - done,
        {
            let entry = self.banned_ips.remove(0);
            proof {
                assert(done < orig.len());
                assert(orig.skip(done as int).remove(0) =~= orig.skip(done as int + 1));
                assert(orig.skip(done as int)[0] == orig[done as int]);
                assert(orig.take(done as int + 1).drop_last() =~= orig.take(done as int));
                assert(orig.take(done as int + 1).last() == orig[done as int]);
            }
            let keep = match entry.expires {
                None => true,
                Some(t) => t >= now,
            };
            if keep {
                kept.push(entry);
            }
            done = done + 1;
        }
        proof {
            assert(orig.take(done as int) =~= orig);
        }
        self.banned_ips = kept;
        if original_len != self.banned_ips.len() {
            self.needs_save = true;
        }
    }

    /// Looks the address up at the moment `now`: first purges lapsed
    /// entries (marking the list for saving if any were removed), then
    /// returns the first remaining entry banning `ip`.
    pub fn get_entry_at(&mut self, ip: &IpAddress, now: i64) -> (r: Option<&BannedIpEntry>)
        ensures
            final(self).banned_ips@ == purged_ips(old(self).banned_ips@, now),
            final(self).needs_save == (old(self).needs_save || purged_ips(
                old(self).banned_ips@,
                now,
            ).len() != old(self).banned_ips@.len()),
            (match r {
                Some(e) => spec_find_ip(final(self).banned_ips@, *ip) == Some(*e),
                None => spec_find_ip(final(self).banned_ips@, *ip) is None,
            }),
    {
        self.remove_invalid_entries(now);
        match find_ip_index(&self.banned_ips, ip) {
            Some(i) => Some(&self.banned_ips[i]),
            None => None,
        }
    }

    /// Looks the address up at the present moment, as read from the wall
    /// clock; the stated relation holds for whatever moment was read.
    pub fn get_entry(&mut self, ip: &IpAddress) -> (r: Option<&BannedIpEntry>)
        ensures
            exists|now: i64|
                {
                    &&& final(self).banned_ips@ == purged_ips(old(self).banned_ips@, now)
                    &&& final(self).needs_save == (old(self).needs_save || purged_ips(
                        old(self).banned_ips@,
                        now,
                    ).len() != old(self).banned_ips@.len())
                    &&& (match r {
                        Some(e) => spec_find_ip(final(self).banned_ips@, *ip) == Some(*e),
                        None => spec_find_ip(final(self).banned_ips@, *ip) is None,
                    })
                },
    {
        let now = crate::clock::now_utc();
        self.get_entry_at(ip, now)
    }

    /// Records that the current entries were written to the persisted
    /// document.
    pub fn mark_saved(&mut self)
        ensures
            final(self).banned_ips@ == old(self).banned_ips@,
            final(self).needs_save == false,
    {
        self.needs_save = false;
    }

    /// The well-known path of this list's persisted document, relative to
    /// the server's working directory.
    pub fn get_path() -> (r: &'static str)
        ensures
            r@ == "banned-ips.json"@,
    {
        "banned-ips.json"
    }

    /// The advisory validation pass: reports findings in entry order and
    /// never changes the data.
    pub fn validate(&self, now: i64) -> (r: Vec<ValidationWarning>)
        ensures
            r@ == spec_validate_ips(self.banned_ips@, now),
    {
        let ghost s = self.banned_ips@;
        let mut warnings: Vec<ValidationWarning> = Vec::new();
        let mut i: usize = 0;
        while i < self.banned_ips.len()
            invariant
                s == self.banned_ips@,
                i <= s.len(),
                warnings@ == ip_warnings_upto(s, now, i as int),
            decreases s.len() - i,
        {
            let mut dup = false;
            let mut j: usize = 0;
            while j < i
                invariant
                    s == self.banned_ips@,
                    j <= i,
                    i < s.len(),
                    dup == exists|k: int| 0 <= k < j && s[k].ip == s[i as int].ip,
                decreases i - j,
            {
                if self.banned_ips[j].ip == self.banned_ips[i].ip {
                    dup = true;
                }
                j = j + 1;
            }
            let ghost before = warnings@;
            if dup {
                warnings.push(ValidationWarning::DuplicateKey { index: i });
            }
            if self.banned_ips[i].ip.is_unspecified() {
                warnings.push(ValidationWarning::UnspecifiedIp { index: i });
            }
            if self.banned_ips[i].ip.is_loopback() {
                warnings.push(ValidationWarning::LoopbackIp { index: i });
            }
            let expired = match self.banned_ips[i].expires {
                Some(t) => t <= now,
                None => false,
            };
            if expired {
                warnings.push(ValidationWarning::ExpiredEntry { index: i });
            }
            proof {
                assert(warnings@ =~= before + ip_warnings_at(s, now, i as int));
                assert(warnings@ =~= ip_warnings_upto(s, now, i as int + 1));
            }
            i = i + 1;
        }
        warnings
    }
}

/// Law: purging keeps exactly the entries still in force, each one an entry
/// of the original list.
pub proof fn lemma_purged_ips_membership(s: Seq<BannedIpEntry>, now: i64)
    ensures
        forall|i: int|
            0 <= i < purged_ips(s, now).len() ==> entry_active(
                #[trigger] purged_ips(s, now)[i].expires,
                now,
            ) && s.contains(purged_ips(s, now)[i]),
    decreases s.len(),
{
    if s.len() == 0 {
    } else {
        lemma_purged_ips_membership(s.drop_last(), now);
        assert forall|i: int| 0 <= i < purged_ips(s, now).len() implies entry_active(
            #[trigger] purged_ips(s, now)[i].expires,
            now,
        ) && s.contains(purged_ips(s, now)[i]) by {
            let p = purged_ips(s.drop_last(), now);
            if i < p.len() {
                assert(purged_ips(s, now)[i] == p[i]);
                let e = p[i];
                assert(s.drop_last().contains(e));
                let j = choose|j: int| 0 <= j < s.drop_last().len() && s.drop_last()[j] == e;
                assert(s[j] == e);
            } else {
                assert(purged_ips(s, now)[i] == s.last());
                assert(s[s.len() - 1] == s.last());
            }
        }
    }
}

/// Law: purging an already purged list at the same moment changes nothing,
/// so a lookup right after a purging lookup does not persist again.
pub proof fn lemma_purge_ips_idempotent(s: Seq<BannedIpEntry>, now: i64)
    ensures
        purged_ips(purged_ips(s, now), now) == purged_ips(s, now),
    decreases s.len(),
{
    if s.len() == 0 {
        assert(purged_ips(purged_ips(s, now), now) =~= purged_ips(s, now));
    } else {
        lemma_purge_ips_idempotent(s.drop_last(), now);
        let p = purged_ips(s.drop_last(), now);
        if entry_active(s.last().expires, now) {
            assert(p.push(s.last()).drop_last() =~= p);
            assert(p.push(s.last()).last() == s.last());
        }
    }
}

/// Law: when no entry banning `ip` is still in force at `now`, a lookup
/// after the purge finds nothing.
pub proof fn lemma_expired_ip_gone(s: Seq<BannedIpEntry>, now: i64, ip: IpAddress)
    requires
        forall|i: int| 0 <= i < s.len() && #[trigger] s[i].ip == ip ==> !entry_active(
            s[i].expires,
            now,
        ),
    ensures
        spec_find_ip(purged_ips(s, now), ip) is None,
{
    lemma_purged_ips_membership(s, now);
    let p = purged_ips(s, now);
    assert forall|i: int| 0 <= i < p.len() implies #[trigger] p[i].ip != ip by {
        if p[i].ip == ip {
            let e = p[i];
            let j = choose|j: int| 0 <= j < s.len() && s[j] == e;
            assert(!entry_active(s[j].expires, now));
            assert(entry_active(e.expires, now));
        }
    }
    lemma_find_ip_none(p, ip);
}

// ---------------------------------------------------------------------------
// Banned players
// ---------------------------------------------------------------------------

/// The entries of `s` still in force at `now`, in their original order.
pub open spec fn purged_players(s: Seq<BannedPlayerEntry>, now: i64) -> Seq<BannedPlayerEntry>
    decreases s.len(),
{
    if s.len() == 0 {
        Seq::empty()
    } else {
        let rest = purged_players(s.drop_last(), now);
        if entry_active(s.last().expires, now) {
            rest.push(s.last())
        } else {
            rest
        }
    }
}

/// The first entry of `s` banning the identity `uuid` + `name`, if any.
pub open spec fn spec_find_player(s: Seq<BannedPlayerEntry>, uuid: u128, name: Seq<char>) -> Option<
    BannedPlayerEntry,
>
    decreases s.len(),
{
    if s.len() == 0 {
        None
    } else if s[0].uuid == uuid && s[0].name@ == name {
        Some(s[0])
    } else {
        spec_find_player(s.drop_first(), uuid, name)
    }
}

/// The findings the validation pass reports for entry `i` of a player ban
/// list, in the order it reports them.
pub open spec fn player_warnings_at(s: Seq<BannedPlayerEntry>, now: i64, i: int) -> Seq<
    ValidationWarning,
> {
    (if exists|j: int| 0 <= j < i && s[j].uuid == s[i].uuid {
        seq![ValidationWarning::DuplicateKey { index: i as usize }]
    } else {
        Seq::empty()
    }) + (if exists|j: int| 0 <= j < i && s[j].name@ == s[i].name@ {
        seq![ValidationWarning::DuplicateName { index: i as usize }]
    } else {
        Seq::empty()
    }) + (if spec_uuid_is_nil(s[i].uuid) {
        seq![ValidationWarning::NilUuid { index: i as usize }]
    } else {
        Seq::empty()
    }) + (if s[i].name@.len() == 0 {
        seq![ValidationWarning::EmptyName { index: i as usize }]
    } else {
        Seq::empty()
    }) + (if (match s[i].expires {
        Some(t) => t <= now,
        None => false,
    }) {
        seq![ValidationWarning::ExpiredEntry { index: i as usize }]
    } else {
        Seq::empty()
    })
}

/// The findings for the first `n` entries of a player ban list.
pub open spec fn player_warnings_upto(s: Seq<BannedPlayerEntry>, now: i64, n: int) -> Seq<
    ValidationWarning,
>
    decreases n,
{
    if n <= 0 {
        Seq::empty()
    } else {
        player_warnings_upto(s, now, n - 1) + player_warnings_at(s, now, n - 1)
    }
}

/// Every finding the validation pass reports for a player ban list.
pub open spec fn spec_validate_players(s: Seq<BannedPlayerEntry>, now: i64) -> Seq<
    ValidationWarning,
> {
    player_warnings_upto(s, now, s.len() as int)
}

/// Appends the findings for entry `i` of a player ban list, given the
/// already-computed facts about that entry.
#[verifier::rlimit(100)]
fn push_player_warnings(
    out: &mut Vec<ValidationWarning>,
    i: usize,
    dup_uuid: bool,
    dup_name: bool,
    nil_uuid: bool,
    empty_name: bool,
    expired: bool,
    Ghost(s): Ghost<Seq<BannedPlayerEntry>>,
    Ghost(now): Ghost<i64>,
)
    requires
        i < s.len(),
        dup_uuid == exists|k: int| 0 <= k < i && s[k].uuid == s[i as int].uuid,
        dup_name == exists|k: int| 0 <= k < i && s[k].name@ == s[i as int].name@,
        nil_uuid == spec_uuid_is_nil(s[i as int].uuid),
        empty_name == (s[i as int].name@.len() == 0),
        expired == (match s[i as int].expires {
            Some(t) => t <= now,
            None => false,
        }),
    ensures
        final(out)@ == old(out)@ + player_warnings_at(s, now, i as int),
{
    if dup_uuid {
        out.push(ValidationWarning::DuplicateKey { index: i });
    }
    if dup_name {
        out.push(ValidationWarning::DuplicateName { index: i });
    }
    if nil_uuid {
        out.push(ValidationWarning::NilUuid { index: i });
    }
    if empty_name {
        out.push(ValidationWarning::EmptyName { index: i });
    }
    if expired {
        out.push(ValidationWarning::ExpiredEntry { index: i });
    }
    proof {
        assert(out@ =~= old(out)@ + player_warnings_at(s, now, i as int));
    }
}

/// The persisted list of banned player identities.
#[derive(Debug, PartialEq, Eq)]
pub struct BannedPlayerList {
    /// The entries, in insertion order.
    pub banned_players: Vec<BannedPlayerEntry>,
    /// Whether the in-memory list has diverged from its persisted document
    /// and must be saved.
    pub needs_save: bool,
}

/// The first index at or after which `v` holds an entry banning the given
/// identity.
fn find_player_index(v: &Vec<BannedPlayerEntry>, profile: &GameProfile) -> (r: Option<usize>)
    ensures
        (match r {
            Some(i) => i < v@.len() && spec_find_player(v@, profile.id, profile.name@) == Some(
                v@[i as int],
            ),
            None => spec_find_player(v@, profile.id, profile.name@) is None,
        }),
{
    let mut i: usize = 0;
    proof {
        assert(v@.skip(0) =~= v@);
    }
    while i < v.len()
        invariant
            i <= v@.len(),
            spec_find_player(v@, profile.id, profile.name@) == spec_find_player(
                v@.skip(i as int),
                profile.id,
                profile.name@,
            ),
        decreases v@.len() - i,
    {
        if v[i].uuid == profile.id && v[i].name == profile.name {
            proof {
                assert(v@.skip(i as int)[0] == v@[i as int]);
            }
            return Some(i);
        }
        proof {
            assert(v@.skip(i as int).drop_first() =~= v@.skip(i as int + 1));
            assert(v@.skip(i as int)[0] == v@[i as int]);
        }
        i = i + 1;
    }
    None
}

impl BannedPlayerList {
    /// An empty list, as used when no document exists yet.
    pub fn new() -> (r: Self)
        ensures
            r.banned_players@ == Seq::<BannedPlayerEntry>::empty(),
            r.needs_save == false,
    {
        Self { banned_players: Vec::new(), needs_save: false }
    }

    /// Drops every entry whose expiry lies in the past of `now`; if any was
    /// dropped, marks the list as needing to be persisted.
    fn remove_invalid_entries(&mut self, now: i64)
        ensures
            final(self).banned_players@ == purged_players(old(self).banned_players@, now),
            final(self).needs_save == (old(self).needs_save || purged_players(
                old(self).banned_players@,
                now,
            ).len() != old(self).banned_players@.len()),
    {
        let ghost orig = self.banned_players@;
        let original_len = self.banned_players.len();
        let mut kept: Vec<BannedPlayerEntry> = Vec::new();
        let mut done: usize = 0;
        while self.banned_players.len() > 0
            invariant
                done <= orig.len(),
                original_len == orig.len(),
                self.banned_players@ == orig.skip(done as int),
                kept@ == purged_players(orig.take(done as int), now),
                self.needs_save == old(self).needs_save,
            decreases orig.len() - done,
        {
            let entry = self.banned_players.remove(0);
            proof {
                assert(done < orig.len());
                assert(orig.skip(done as int).remove(0) =~= orig.skip(done as int + 1));
                assert(orig.skip(done as int)[0] == orig[done as int]);
                assert(orig.take(done as int + 1).drop_last() =~= orig.take(done as int));
                assert(orig.take(done as int + 1).last() == orig[done as int]);
            }
            let keep = match entry.expires {
                None => true,
                Some(t) => t >= now,
            };
            if keep {
                kept.push(entry);
            }
            done = done + 1;
        }
        proof {
            assert(orig.take(done as int) =~= orig);
        }
        self.banned_players = kept;
        if original_len != self.banned_players.len() {
            self.needs_save = true;
        }
    }

    /// Looks the identity up at the moment `now`: first purges lapsed
    /// entries (marking the list for saving if any were removed), then
    /// returns the first remaining entry banning exactly this uuid and
    /// name.
    pub fn get_entry_at(&mut self, profile: &GameProfile, now: i64) -> (r: Option<
        &BannedPlayerEntry,
    >)
        ensures
            final(self).banned_players@ == purged_players(old(self).banned_players@, now),
            final(self).needs_save == (old(self).needs_save || purged_players(
                old(self).banned_players@,
                now,
            ).len() != old(self).banned_players@.len()),
            (match r {
                Some(e) => spec_find_player(final(self).banned_players@, profile.id, profile.name@)
                    == Some(*e),
                None => spec_find_player(
                    final(self).banned_players@,
                    profile.id,
                    profile.name@,
                ) is None,
            }),
    {
        self.remove_invalid_entries(now);
        match find_player_index(&self.banned_players, profile) {
            Some(i) => Some(&self.banned_players[i]),
            None => None,
        }
    }

    /// Looks the identity up at the present moment, as read from the wall
    /// clock; the stated relation holds for whatever moment was read.
    pub fn get_entry(&mut self, profile: &GameProfile) -> (r: Option<&BannedPlayerEntry>)
        ensures
            exists|now: i64|
                {
                    &&& final(self).banned_players@ == purged_players(
                        old(self).banned_players@,
                        now,
                    )
                    &&& final(self).needs_save == (old(self).needs_save || purged_players(
                        old(self).banned_players@,
                        now,
                    ).len() != old(self).banned_players@.len())
                    &&& (match r {
                        Some(e) => spec_find_player(
                            final(self).banned_players@,
                            profile.id,
                            profile.name@,
                        ) == Some(*e),
                        None => spec_find_player(
                            final(self).banned_players@,
                            profile.id,
                            profile.name@,
                        ) is None,
                    })
                },
    {
        let now = crate::clock::now_utc();
        self.get_entry_at(profile, now)
    }

    /// Records that the current entries were written to the persisted
    /// document.
    pub fn mark_saved(&mut self)
        ensures
            final(self).banned_players@ == old(self).banned_players@,
            final(self).needs_save == false,
    {
        self.needs_save = false;
    }

    /// The well-known path of this list's persisted document, relative to
    /// the server's working directory.
    pub fn get_path() -> (r: &'static str)
        ensures
            r@ == "banned-players.json"@,
    {
        "banned-players.json"
    }

    /// The advisory validation pass: reports findings in entry order and
    /// never changes the data.
    #[verifier::rlimit(100)]
    #[verifier::spinoff_prover]
    pub fn validate(&self, now: i64) -> (r: Vec<ValidationWarning>)
        ensures
            r@ == spec_validate_players(self.banned_players@, now),
    {
        let ghost s = self.banned_players@;
        let mut warnings: Vec<ValidationWarning> = Vec::new();
        let mut i: usize = 0;
        while i < self.banned_players.len()
            invariant
                s == self.banned_players@,
                i <= s.len(),
                warnings@ == player_warnings_upto(s, now, i as int),
            decreases s.len() - i,
        {
            let mut dup_uuid = false;
            let mut dup_name = false;
            let mut j: usize = 0;
            while j < i
                invariant
                    s == self.banned_players@,
                    j <= i,
                    i < s.len(),
                    dup_uuid == exists|k: int| 0 <= k < j && s[k].uuid == s[i as int].uuid,
                    dup_name == exists|k: int| 0 <= k < j && s[k].name@ == s[i as int].name@,
                decreases i - j,
            {
                if self.banned_players[j].uuid == self.banned_players[i].uuid {
                    dup_uuid = true;
                }
                if self.banned_players[j].name == self.banned_players[i].name {
                    dup_name = true;
                }
                j = j + 1;
            }
            let nil_uuid = self.banned_players[i].uuid == 0;
            let empty_name = self.banned_players[i].name.as_str().unicode_len() == 0;
            let expired = match self.banned_players[i].expires {
                Some(t) => t <= now,
                None => false,
            };
            push_player_warnings(
                &mut warnings,
                i,
                dup_uuid,
                dup_name,
                nil_uuid,
                empty_name,
                expired,
                Ghost(s),
                Ghost(now),
            );
            proof {
                assert(warnings@ =~= player_warnings_upto(s, now, i as int + 1));
            }
            i = i + 1;
        }
        warnings
    }
}

/// Law: purging keeps exactly the entries still in force, each one an entry
/// of the original list.
pub proof fn lemma_purged_players_membership(s: Seq<BannedPlayerEntry>, now: i64)
    ensures
        forall|i: int|
            0 <= i < purged_players(s, now).len() ==> entry_active(
                #[trigger] purged_players(s, now)[i].expires,
                now,
            ) && s.contains(purged_players(s, now)[i]),
    decreases s.len(),
{
    if s.len() == 0 {
    } else {
        lemma_purged_players_membership(s.drop_last(), now);
        assert forall|i: int| 0 <= i < purged_players(s, now).len() implies entry_active(
            #[trigger] purged_players(s, now)[i].expires,
            now,
        ) && s.contains(purged_players(s, now)[i]) by {
            let p = purged_players(s.drop_last(), now);
            if i < p.len() {
                assert(purged_players(s, now)[i] == p[i]);
                let e = p[i];
                assert(s.drop_last().contains(e));
                let j = choose|j: int| 0 <= j < s.drop_last().len() && s.drop_last()[j] == e;
                assert(s[j] == e);
            } else {
                assert(purged_players(s, now)[i] == s.last());
                assert(s[s.len() - 1] == s.last());
            }
        }
    }
}

/// Law: purging an already purged list at the same moment changes nothing,
/// so a lookup right after a purging lookup does not persist again.
pub proof fn lemma_purge_players_idempotent(s: Seq<BannedPlayerEntry>, now: i64)
    ensures
        purged_players(purged_players(s, now), now) == purged_players(s, now),
    decreases s.len(),
{
    if s.len() == 0 {
        assert(purged_players(purged_players(s, now), now) =~= purged_players(s, now));
    } else {
        lemma_purge_players_idempotent(s.drop_last(), now);
        let p = purged_players(s.drop_last(), now);
        if entry_active(s.last().expires, now) {
            assert(p.push(s.last()).drop_last() =~= p);
            assert(p.push(s.last()).last() == s.last());
        }
    }
}

/// Law: when no entry banning the identity is still in force at `now`, a
/// lookup after the purge finds nothing.
pub proof fn lemma_expired_player_gone(s: Seq<BannedPlayerEntry>, now: i64, uuid: u128, name: Seq<char>)
    requires
        forall|i: int|
            0 <= i < s.len() && #[trigger] s[i].uuid == uuid && s[i].name@ == name
                ==> !entry_active(s[i].expires, now),
    ensures
        spec_find_player(purged_players(s, now), uuid, name) is None,
{
    lemma_purged_players_membership(s, now);
    let p = purged_players(s, now);
    assert forall|i: int| 0 <= i < p.len() implies !(#[trigger] p[i].uuid == uuid && p[i].name@
        == name) by {
        if p[i].uuid == uuid && p[i].name@ == name {
            let e = p[i];
            let j = choose|j: int| 0 <= j < s.len() && s[j] == e;
            assert(!entry_active(s[j].expires, now));
            assert(entry_active(e.expires, now));
        }
    }
    lemma_find_player_none(p, uuid, name);
}

/// Law: a list none of whose entries ban the identity yields no entry for
/// it.
pub proof fn lemma_find_player_none(s: Seq<BannedPlayerEntry>, uuid: u128, name: Seq<char>)
    requires
        forall|i: int| 0 <= i < s.len() ==> !(#[trigger] s[i].uuid == uuid && s[i].name@ == name),
    ensures
        spec_find_player(s, uuid, name) is None,
    decreases s.len(),
{
    if s.len() == 0 {
    } else {
        assert(!(s[0].uuid == uuid && s[0].name@ == name));
        assert forall|i: int| 0 <= i < s.drop_first().len() implies !(#[trigger] s.drop_first()[i].uuid
            == uuid && s.drop_first()[i].name@ == name) by {
            assert(s.drop_first()[i] == s[i + 1]);
        }
        lemma_find_player_none(s.drop_first(), uuid, name);
    }
}

// ---------------------------------------------------------------------------
// Operators
// ---------------------------------------------------------------------------

/// The first grant in `s` for the operator `uuid`, if any.
pub open spec fn spec_find_op(s: Seq<Op>, uuid: u128) -> Option<Op>
    decreases s.len(),
{
    if s.len() == 0 {
        None
    } else if s[0].uuid == uuid {
        Some(s[0])
    } else {
        spec_find_op(s.drop_first(), uuid)
    }
}

/// The findings the validation pass reports for entry `i` of the operator
/// list, in the order it reports them.
pub open spec fn op_warnings_at(s: Seq<Op>, i: int) -> Seq<ValidationWarning> {
    (if exists|j: int| 0 <= j < i && s[j].uuid == s[i].uuid {
        seq![ValidationWarning::DuplicateKey { index: i as usize }]
    } else {
        Seq::empty()
    }) + (if exists|j: int| 0 <= j < i && s[j].name@ == s[i].name@ {
        seq![ValidationWarning::DuplicateName { index: i as usize }]
    } else {
        Seq::empty()
    }) + (if spec_uuid_is_nil(s[i].uuid) {
        seq![ValidationWarning::NilUuid { index: i as usize }]
    } else {
        Seq::empty()
    }) + (if s[i].name@.len() == 0 {
        seq![ValidationWarning::EmptyName { index: i as usize }]
    } else {
        Seq::empty()
    })
}

/// The findings for the first `n` entries of the operator list.
pub open spec fn op_warnings_upto(s: Seq<Op>, n: int) -> Seq<ValidationWarning>
    decreases n,
{
    if n <= 0 {
        Seq::empty()
    } else {
        op_warnings_upto(s, n - 1) + op_warnings_at(s, n - 1)
    }
}

/// Every finding the validation pass reports for the operator list.
pub open spec fn spec_validate_ops(s: Seq<Op>) -> Seq<ValidationWarning> {
    op_warnings_upto(s, s.len() as int)
}

/// The persisted list of operator grants. Grants never expire, so lookups
/// never mutate.
#[derive(Debug, PartialEq, Eq)]
pub struct OperatorConfig {
    /// The grants, in insertion order.
    pub ops: Vec<Op>,
}

impl OperatorConfig {
    /// An empty list, as used when no document exists yet.
    pub fn new() -> (r: Self)
        ensures
            r.ops@ == Seq::<Op>::empty(),
    {
        Self { ops: Vec::new() }
    }

    /// The well-known path of this list's persisted document, relative to
    /// the server's working directory.
    pub fn get_path() -> (r: &'static str)
        ensures
            r@ == "ops.json"@,
    {
        "ops.json"
    }

    /// The first grant for `uuid`, if any; a direct keyed lookup with no
    /// expiry concept.
    pub fn get_entry(&self, uuid: u128) -> (r: Option<&Op>)
        ensures
            (match r {
                Some(e) => spec_find_op(self.ops@, uuid) == Some(*e),
                None => spec_find_op(self.ops@, uuid) is None,
            }),
    {
        let ghost s = self.ops@;
        let mut i: usize = 0;
        proof {
            assert(s.skip(0) =~= s);
        }
        while i < self.ops.len()
            invariant
                s == self.ops@,
                i <= s.len(),
                spec_find_op(s, uuid) == spec_find_op(s.skip(i as int), uuid),
            decreases s.len() - i,
        {
            if self.ops[i].uuid == uuid {
                proof {
                    assert(s.skip(i as int)[0] == s[i as int]);
                }
                return Some(&self.ops[i]);
            }
            proof {
                assert(s.skip(i as int).drop_first() =~= s.skip(i as int + 1));
                assert(s.skip(i as int)[0] == s[i as int]);
            }
            i = i + 1;
        }
        None
    }

    /// The advisory validation pass: reports findings in entry order and
    /// never changes the data.
    #[verifier::rlimit(100)]
    pub fn validate(&self) -> (r: Vec<ValidationWarning>)
        ensures
            r@ == spec_validate_ops(self.ops@),
    {
        let ghost s = self.ops@;
        let mut warnings: Vec<ValidationWarning> = Vec::new();
        let mut i: usize = 0;
        while i < self.ops.len()
            invariant
                s == self.ops@,
                i <= s.len(),
                warnings@ == op_warnings_upto(s, i as int),
            decreases s.len() - i,
        {
            let mut dup_uuid = false;
            let mut dup_name = false;
            let mut j: usize = 0;
            while j < i
                invariant
                    s == self.ops@,
                    j <= i,
                    i < s.len(),
                    dup_uuid == exists|k: int| 0 <= k < j && s[k].uuid == s[i as int].uuid,
                    dup_name == exists|k: int| 0 <= k < j && s[k].name@ == s[i as int].name@,
                decreases i - j,
            {
                if self.ops[j].uuid == self.ops[i].uuid {
                    dup_uuid = true;
                }
                if self.ops[j].name == self.ops[i].name {
                    dup_name = true;
                }
                j = j + 1;
            }
            let ghost before = warnings@;
            if dup_uuid {
                warnings.push(ValidationWarning::DuplicateKey { index: i });
            }
            if dup_name {
                warnings.push(ValidationWarning::DuplicateName { index: i });
            }
            if self.ops[i].uuid == 0 {
                warnings.push(ValidationWarning::NilUuid { index: i });
            }
            if self.ops[i].name.as_str().unicode_len() == 0 {
                warnings.push(ValidationWarning::EmptyName { index: i });
            }
            proof {
                assert(warnings@ =~= before + op_warnings_at(s, i as int));
                assert(warnings@ =~= op_warnings_upto(s, i as int + 1));
            }
            i = i + 1;
        }
        warnings
    }
}

impl Default for OperatorConfig {
    /// The empty list.
    fn default() -> (r: Self)
        ensures
            r.ops@ == Seq::<Op>::empty(),
    {
        Self::new()
    }
}

/// Law: a list none of whose entries ban `ip` yields no entry for `ip`.
pub proof fn lemma_find_ip_none(s: Seq<BannedIpEntry>, ip: IpAddress)
    requires
        forall|i: int| 0 <= i < s.len() ==> #[trigger] s[i].ip != ip,
    ensures
        spec_find_ip(s, ip) is None,
    decreases s.len(),
{
    if s.len() == 0 {
    } else {
        assert(s[0].ip != ip);
        assert forall|i: int| 0 <= i < s.drop_first().len() implies #[trigger] s.drop_first()[i].ip
            != ip by {
            assert(s.drop_first()[i] == s[i + 1]);
        }
        lemma_find_ip_none(s.drop_first(), ip);
    }
}

} // verus!
