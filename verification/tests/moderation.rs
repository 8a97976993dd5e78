use pumpkin_core::moderation::{
    BannedIpEntry, BannedIpList, BannedPlayerEntry, BannedPlayerList, Op, OperatorConfig,
    ValidationWarning,
};
use pumpkin_core::net::{GameProfile, IpAddress};

fn ip(a: u8, b: u8, c: u8, d: u8) -> IpAddress {
    IpAddress::V4(
        ((a as u32) << 24) | ((b as u32) << 16) | ((c as u32) << 8) | (d as u32),
    )
}

#[test]
fn expired_entry_is_purged_and_persisted_exactly_once() {
    let mut list = BannedIpList {
        banned_ips: vec![
            BannedIpEntry {
                ip: ip(10, 0, 0, 1),
                reason: Some(String::from("lapsed")),
                expires: Some(100),
                source: String::from("console"),
            },
            BannedIpEntry {
                ip: ip(10, 0, 0, 2),
                reason: None,
                expires: None,
                source: String::from("console"),
            },
        ],
        needs_save: false,
    };
    // At time 200 the first entry has lapsed: the lookup removes it and
    // marks the list for saving.
    let hit = list.get_entry_at(&ip(10, 0, 0, 1), 200);
    assert!(hit.is_none());
    assert_eq!(list.banned_ips.len(), 1);
    assert!(list.needs_save);
    list.mark_saved();
    // A second lookup for the same key finds nothing more to purge and
    // does not ask to persist again.
    let hit = list.get_entry_at(&ip(10, 0, 0, 1), 200);
    assert!(hit.is_none());
    assert!(!list.needs_save);
    // The permanent entry is still found.
    assert!(list.get_entry_at(&ip(10, 0, 0, 2), 200).is_some());
}

#[test]
fn entry_active_at_its_exact_expiry_moment() {
    let mut list = BannedIpList {
        banned_ips: vec![BannedIpEntry {
            ip: ip(10, 0, 0, 3),
            reason: None,
            expires: Some(500),
            source: String::from("console"),
        }],
        needs_save: false,
    };
    assert!(list.get_entry_at(&ip(10, 0, 0, 3), 500).is_some());
    assert!(list.get_entry_at(&ip(10, 0, 0, 3), 501).is_none());
}

#[test]
fn ip_validate_reports_duplicates_unspecified_loopback_expired() {
    let list = BannedIpList {
        banned_ips: vec![
            BannedIpEntry {
                ip: ip(0, 0, 0, 0),
                reason: None,
                expires: None,
                source: String::from("a"),
            },
            BannedIpEntry {
                ip: ip(127, 0, 0, 1),
                reason: None,
                expires: Some(5),
                source: String::from("b"),
            },
            BannedIpEntry {
                ip: ip(0, 0, 0, 0),
                reason: None,
                expires: None,
                source: String::from("c"),
            },
        ],
        needs_save: false,
    };
    let warnings = list.validate(100);
    assert_eq!(
        warnings,
        vec![
            ValidationWarning::UnspecifiedIp { index: 0 },
            ValidationWarning::LoopbackIp { index: 1 },
            ValidationWarning::ExpiredEntry { index: 1 },
            ValidationWarning::DuplicateKey { index: 2 },
            ValidationWarning::UnspecifiedIp { index: 2 },
        ],
    );
    // The pass never changes the data.
    assert_eq!(list.banned_ips.len(), 3);
}

#[test]
fn nil_uuid_is_flagged_but_entry_stays_enforceable() {
    let mut list = BannedPlayerList {
        banned_players: vec![BannedPlayerEntry {
            uuid: 0,
            name: String::from("Steve"),
            reason: Some(String::from("griefing")),
            expires: None,
            source: String::from("console"),
        }],
        needs_save: false,
    };
    let warnings = list.validate(100);
    assert!(warnings.contains(&ValidationWarning::NilUuid { index: 0 }));
    // The entry remains loaded and still matches the identity at login.
    assert_eq!(list.banned_players.len(), 1);
    let profile = GameProfile { id: 0, name: String::from("Steve") };
    let hit = list.get_entry_at(&profile, 100);
    assert!(hit.is_some());
    assert_eq!(hit.unwrap().reason.as_deref(), Some("griefing"));
}

#[test]
fn player_ban_matches_uuid_and_name_together() {
    let mut list = BannedPlayerList {
        banned_players: vec![BannedPlayerEntry {
            uuid: 42,
            name: String::from("Alex"),
            reason: None,
            expires: None,
            source: String::from("console"),
        }],
        needs_save: false,
    };
    let same = GameProfile { id: 42, name: String::from("Alex") };
    let other_name = GameProfile { id: 42, name: String::from("Alexa") };
    let other_id = GameProfile { id: 43, name: String::from("Alex") };
    assert!(list.get_entry_at(&same, 0).is_some());
    assert!(list.get_entry_at(&other_name, 0).is_none());
    assert!(list.get_entry_at(&other_id, 0).is_none());
}

#[test]
fn operator_lookup_and_validate() {
    let ops = OperatorConfig {
        ops: vec![
            Op {
                uuid: 7,
                name: String::from("admin"),
                permission_level: 4,
                bypasses_player_limit: true,
            },
            Op {
                uuid: 7,
                name: String::from("admin"),
                permission_level: 2,
                bypasses_player_limit: false,
            },
        ],
    };
    let found = ops.get_entry(7).expect("operator exists");
    // The first grant wins a duplicate-key lookup.
    assert_eq!(found.permission_level, 4);
    assert!(ops.get_entry(8).is_none());
    let warnings = ops.validate();
    assert_eq!(
        warnings,
        vec![
            ValidationWarning::DuplicateKey { index: 1 },
            ValidationWarning::DuplicateName { index: 1 },
        ],
    );
}
