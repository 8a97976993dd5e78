use pumpkin_core::machine::ConnectionError;
use pumpkin_core::moderation::{
    BannedIpEntry, BannedIpList, BannedPlayerEntry, BannedPlayerList, Op, OperatorConfig,
};
use pumpkin_core::net::IpAddress;

#[test]
fn ip_list_round_trips_with_all_field_shapes() {
    let list = BannedIpList {
        banned_ips: vec![
            BannedIpEntry {
                ip: IpAddress::V4(0xCB007105),
                reason: Some(String::from("spam: and; odd 4:characters")),
                expires: Some(-3),
                source: String::from("console"),
            },
            BannedIpEntry {
                ip: IpAddress::V6(1),
                reason: None,
                expires: None,
                source: String::from(""),
            },
        ],
        needs_save: true,
    };
    let doc = list.to_document();
    let loaded = BannedIpList::from_document(doc.as_str()).expect("own document parses");
    assert_eq!(loaded.banned_ips, list.banned_ips);
    assert!(!loaded.needs_save);
}

#[test]
fn player_list_round_trips_including_absent_optionals() {
    let list = BannedPlayerList {
        banned_players: vec![
            BannedPlayerEntry {
                uuid: 0,
                name: String::from("Steve"),
                reason: None,
                expires: None,
                source: String::from("console"),
            },
            BannedPlayerEntry {
                uuid: u128::MAX,
                name: String::from("Ünïcode näme"),
                reason: Some(String::from("")),
                expires: Some(1700000000),
                source: String::from("an admin"),
            },
        ],
        needs_save: false,
    };
    let doc = list.to_document();
    let loaded = BannedPlayerList::from_document(doc.as_str()).expect("own document parses");
    assert_eq!(loaded.banned_players, list.banned_players);
}

#[test]
fn op_list_round_trips() {
    let list = OperatorConfig {
        ops: vec![
            Op {
                uuid: 7,
                name: String::from("admin"),
                permission_level: 4,
                bypasses_player_limit: true,
            },
            Op {
                uuid: 8,
                name: String::from("mod"),
                permission_level: 1,
                bypasses_player_limit: false,
            },
        ],
    };
    let doc = list.to_document();
    let loaded = OperatorConfig::from_document(doc.as_str()).expect("own document parses");
    assert_eq!(loaded.ops, list.ops);
}

#[test]
fn empty_array_loads_as_empty_list() {
    let loaded = BannedIpList::from_document("[]").expect("empty array parses");
    assert!(loaded.banned_ips.is_empty());
    let loaded = BannedIpList::from_document(" [ ] ").expect("whitespace is tolerated");
    assert!(loaded.banned_ips.is_empty());
    let loaded = BannedIpList::load(None).expect("absent file is an empty list");
    assert!(loaded.banned_ips.is_empty());
    // An empty file is not a document at all.
    assert!(BannedIpList::from_document("").is_err());
}

#[test]
fn malformed_document_is_a_persistence_failure() {
    let r = BannedIpList::from_document("this is not a ban list");
    assert_eq!(r.unwrap_err(), ConnectionError::PersistenceFailure);
    let r = BannedPlayerList::from_document("5");
    assert_eq!(r.unwrap_err(), ConnectionError::PersistenceFailure);
    let r = OperatorConfig::from_document("9;");
    assert_eq!(r.unwrap_err(), ConnectionError::PersistenceFailure);
}
