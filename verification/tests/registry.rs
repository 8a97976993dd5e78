use pumpkin_core::machine::ConnectionError;
use pumpkin_core::particle::{Particle, ParticleType};
use pumpkin_core::session_registry::SessionRegistry;

#[test]
fn of_two_logins_for_one_identity_exactly_one_succeeds() {
    let mut reg = SessionRegistry::new();
    let first = reg.insert(99, 1);
    let second = reg.insert(99, 2);
    assert!(first.is_ok());
    assert_eq!(second.unwrap_err(), ConnectionError::DuplicateLogin);
    assert_eq!(reg.lookup(99), Some(1));
}

#[test]
fn remove_is_idempotent() {
    let mut reg = SessionRegistry::new();
    reg.insert(5, 10).unwrap();
    reg.remove(5);
    assert_eq!(reg.lookup(5), None);
    // Removing an absent identity is a no-op, not an error.
    reg.remove(5);
    assert_eq!(reg.lookup(5), None);
    // The identity can log in again afterwards.
    assert!(reg.insert(5, 11).is_ok());
    assert_eq!(reg.lookup(5), Some(11));
}

#[test]
fn lookup_finds_only_recorded_identities() {
    let mut reg = SessionRegistry::new();
    reg.insert(1, 100).unwrap();
    reg.insert(2, 200).unwrap();
    assert_eq!(reg.lookup(1), Some(100));
    assert_eq!(reg.lookup(2), Some(200));
    assert_eq!(reg.lookup(3), None);
}

#[test]
fn particle_carries_its_type() {
    let p = Particle::new(ParticleType::Flame);
    assert_eq!(p.get_type(), ParticleType::Flame);
    let p = Particle::new(ParticleType::Heart);
    assert_eq!(p.get_type(), ParticleType::Heart);
}
