//! The per-client admission control.

use cepo::client::{Client, UsageControl};

#[test]
fn usage_ceiling_refuses_the_eleventh_request() {
    let mut registre: Vec<Client> = Vec::new();
    let adresse = String::from("192.0.2.7");
    for _ in 0..10 {
        assert!(registre.increase_usage(&adresse));
    }
    assert!(!registre.increase_usage(&adresse));
    assert_eq!(registre.len(), 1);
    assert_eq!(registre[0].requetes_en_cours, 10);
}

#[test]
fn usage_recovers_after_a_decrease() {
    let mut registre: Vec<Client> = Vec::new();
    let adresse = String::from("192.0.2.7");
    for _ in 0..10 {
        assert!(registre.increase_usage(&adresse));
    }
    assert!(!registre.increase_usage(&adresse));
    registre.decrease_usage(&adresse);
    assert!(registre.increase_usage(&adresse));
}

#[test]
fn usage_entry_removed_at_zero() {
    let mut registre: Vec<Client> = Vec::new();
    let adresse = String::from("192.0.2.7");
    assert!(registre.increase_usage(&adresse));
    assert_eq!(registre.len(), 1);
    registre.decrease_usage(&adresse);
    assert!(registre.is_empty());
    // a decrease with no entry is a no-op
    registre.decrease_usage(&adresse);
    assert!(registre.is_empty());
}

#[test]
fn usage_counts_addresses_independently() {
    let mut registre: Vec<Client> = Vec::new();
    let a = String::from("192.0.2.7");
    let b = String::from("198.51.100.2");
    for _ in 0..10 {
        assert!(registre.increase_usage(&a));
    }
    assert!(!registre.increase_usage(&a));
    assert!(registre.increase_usage(&b));
    assert_eq!(registre.len(), 2);
    assert_eq!(registre[0].requetes_en_cours, 10);
    assert_eq!(registre[1].requetes_en_cours, 1);
}
