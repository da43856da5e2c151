use oid_registry::{format_oid, format_with, Oid, OidEntry, OidRegistry};

fn oid_of(arcs: &[u64]) -> Oid {
    let outside = asn1_rs::Oid::from(arcs).unwrap();
    Oid::new(outside.as_bytes().to_vec())
}

fn add_entry(input: &str, oid: Oid, registry: &mut OidRegistry) {
    // insertion of an owned string
    let s = String::from(input);
    let entry = OidEntry::new("test", &s);
    registry.insert(oid, entry);
}

#[test]
fn test_lifetimes() {
    let mut registry = OidRegistry::default();
    add_entry("a", oid_of(&[1, 2, 3, 4]), &mut registry);
    add_entry("b", oid_of(&[1, 2, 3, 5]), &mut registry);

    // insertion of owned data
    let e = OidEntry::new("c", "test_c");
    registry.insert(oid_of(&[1, 2, 4, 1]), e);

    registry.insert(oid_of(&[1, 2, 5, 1]), ("a", "b").into());

    assert_eq!(registry.keys().len(), 4);
    assert_eq!(registry.get(&oid_of(&[1, 2, 3, 4])).unwrap().description(), "a");
    assert_eq!(registry.get(&oid_of(&[1, 2, 3, 5])).unwrap().description(), "b");
    assert_eq!(registry.get(&oid_of(&[1, 2, 4, 1])).unwrap().sn(), "c");
    assert_eq!(registry.get(&oid_of(&[1, 2, 4, 1])).unwrap().description(), "test_c");
    assert_eq!(registry.get(&oid_of(&[1, 2, 5, 1])).unwrap().sn(), "a");
    assert_eq!(registry.get(&oid_of(&[1, 2, 5, 1])).unwrap().description(), "b");
}

#[test]
fn entry_keeps_its_texts() {
    let entry = OidEntry::new("shortName", "A description");
    assert_eq!(entry.sn(), "shortName");
    assert_eq!(entry.description(), "A description");
    let empty = OidEntry::new("", "");
    assert_eq!(empty.sn(), "");
    assert_eq!(empty.description(), "");
}

#[test]
fn entry_from_a_pair() {
    let entry = OidEntry::from(("shortName", "A description"));
    assert_eq!(entry.sn(), "shortName");
    assert_eq!(entry.description(), "A description");
}

#[test]
fn default_registry_is_empty() {
    let registry = OidRegistry::default();
    assert!(registry.get(&oid_of(&[1, 2, 3, 4])).is_none());
    assert!(registry.keys().is_empty());
    assert!(registry.values().is_empty());
    assert!(registry.iter().is_empty());
}

#[test]
fn insert_then_get() {
    let mut registry = OidRegistry::default();
    let previous = registry.insert(oid_of(&[1, 2, 3, 4]), OidEntry::new("foo", "Foo algorithm"));
    assert!(previous.is_none());
    let found = registry.get(&oid_of(&[1, 2, 3, 4])).unwrap();
    assert_eq!(found.sn(), "foo");
    assert_eq!(found.description(), "Foo algorithm");
    assert!(registry.get(&oid_of(&[1, 2, 3, 5])).is_none());
}

#[test]
fn last_write_wins() {
    let mut registry = OidRegistry::default();
    registry.insert(oid_of(&[1, 2, 3, 4]), OidEntry::new("first", "The first"));
    registry.insert(oid_of(&[1, 2, 3, 5]), OidEntry::new("other", "Another"));
    let previous = registry.insert(oid_of(&[1, 2, 3, 4]), OidEntry::new("second", "The second"));
    let previous = previous.unwrap();
    assert_eq!(previous.sn(), "first");
    assert_eq!(previous.description(), "The first");
    let found = registry.get(&oid_of(&[1, 2, 3, 4])).unwrap();
    assert_eq!(found.sn(), "second");
    assert_eq!(found.description(), "The second");
    let other = registry.get(&oid_of(&[1, 2, 3, 5])).unwrap();
    assert_eq!(other.sn(), "other");
    assert_eq!(registry.keys().len(), 2);
}

#[test]
fn absolute_and_relative_are_different_keys() {
    let mut registry = OidRegistry::default();
    registry.insert(Oid::new(vec![0x2a, 0x03]), OidEntry::new("absolute", ""));
    let previous = registry.insert(Oid::new_relative(vec![0x2a, 0x03]), OidEntry::new("relative", ""));
    assert!(previous.is_none());
    assert_eq!(registry.get(&Oid::new(vec![0x2a, 0x03])).unwrap().sn(), "absolute");
    assert_eq!(registry.get(&Oid::new_relative(vec![0x2a, 0x03])).unwrap().sn(), "relative");
}

#[test]
fn keys_values_and_pairs_agree() {
    let mut registry = OidRegistry::default();
    registry.insert(oid_of(&[1, 2, 3, 4]), OidEntry::new("a", "A"));
    registry.insert(oid_of(&[1, 2, 3, 5]), OidEntry::new("b", "B"));
    registry.insert(oid_of(&[1, 2, 3, 4]), OidEntry::new("c", "C"));
    let keys = registry.keys();
    let values = registry.values();
    let pairs = registry.iter();
    assert_eq!(keys.len(), 2);
    assert_eq!(values.len(), 2);
    assert_eq!(pairs.len(), 2);
    assert!(keys[0] != keys[1]);
    for i in 0..2 {
        assert!(pairs[i].0 == keys[i]);
        assert_eq!(pairs[i].1.sn(), values[i].sn());
        assert_eq!(registry.get(keys[i]).unwrap().sn(), values[i].sn());
    }
    let mut names: Vec<&str> = values.iter().map(|e| e.sn()).collect();
    names.sort();
    assert_eq!(names, vec!["b", "c"]);
}

#[test]
fn oid_holds_its_encoding() {
    let oid = oid_of(&[1, 2, 840, 113549, 1, 1, 5]);
    assert_eq!(oid.as_bytes(), &[0x2a, 0x86, 0x48, 0x86, 0xf7, 0x0d, 0x01, 0x01, 0x05]);
    assert!(!oid.is_relative());
    let relative = Oid::new_relative(vec![0x03, 0x04]);
    assert_eq!(relative.as_bytes(), &[0x03, 0x04]);
    assert!(relative.is_relative());
    assert!(oid == oid.clone());
    assert!(oid != relative);
    assert!(Oid::new(vec![0x03, 0x04]) != relative);
    assert!(Oid::new(vec![0x03, 0x04]) != Oid::new(vec![0x03]));
}

#[test]
fn oid_text_is_dotted() {
    assert_eq!(oid_of(&[1, 2, 3, 4]).to_id_text(), "1.2.3.4");
    assert_eq!(oid_of(&[1, 2, 840, 113549, 1, 1, 5]).to_id_text(), "1.2.840.113549.1.1.5");
    assert_eq!(Oid::new_relative(vec![0x03, 0x04]).to_id_text(), "rel. 3.4");
    assert_eq!(Oid::new(Vec::new()).to_id_text(), "");
}

#[test]
fn oid_text_is_that_of_the_outside_type() {
    let outside = der_parser::oid::Oid::from(&[2, 5, 29, 54]).unwrap();
    let oid = Oid::new(outside.as_bytes().to_vec());
    assert_eq!(oid.to_id_text(), outside.to_string());
    let outside = der_parser::oid::Oid::from_relative(&[840, 113549]).unwrap();
    let oid = Oid::new_relative(outside.as_bytes().to_vec());
    assert_eq!(oid.to_id_text(), outside.to_string());
}

#[test]
fn format_oid_present_and_absent() {
    let mut registry = OidRegistry::default();
    registry.insert(oid_of(&[1, 2, 3, 4]), OidEntry::new("foo", "Foo algorithm"));
    assert_eq!(format_oid(&oid_of(&[1, 2, 3, 4]), &registry), "foo (1.2.3.4)");
    assert_eq!(format_oid(&oid_of(&[1, 2, 3, 5]), &registry), "1.2.3.5");
    let empty = OidRegistry::default();
    assert_eq!(format_oid(&oid_of(&[1, 2, 3, 4]), &empty), "1.2.3.4");
}

#[test]
fn format_with_an_entry_or_none() {
    let entry = OidEntry::new("foo", "Foo algorithm");
    assert_eq!(format_with(Some(&entry), "1.2.3.4"), "foo (1.2.3.4)");
    assert_eq!(format_with(None, "1.2.3.4"), "1.2.3.4");
    let unnamed = OidEntry::new("", "");
    assert_eq!(format_with(Some(&unnamed), ""), " ()");
}
