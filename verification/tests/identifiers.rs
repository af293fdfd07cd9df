use willekeurig::identifier::{Identifier, IdentifierError};

#[test]
fn from_str_splits_at_the_colon() {
    let id = Identifier::from_str("willekeurig:grass_block").unwrap();
    assert_eq!(id.get_namespace(), "willekeurig");
    assert_eq!(id.get_name(), "grass_block");
    assert_eq!(id.as_string(), "willekeurig:grass_block");
}

#[test]
fn from_takes_an_owned_string() {
    let id = Identifier::from(String::from("a.b:c-d_9")).unwrap();
    assert_eq!(id.get_namespace(), "a.b");
    assert_eq!(id.get_name(), "c-d_9");
}

#[test]
fn from_str_accepts_empty_parts() {
    let id = Identifier::from_str(":").unwrap();
    assert_eq!(id.get_namespace(), "");
    assert_eq!(id.get_name(), "");
    assert_eq!(id.as_string(), ":");
}

#[test]
fn from_str_rejects_a_text_without_colon() {
    assert_eq!(
        Identifier::from_str("stone").err(),
        Some(IdentifierError::ColonCount { colons: 0 })
    );
    assert_eq!(Identifier::from_str("").err(), Some(IdentifierError::ColonCount { colons: 0 }));
}

#[test]
fn from_str_rejects_a_second_colon() {
    assert_eq!(
        Identifier::from_str("a:b:c").err(),
        Some(IdentifierError::ColonCount { colons: 2 })
    );
    assert_eq!(
        Identifier::from_str("::::").err(),
        Some(IdentifierError::ColonCount { colons: 4 })
    );
}

#[test]
fn from_str_rejects_invalid_characters() {
    assert_eq!(Identifier::from_str("Mod:stone").err(), Some(IdentifierError::InvalidNamespace));
    assert_eq!(Identifier::from_str("mod:Stone").err(), Some(IdentifierError::InvalidName));
    assert_eq!(Identifier::from_str("mod:sto ne").err(), Some(IdentifierError::InvalidName));
    assert_eq!(
        Identifier::from_str("m\u{e9}:stone").err(),
        Some(IdentifierError::InvalidNamespace)
    );
    assert_eq!(Identifier::from_str("Mod:Stone").err(), Some(IdentifierError::InvalidNamespace));
}

#[test]
fn new_does_not_validate_but_validate_does() {
    let id = Identifier::new("Bad Space", "fine");
    assert_eq!(id.validate(), Err(IdentifierError::InvalidNamespace));
    let id = Identifier::new("fine", "bad:name");
    assert_eq!(id.validate(), Err(IdentifierError::InvalidName));
    let id = Identifier::new("fine", "also.fine-0_9");
    assert_eq!(id.validate(), Ok(()));
}

#[test]
fn matches_compares_both_parts() {
    let a = Identifier::new("willekeurig", "stone");
    let b = Identifier::from_str("willekeurig:stone").unwrap();
    let c = Identifier::new("willekeurig", "dirt");
    let d = Identifier::new("other", "stone");
    assert!(a.matches(&b));
    assert!(!a.matches(&c));
    assert!(!a.matches(&d));
    assert!(a.matches(&a.clone()));
}

#[test]
fn as_string_is_read_back_by_from_str() {
    let id = Identifier::new("abc.def", "x_y-z.0");
    let again = Identifier::from_str(&id.as_string()).unwrap();
    assert!(id.matches(&again));
}
