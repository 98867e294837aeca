use civil_protection::{CivilProtection, Config, ConfigStore, Error, Identity, LookupField, TransportConfig};

fn person(name: &str, email: &str) -> Identity {
    Identity { name: name.to_string(), email: email.to_string() }
}

fn fresh() -> CivilProtection {
    let mut cp = CivilProtection::new(ConfigStore::absent());
    cp.create_config_sendmail(person("Alice", "alice@example.com")).unwrap();
    cp
}

#[test]
fn setup_add_find_remove_scenario() {
    let mut cp = CivilProtection::new(ConfigStore::absent());
    assert!(!cp.does_config_exist());
    assert_eq!(cp.create_config_sendmail(person("Alice", "alice@example.com")), Ok(()));
    assert!(cp.does_config_exist());
    assert_eq!(cp.add_squadmate(person("Bob", "bob@example.com")), Ok(()));
    let found = cp.find_squadmate_by_name("Bob").unwrap();
    assert_eq!(found, Some(person("Bob", "bob@example.com")));
    assert_eq!(cp.rm_squadmate(&found.unwrap()), Ok(()));
    assert_eq!(cp.find_squadmate_by_email("bob@example.com"), Ok(None));
}

#[test]
fn second_add_with_same_email_fails() {
    let mut cp = fresh();
    assert_eq!(cp.add_squadmate(person("First", "dup@example.com")), Ok(()));
    assert_eq!(
        cp.add_squadmate(person("Second", "dup@example.com")),
        Err(Error::DuplicateSquadmate)
    );
    let config = cp.config().unwrap();
    assert_eq!(config.squadmates.len(), 1);
    assert_eq!(config.squadmates[0], person("First", "dup@example.com"));
}

#[test]
fn added_squadmate_is_found_by_email() {
    let mut cp = fresh();
    for (name, email) in [("Bob", "bob@example.com"), ("Carol", "carol@example.org"), ("Dan", "dan")] {
        assert_eq!(cp.add_squadmate(person(name, email)), Ok(()));
        assert_eq!(cp.find_squadmate_by_email(email), Ok(Some(person(name, email))));
    }
    assert_eq!(cp.config().unwrap().squadmates.len(), 3);
}

#[test]
fn duplicate_add_leaves_store_unchanged() {
    let mut cp = fresh();
    cp.add_squadmate(person("Bob", "bob@example.com")).unwrap();
    let before = cp.store().contents.clone();
    assert_eq!(cp.add_squadmate(person("Robert", "bob@example.com")), Err(Error::DuplicateSquadmate));
    assert_eq!(cp.store().contents, before);
    assert_eq!(cp.find_squadmate_by_email("bob@example.com"), Ok(Some(person("Bob", "bob@example.com"))));
}

#[test]
fn removed_squadmate_is_not_found() {
    let mut cp = fresh();
    cp.add_squadmate(person("Bob", "bob@example.com")).unwrap();
    cp.add_squadmate(person("Carol", "carol@example.com")).unwrap();
    cp.add_squadmate(person("Dan", "dan@example.com")).unwrap();
    assert_eq!(cp.rm_squadmate(&person("whoever", "carol@example.com")), Ok(()));
    assert_eq!(cp.find_squadmate_by_email("carol@example.com"), Ok(None));
    let left = cp.config().unwrap().squadmates;
    assert_eq!(left, vec![person("Bob", "bob@example.com"), person("Dan", "dan@example.com")]);
}

#[test]
fn removing_absent_squadmate_fails_and_changes_nothing() {
    let mut cp = fresh();
    cp.add_squadmate(person("Bob", "bob@example.com")).unwrap();
    let before = cp.store().contents.clone();
    let absent = person("Bob", "bob@example.org");
    assert_eq!(cp.rm_squadmate(&absent), Err(Error::NotFound));
    assert_eq!(cp.rm_squadmate(&absent), Err(Error::NotFound));
    assert_eq!(cp.store().contents, before);
    assert_eq!(cp.config().unwrap().squadmates, vec![person("Bob", "bob@example.com")]);
}

#[test]
fn lookup_by_name_takes_the_first_match() {
    let mut cp = fresh();
    cp.add_squadmate(person("Sam", "sam.one@example.com")).unwrap();
    cp.add_squadmate(person("Sam", "sam.two@example.com")).unwrap();
    assert_eq!(cp.find_squadmate_by_name("Sam"), Ok(Some(person("Sam", "sam.one@example.com"))));
    assert_eq!(cp.find_squadmate_by_name("sam"), Ok(None));
    assert_eq!(
        cp.find_squadmate(LookupField::Email, "sam.two@example.com"),
        Ok(Some(person("Sam", "sam.two@example.com")))
    );
    assert_eq!(
        cp.find_squadmate(LookupField::Name, "Sam"),
        Ok(Some(person("Sam", "sam.one@example.com")))
    );
    assert_eq!(cp.find_squadmate(LookupField::Name, "sam.one@example.com"), Ok(None));
}

#[test]
fn lookup_by_email_is_exact() {
    let mut cp = fresh();
    cp.add_squadmate(person("Bob", "bob@example.com")).unwrap();
    assert_eq!(cp.find_squadmate_by_email("Bob@example.com"), Ok(None));
    assert_eq!(cp.find_squadmate_by_email("bob@example.com "), Ok(None));
    assert_eq!(cp.add_squadmate(person("Bobby", "Bob@example.com")), Ok(()));
}

#[test]
fn squadmate_operations_need_a_configuration() {
    let mut cp = CivilProtection::new(ConfigStore::absent());
    assert_eq!(cp.add_squadmate(person("Bob", "bob@example.com")), Err(Error::NotConfigured));
    assert_eq!(cp.rm_squadmate(&person("Bob", "bob@example.com")), Err(Error::NotConfigured));
    assert_eq!(cp.find_squadmate_by_name("Bob"), Err(Error::NotConfigured));
    assert_eq!(cp.find_squadmate_by_email("bob@example.com"), Err(Error::NotConfigured));
    assert_eq!(cp.store().contents, None);
}

#[test]
fn config_level_add_and_remove() {
    let mut config =
        Config::new(person("Alice", "alice@example.com"), TransportConfig::Sendmail).unwrap();
    assert!(config.is_well_formed());
    assert_eq!(config.add_squadmate(person("Bob", "bob@example.com")), Ok(()));
    assert_eq!(config.add_squadmate(person("Bob", "bob@example.com")), Err(Error::DuplicateSquadmate));
    assert!(config.has_squadmate_email("bob@example.com"));
    assert!(!config.has_squadmate_email("bob"));
    assert_eq!(config.find_squadmate_by_email("bob@example.com"), Some(person("Bob", "bob@example.com")));
    assert_eq!(config.find_squadmate_by_name("Alice"), None);
    assert_eq!(config.rm_squadmate(&person("", "bob@example.com")), Ok(()));
    assert_eq!(config.rm_squadmate(&person("", "bob@example.com")), Err(Error::NotFound));
    assert!(config.squadmates.is_empty());
    assert!(config.is_well_formed());
}

#[test]
fn removal_takes_every_entry_with_the_address() {
    let mut config = Config {
        identity: person("Alice", "alice@example.com"),
        transport: TransportConfig::Sendmail,
        squadmates: vec![
            person("Bob", "bob@example.com"),
            person("Carol", "carol@example.com"),
            person("Robert", "bob@example.com"),
        ],
    };
    assert!(!config.is_well_formed());
    assert_eq!(config.rm_squadmate(&person("x", "bob@example.com")), Ok(()));
    assert_eq!(config.squadmates, vec![person("Carol", "carol@example.com")]);
    assert!(config.is_well_formed());
}

#[test]
fn new_config_checks_the_address() {
    assert_eq!(
        Config::new(person("Alice", ""), TransportConfig::Sendmail),
        Err(Error::InvalidEmail)
    );
    assert_eq!(
        Config::new(person("Alice", "alice.example.com"), TransportConfig::Sendmail),
        Err(Error::InvalidEmail)
    );
    let made = Config::new(
        person("Alice", "alice@example.com"),
        TransportConfig::Smtp { credential: "hunter2".to_string() },
    )
    .unwrap();
    assert_eq!(made.identity, person("Alice", "alice@example.com"));
    assert_eq!(made.transport, TransportConfig::Smtp { credential: "hunter2".to_string() });
    assert!(made.squadmates.is_empty());
    assert_eq!(made.clone(), made);
}
