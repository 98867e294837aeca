use civil_protection::codec::{decode, encode};
use civil_protection::{Config, ConfigStore, Error, Identity, TransportConfig};

fn id(name: &str, email: &str) -> Identity {
    Identity { name: name.to_string(), email: email.to_string() }
}

fn sample() -> Config {
    Config {
        identity: id("Alice", "alice@example.com"),
        transport: TransportConfig::Smtp { credential: "p\u{e4}ss w\u{f6}rd \u{1f512}".to_string() },
        squadmates: vec![
            id("Zo\u{eb}", "zoe@example.com"),
            id("", "anon@example.com"),
            id("Bob", "bob@example.com"),
            id("\u{5c71}\u{7530}", "yamada@example.jp"),
        ],
    }
}

#[test]
fn save_then_load_round_trips() {
    let config = sample();
    let mut store = ConfigStore::absent();
    assert!(!store.holds_config());
    store.save(&config);
    assert!(store.holds_config());
    let loaded = store.load().unwrap();
    assert_eq!(loaded, config);
    assert_eq!(loaded.squadmates[0].name, "Zo\u{eb}");
    assert_eq!(loaded.squadmates[3].email, "yamada@example.jp");
}

#[test]
fn save_replaces_the_whole_store() {
    let mut store = ConfigStore::holding(vec![9; 500]);
    let small = Config {
        identity: id("A", "a@b"),
        transport: TransportConfig::Sendmail,
        squadmates: vec![],
    };
    store.save(&small);
    assert_eq!(store.contents, Some(encode(&small)));
    assert_eq!(store.load(), Ok(small));
}

#[test]
fn store_load_tells_absent_from_corrupt() {
    assert_eq!(ConfigStore::absent().load(), Err(Error::NotFound));
    assert_eq!(ConfigStore::holding(vec![]).load(), Err(Error::Corrupt));
    assert_eq!(ConfigStore::holding(b"not a configuration".to_vec()).load(), Err(Error::Corrupt));
    assert!(!ConfigStore::holding(vec![]).holds_config());
    let mut store = ConfigStore::holding(encode(&sample()));
    assert!(store.holds_config());
    store.delete();
    assert_eq!(store.contents, None);
    assert_eq!(store.load(), Err(Error::NotFound));
    store.delete();
    assert_eq!(store.contents, None);
}

#[test]
fn stored_form_of_a_sendmail_config() {
    let config = Config {
        identity: id("Al", "a@b"),
        transport: TransportConfig::Sendmail,
        squadmates: vec![id("\u{e9}", "c@d")],
    };
    let expected: Vec<u8> = vec![
        0x52, 0x43, 0x50, 0x01, // tag
        0x00, // sendmail
        2, 0, 0, 0, 0, 0, 0, 0, b'A', b'l', // name
        3, 0, 0, 0, 0, 0, 0, 0, b'a', b'@', b'b', // address
        1, 0, 0, 0, 0, 0, 0, 0, // one squadmate
        2, 0, 0, 0, 0, 0, 0, 0, 0xc3, 0xa9, // its name
        3, 0, 0, 0, 0, 0, 0, 0, b'c', b'@', b'd', // its address
    ];
    assert_eq!(encode(&config), expected);
    assert_eq!(decode(&expected), Ok(config));
}

#[test]
fn stored_form_of_an_smtp_config() {
    let config = Config {
        identity: id("", "x@y"),
        transport: TransportConfig::Smtp { credential: "pw".to_string() },
        squadmates: vec![],
    };
    let expected: Vec<u8> = vec![
        0x52, 0x43, 0x50, 0x01, // tag
        0x01, 2, 0, 0, 0, 0, 0, 0, 0, b'p', b'w', // smtp and credential
        0, 0, 0, 0, 0, 0, 0, 0, // empty name
        3, 0, 0, 0, 0, 0, 0, 0, b'x', b'@', b'y', // address
        0, 0, 0, 0, 0, 0, 0, 0, // no squadmates
    ];
    assert_eq!(encode(&config), expected);
    assert_eq!(decode(&expected), Ok(config));
}

#[test]
fn long_text_uses_the_higher_length_bytes() {
    let config = Config {
        identity: id(&"n".repeat(300), "x@y"),
        transport: TransportConfig::Sendmail,
        squadmates: vec![],
    };
    let bytes = encode(&config);
    assert_eq!(&bytes[5..13], &[0x2c, 0x01, 0, 0, 0, 0, 0, 0]);
    assert_eq!(decode(&bytes), Ok(config));
}

#[test]
fn truncated_bytes_are_corrupt() {
    let bytes = encode(&sample());
    for cut in 0..bytes.len() {
        assert_eq!(decode(&bytes[..cut]), Err(Error::Corrupt), "cut at {}", cut);
    }
    assert_eq!(decode(&bytes), Ok(sample()));
}

#[test]
fn trailing_bytes_are_corrupt() {
    let mut bytes = encode(&sample());
    bytes.push(0);
    assert_eq!(decode(&bytes), Err(Error::Corrupt));
}

#[test]
fn wrong_tag_or_transport_is_corrupt() {
    let good = encode(&sample());
    for k in 0..4 {
        let mut bytes = good.clone();
        bytes[k] ^= 0x20;
        assert_eq!(decode(&bytes), Err(Error::Corrupt));
    }
    let mut bytes = good.clone();
    bytes[4] = 2;
    assert_eq!(decode(&bytes), Err(Error::Corrupt));
}

#[test]
fn invalid_utf8_is_corrupt() {
    let config = Config {
        identity: id("Al", "a@b"),
        transport: TransportConfig::Sendmail,
        squadmates: vec![],
    };
    let mut bytes = encode(&config);
    assert_eq!(bytes[13], b'A');
    bytes[13] = 0xff;
    assert_eq!(decode(&bytes), Err(Error::Corrupt));
    bytes[13] = 0xc3;
    bytes[14] = 0xa9;
    assert_eq!(decode(&bytes).unwrap().identity.name, "\u{e9}");
    bytes[14] = b'l';
    assert_eq!(decode(&bytes), Err(Error::Corrupt));
}

#[test]
fn oversized_length_is_corrupt() {
    let config = Config {
        identity: id("Al", "a@b"),
        transport: TransportConfig::Sendmail,
        squadmates: vec![],
    };
    let mut bytes = encode(&config);
    for k in 5..13 {
        bytes[k] = 0xff;
    }
    assert_eq!(decode(&bytes), Err(Error::Corrupt));
    let mut bytes = encode(&config);
    let count_at = bytes.len() - 8;
    bytes[count_at] = 1;
    assert_eq!(decode(&bytes), Err(Error::Corrupt));
    bytes[count_at + 7] = 0x80;
    assert_eq!(decode(&bytes), Err(Error::Corrupt));
}

#[test]
fn stored_config_that_breaks_the_invariant_is_corrupt() {
    let twice = Config {
        identity: id("Alice", "alice@example.com"),
        transport: TransportConfig::Sendmail,
        squadmates: vec![id("Bob", "bob@example.com"), id("Robert", "bob@example.com")],
    };
    assert_eq!(decode(&encode(&twice)), Err(Error::Corrupt));
    let no_address = Config {
        identity: id("Alice", ""),
        transport: TransportConfig::Sendmail,
        squadmates: vec![],
    };
    assert_eq!(decode(&encode(&no_address)), Err(Error::Corrupt));
}
