use age::secrecy::ExposeSecret;
use yeet::keys::{is_small_order, Identity, Recipient};

const SMALL_ORDER: [&str; 14] = [
    "age1ahlllllllllllllllllllllllllllllllllllllllllllllllalsn46ayy",
    "age1ahlllllllllllllllllllllllllllllllllllllllllllllllllsh3g6la",
    "age1amlllllllllllllllllllllllllllllllllllllllllllllllalselrwrv",
    "age1amlllllllllllllllllllllllllllllllllllllllllllllllllsam3fc4",
    "age1anlllllllllllllllllllllllllllllllllllllllllllllllals4n2t7m",
    "age1anllllllllllllllllllllllllllllllllllllllllllllllllls3hcv9z",
    "age1qqqqqqqqqqqqqqqqqqqqqqqqqqqqqqqqqqqqqqqqqqqqqqqqqqqq5cu47z",
    "age1qqqqqqqqqqqqqqqqqqqqqqqqqqqqqqqqqqqqqqqqqqqqqqqqqzqqsuwj9m",
    "age1qyqqqqqqqqqqqqqqqqqqqqqqqqqqqqqqqqqqqqqqqqqqqqqqqqqqj7vrya",
    "age1qyqqqqqqqqqqqqqqqqqqqqqqqqqqqqqqqqqqqqqqqqqqqqqqqzqqk67yly",
    "age1t7wft09r2zxzfvwsk92eeql0tvzyghxytqwgapkcyf8dm5ylz8ts72fzt7",
    "age1t7wft09r2zxzfvwsk92eeql0tvzyghxytqwgapkcyf8dm5ylz9ts6wm9s8",
    "age1ur4h5lpmgxu2u9jku0a0r87ydtdqnr0tnsetrlvxvgz3vh6fhqqqzyt4v9",
    "age1ur4h5lpmgxu2u9jku0a0r87ydtdqnr0tnsetrlvxvgz3vh6fhzqqxqejhu",
];

const TEST_SK: &str = "AGE-SECRET-KEY-1GQ9778VQXMMJVE8SK7J6VT8UJ4HDQAJUVSFCWCM02D8GEWQ72PVQ2Y5J33";
const TEST_PK: &str = "age1t7rxyev2z3rw82stdlrrepyc39nvn86l5078zqkf5uasdy86jp6svpy7pa";

#[test]
fn an_identity_has_its_recipient() {
    let identity = Identity::parse(TEST_SK).unwrap();
    assert_eq!(identity.as_str(), TEST_SK);
    assert_eq!(identity.to_public().as_str(), TEST_PK);
    assert_eq!(Recipient::parse(TEST_PK).unwrap().as_str(), TEST_PK);
}

#[test]
fn what_is_no_key_is_not_parsed() {
    assert!(Identity::parse("").is_none());
    assert!(Identity::parse(TEST_PK).is_none());
    assert!(Identity::parse("AGE-SECRET-KEY-1GQ9778VQXMMJVE8SK7J6VT8UJ4HDQAJUVSFCWCM02D8GEWQ72PVQ2Y5J34").is_none());
    assert!(Recipient::parse("").is_none());
    assert!(Recipient::parse(TEST_SK).is_none());
    assert!(Recipient::parse("age1t7rxyev2z3rw82stdlrrepyc39nvn86l5078zqkf5uasdy86jp6svpy7pb").is_none());
}

#[test]
fn encryption_round_trips() {
    let identity = Identity::parse(TEST_SK).unwrap();
    let recipient = identity.to_public();
    let ciphertext = recipient.encrypt(b"hunter2").unwrap();
    assert_ne!(ciphertext, b"hunter2");
    assert_eq!(identity.decrypt(&ciphertext).unwrap(), b"hunter2");
    // What age itself encrypted is read, and age reads what was encrypted here.
    let theirs: age::x25519::Recipient = TEST_PK.parse().unwrap();
    assert_eq!(identity.decrypt(&age::encrypt(&theirs, b"abc").unwrap()).unwrap(), b"abc");
    let key: age::x25519::Identity = TEST_SK.parse().unwrap();
    assert_eq!(age::decrypt(&key, &ciphertext).unwrap(), b"hunter2");
    // Another identity does not decrypt it.
    let other = age::x25519::Identity::generate();
    let other = Identity::parse(other.to_string().expose_secret()).unwrap();
    assert!(other.decrypt(&ciphertext).is_err());
    assert!(identity.decrypt(b"not a ciphertext").is_err());
}

#[test]
fn recipients_of_small_order_are_turned_away() {
    for encoded in SMALL_ORDER {
        // age reads them as recipients ...
        let theirs: age::x25519::Recipient = encoded.parse().unwrap();
        assert_eq!(theirs.to_string(), encoded);
        // ... and nothing could be encrypted to them.
        assert!(is_small_order(encoded));
        assert!(Recipient::parse(encoded).is_none(), "{encoded}");
        assert!(Recipient::parse(&encoded.to_uppercase()).is_none(), "{encoded}");
    }
    assert!(!is_small_order(TEST_PK));
}
