use std::collections::HashMap;

use age::secrecy::ExposeSecret;
use yeet::keys::{Identity, Recipient};
use yeet::secret_store::{SecretStore, SecretStoreError};

fn identity(key: &age::x25519::Identity) -> Identity {
    Identity::parse(key.to_string().expose_secret()).unwrap()
}

fn recipient(key: &age::x25519::Identity) -> Recipient {
    Recipient::parse(&key.to_public().to_string()).unwrap()
}

#[test]
fn create_and_retrieve_secret() {
    let store_key = age::x25519::Identity::generate();
    let host = age::x25519::Identity::generate();
    let mut store = SecretStore::new();

    let encrypted = age::encrypt(&store_key.to_public(), b"secret_text").unwrap();

    store
        .add_secret("my_secret", encrypted, &identity(&store_key))
        .unwrap();
    store.add_access_for("my_secret", "myhost");
    let encrypted_for_host = store
        .get_secret_for("my_secret", &identity(&store_key), "myhost", &recipient(&host))
        .unwrap()
        .unwrap();

    let decrypted = age::decrypt(&host, &encrypted_for_host).unwrap();
    assert_eq!(decrypted, b"secret_text");
}

#[test]
fn create_and_retrieve_without_allow() {
    let store_key = age::x25519::Identity::generate();
    let host = age::x25519::Identity::generate();
    let mut store = SecretStore::new();

    let encrypted = age::encrypt(&store_key.to_public(), b"secret_text").unwrap();

    store
        .add_secret("my_secret", encrypted, &identity(&store_key))
        .unwrap();
    let secret = store
        .get_secret_for("my_secret", &identity(&store_key), "myhost", &recipient(&host))
        .unwrap();

    assert!(secret.is_none());
}

#[test]
fn remove_access() {
    let store_key = age::x25519::Identity::generate();
    let host = age::x25519::Identity::generate();
    let mut store = SecretStore::new();

    let encrypted = age::encrypt(&store_key.to_public(), b"secret_text").unwrap();

    store
        .add_secret("my_secret", encrypted, &identity(&store_key))
        .unwrap();
    store.add_access_for("my_secret", "myhost");
    let _: Vec<u8> = store
        .get_secret_for("my_secret", &identity(&store_key), "myhost", &recipient(&host))
        .unwrap()
        .unwrap();

    store.remove_access_for("my_secret", "myhost");

    let secret = store
        .get_secret_for("my_secret", &identity(&store_key), "myhost", &recipient(&host))
        .unwrap();

    assert!(secret.is_none());
}

#[test]
fn remove_access_set() {
    let store_key = age::x25519::Identity::generate();
    let host = age::x25519::Identity::generate();
    let mut store = SecretStore::new();

    let encrypted = age::encrypt(&store_key.to_public(), b"secret_text").unwrap();

    store
        .add_secret("my_secret", encrypted, &identity(&store_key))
        .unwrap();
    store.set_access_for("my_secret", vec!["myhost".to_owned()]);
    let _: Vec<u8> = store
        .get_secret_for("my_secret", &identity(&store_key), "myhost", &recipient(&host))
        .unwrap()
        .unwrap();

    store.set_access_for("my_secret", vec![]);

    let secret = store
        .get_secret_for("my_secret", &identity(&store_key), "myhost", &recipient(&host))
        .unwrap();

    assert!(secret.is_none());
}

#[test]
fn getterss() {
    let store_key = age::x25519::Identity::generate();
    let mut store = SecretStore::new();

    let encrypted = age::encrypt(&store_key.to_public(), b"secret_text").unwrap();

    store
        .add_secret("my_secret", encrypted.clone(), &identity(&store_key))
        .unwrap();
    store
        .add_secret("secret2", encrypted, &identity(&store_key))
        .unwrap();

    store.set_access_for("my_secret", vec!["myhost".to_owned()]);

    store.set_access_for("secret2", vec!["h1".to_owned(), "h2".to_owned()]);

    assert_eq!(
        store.get_acl_by_secret("my_secret"),
        vec!["myhost".to_owned()]
    );

    assert_eq!(
        store.get_all_acl().into_iter().collect::<HashMap<_, _>>(),
        HashMap::from([
            ("my_secret".to_owned(), vec!["myhost".to_owned()]),
            ("secret2".to_owned(), vec!["h1".to_owned(), "h2".to_owned()])
        ])
    );

    let mut sorted = store.list_secrets();
    sorted.sort();
    assert_eq!(sorted, vec!["my_secret".to_owned(), "secret2".to_owned()]);
}

#[test]
fn non_encrypted() {
    let store_key = age::x25519::Identity::generate();
    let mut store = SecretStore::new();

    assert!(store
        .add_secret("my_secret", b"secret_text".to_vec(), &identity(&store_key))
        .is_err());
}

#[test]
fn rename_host() {
    let store_key = age::x25519::Identity::generate();
    let mut store = SecretStore::new();

    let encrypted = age::encrypt(&store_key.to_public(), b"secret_text").unwrap();

    store
        .add_secret("my_secret", encrypted, &identity(&store_key))
        .unwrap();
    store.set_access_for("my_secret", vec!["myhost".to_owned()]);

    store.set_access_for("my_secret", vec!["myhost".to_owned()]);
    store.rename_host("myhost", "newhost");

    assert_eq!(
        store.get_acl_by_secret("my_secret"),
        vec!["newhost".to_owned()]
    );
}

#[test]
fn rename_secret() {
    let store_key = age::x25519::Identity::generate();
    let mut store = SecretStore::new();

    let encrypted = age::encrypt(&store_key.to_public(), b"secret_text").unwrap();

    store
        .add_secret("my_secret", encrypted, &identity(&store_key))
        .unwrap();
    store.set_access_for("my_secret", vec!["myhost".to_owned()]);

    store.rename_secret("my_secret", "newscret");

    assert!(store.get_acl_by_secret("my_secret").is_empty());
    assert_eq!(
        store.get_acl_by_secret("newscret"),
        vec!["myhost".to_owned()]
    );
}

#[test]
fn remove_secret() {
    let store_key = age::x25519::Identity::generate();
    let mut store = SecretStore::new();

    let encrypted = age::encrypt(&store_key.to_public(), b"secret_text").unwrap();

    store
        .add_secret("my_secret", encrypted, &identity(&store_key))
        .unwrap();
    store.set_access_for("my_secret", vec!["myhost".to_owned()]);

    store.remove_secret("my_secret");

    assert!(store.get_acl_by_secret("my_secret").is_empty());
    assert!(store.list_secrets().is_empty());
}

#[test]
fn remove_host() {
    let store_key = age::x25519::Identity::generate();
    let mut store = SecretStore::new();

    let encrypted = age::encrypt(&store_key.to_public(), b"secret_text").unwrap();

    store
        .add_secret("my_secret", encrypted, &identity(&store_key))
        .unwrap();
    store.set_access_for("my_secret", vec!["myhost".to_owned()]);

    store.remove_host("myhost");

    assert!(store.get_acl_by_secret("my_secret").is_empty());
}

#[test]
fn what_comes_of_decrypting_and_encrypting() {
    assert!(matches!(SecretStore::vet(Ok(b"plain".to_vec())), Ok(())));
    let refused = SecretStore::vet(Err(age::DecryptError::DecryptionFailed)).unwrap_err();
    assert!(matches!(refused, SecretStoreError::DecryptionError(age::DecryptError::DecryptionFailed)));
    assert_eq!(refused.message(), "Could not decrypt the secret with the provided Identity");
    assert_eq!(refused.status(), 500);

    assert_eq!(SecretStore::deliver(Ok(b"sealed".to_vec())).unwrap(), Some(b"sealed".to_vec()));
    let failed = SecretStore::deliver(Err(age::EncryptError::MissingRecipients)).unwrap_err();
    assert!(matches!(failed, SecretStoreError::EncryptError(age::EncryptError::MissingRecipients)));
    assert_eq!(failed.message(), "Could not encrypt the secret with the provided Recipient");
    assert_eq!(failed.status(), 500);
    assert!(matches!(
        SecretStoreError::from(age::DecryptError::NoMatchingKeys),
        SecretStoreError::DecryptionError(age::DecryptError::NoMatchingKeys)
    ));
    assert!(matches!(
        SecretStoreError::from(age::EncryptError::MissingRecipients),
        SecretStoreError::EncryptError(_)
    ));
}

#[test]
fn a_secret_for_another_key_is_not_stored_or_read() {
    let store_key = age::x25519::Identity::generate();
    let other_key = age::x25519::Identity::generate();
    let host = age::x25519::Identity::generate();
    let mut store = SecretStore::new();

    let encrypted = age::encrypt(&other_key.to_public(), b"secret_text").unwrap();
    let refused = store.add_secret("my_secret", encrypted.clone(), &identity(&store_key));
    assert!(matches!(refused, Err(SecretStoreError::DecryptionError(_))));
    assert!(store.list_secrets().is_empty());

    // Stored under the key it was encrypted for, it cannot be read with another.
    store.add_secret("my_secret", encrypted, &identity(&other_key)).unwrap();
    store.add_access_for("my_secret", "myhost");
    let read = store.get_secret_for("my_secret", &identity(&store_key), "myhost", &recipient(&host));
    assert!(matches!(read, Err(SecretStoreError::DecryptionError(_))));
}

#[test]
fn access_lists_keep_their_order_and_name_a_host_once() {
    let mut store = SecretStore::new();
    store.add_access_for("db", "b");
    store.add_access_for("db", "a");
    store.add_access_for("db", "b");
    assert_eq!(store.get_acl_by_secret("db"), vec!["b", "a"]);
    store.remove_access_for("db", "b");
    assert_eq!(store.get_acl_by_secret("db"), vec!["a"]);
    // Taking a host off the list of a secret that has none starts an empty list.
    store.remove_access_for("api", "a");
    assert_eq!(
        store.get_all_acl(),
        vec![("db".to_owned(), vec!["a".to_owned()]), ("api".to_owned(), vec![])]
    );
    // Renaming onto a name that is taken replaces what was there.
    store.add_access_for("api", "z");
    store.rename_secret("db", "api");
    assert_eq!(store.get_all_acl(), vec![("api".to_owned(), vec!["a".to_owned()])]);
    store.rename_secret("nothing", "api");
    assert_eq!(store.get_all_acl(), vec![("api".to_owned(), vec!["a".to_owned()])]);
}

#[test]
fn granting_twice_is_granting_once() {
    let mut store = SecretStore::new();
    store.add_access_for("s", "h");
    store.add_access_for("s", "h");
    assert_eq!(store.get_all_acl(), vec![("s".to_owned(), vec!["h".to_owned()])]);
    store.remove_access_for("s", "h");
    assert_eq!(store.get_acl_by_secret("s"), Vec::<String>::new());
}

#[test]
fn an_access_list_names_each_host_once() {
    let mut store = SecretStore::new();
    store.set_access_for("db", vec!["b".to_owned(), "a".to_owned(), "b".to_owned(), "a".to_owned()]);
    assert_eq!(store.get_acl_by_secret("db"), vec!["b", "a"]);
    store.add_access_for("db", "c");
    // A host is renamed onto a name that is on the list already.
    store.rename_host("a", "c");
    assert_eq!(store.get_acl_by_secret("db"), vec!["b", "c"]);
    store.rename_host("b", "b");
    assert_eq!(store.get_acl_by_secret("db"), vec!["b", "c"]);
    store.rename_host("b", "a");
    assert_eq!(store.get_acl_by_secret("db"), vec!["a", "c"]);
    store.rename_host("nobody", "c");
    assert_eq!(store.get_acl_by_secret("db"), vec!["a", "c"]);
    store.remove_host("a");
    assert_eq!(store.get_acl_by_secret("db"), vec!["c"]);

    // What is read back has to be made of sets too.
    let lists = vec![("db".to_owned(), vec!["a".to_owned(), "b".to_owned(), "a".to_owned()])];
    assert!(SecretStore::restore(vec![], lists).is_none());
    let lists = vec![("db".to_owned(), vec!["a".to_owned(), "b".to_owned()])];
    assert!(SecretStore::restore(vec![], lists).is_some());
}

#[test]
fn a_store_is_written_and_read_back() {
    let store_key = age::x25519::Identity::generate();
    let mut store = SecretStore::new();
    let encrypted = age::encrypt(&store_key.to_public(), b"secret_text").unwrap();
    store.add_secret("b", encrypted.clone(), &identity(&store_key)).unwrap();
    store.add_secret("a", encrypted.clone(), &identity(&store_key)).unwrap();
    store.set_access_for("a", vec!["h2".to_owned(), "h1".to_owned()]);

    let (secrets, lists) = store.export();
    assert_eq!(secrets, vec![("b".to_owned(), encrypted.clone()), ("a".to_owned(), encrypted.clone())]);
    assert_eq!(lists, vec![("a".to_owned(), vec!["h2".to_owned(), "h1".to_owned()])]);
    let restored = SecretStore::restore(secrets.clone(), lists.clone()).unwrap();
    assert_eq!(restored.export(), (secrets.clone(), lists.clone()));

    let mut twice = secrets.clone();
    twice.push(("b".to_owned(), vec![]));
    assert!(SecretStore::restore(twice, lists.clone()).is_none());
    let mut twice = lists.clone();
    twice.push(("a".to_owned(), vec![]));
    assert!(SecretStore::restore(secrets, twice).is_none());
}
