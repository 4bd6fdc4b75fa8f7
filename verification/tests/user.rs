use print_queue::user::{create_uid_username_mapping, DisplayInfo, Member, UserDirectory, UserID};

fn info(real_name: Option<&str>, handle: Option<&str>) -> DisplayInfo {
    DisplayInfo {
        real_name: real_name.map(String::from),
        handle: handle.map(String::from),
    }
}

fn member(id: &str, real_name: Option<&str>, handle: Option<&str>) -> Member {
    Member {
        id: UserID::new(id),
        info: info(real_name, handle),
    }
}

#[test]
fn create_user_id() {
    let user_a = UserID::new("UA8RXUPSP");
    let user_b = UserID(String::from("UA8RXUPSP"));

    assert_eq!(user_a, user_b);
}

#[test]
fn display() {
    let user = UserID(String::from("UA8RXUPSP"));

    assert_eq!(user.to_string(), "UA8RXUPSP");
}

#[test]
fn user_ids_differ_by_token() {
    assert_ne!(UserID::new("UA8RXUPSP"), UserID::new("UNB2LMZRP"));
    assert_ne!(UserID::new("UA8RXUPSP"), UserID::new("ua8rxupsp"));
    assert_eq!(UserID::new(""), UserID(String::new()));
}

#[test]
fn user_id_clone_and_text() {
    let user = UserID::new("UN480W9ND");
    let copy = user.clone();
    assert_eq!(copy, user);
    assert_eq!(copy.as_str(), "UN480W9ND");
    assert_eq!(copy.0, "UN480W9ND");
}

#[test]
fn empty_directory_knows_nobody() {
    let directory = UserDirectory::new();
    assert!(directory.lookup(&UserID::new("UA8RXUPSP")).is_none());
}

#[test]
fn directory_insert_and_lookup() {
    let mut directory = UserDirectory::new();
    directory.insert(UserID::new("UA8RXUPSP"), info(Some("Ada"), Some("ada")));
    directory.insert(UserID::new("UNB2LMZRP"), info(None, None));

    let ada = directory.lookup(&UserID::new("UA8RXUPSP")).unwrap();
    assert_eq!(ada.real_name.as_deref(), Some("Ada"));
    assert_eq!(ada.handle.as_deref(), Some("ada"));

    let other = directory.lookup(&UserID::new("UNB2LMZRP")).unwrap();
    assert_eq!(other.real_name, None);
    assert_eq!(other.handle, None);

    assert!(directory.lookup(&UserID::new("UN480W9ND")).is_none());
}

#[test]
fn directory_insert_replaces() {
    let mut directory = UserDirectory::new();
    directory.insert(UserID::new("UA8RXUPSP"), info(Some("Ada"), Some("ada")));
    directory.insert(UserID::new("UA8RXUPSP"), info(Some("Ada L."), None));

    let ada = directory.lookup(&UserID::new("UA8RXUPSP")).unwrap();
    assert_eq!(ada.real_name.as_deref(), Some("Ada L."));
    assert_eq!(ada.handle, None);
}

#[test]
fn mapping_from_listing() {
    let directory = create_uid_username_mapping(vec![
        member("UA8RXUPSP", Some("Ada"), Some("ada")),
        member("UNB2LMZRP", Some("Bob"), None),
        member("UN480W9ND", None, Some("cy")),
    ]);

    let ada = directory.lookup(&UserID::new("UA8RXUPSP")).unwrap();
    assert_eq!(ada.real_name.as_deref(), Some("Ada"));
    assert_eq!(ada.handle.as_deref(), Some("ada"));
    let bob = directory.lookup(&UserID::new("UNB2LMZRP")).unwrap();
    assert_eq!(bob.real_name.as_deref(), Some("Bob"));
    assert_eq!(bob.handle, None);
    let cy = directory.lookup(&UserID::new("UN480W9ND")).unwrap();
    assert_eq!(cy.real_name, None);
    assert_eq!(cy.handle.as_deref(), Some("cy"));
    assert!(directory.lookup(&UserID::new("U00000000")).is_none());
}

#[test]
fn mapping_from_empty_listing() {
    let directory = create_uid_username_mapping(Vec::new());
    assert!(directory.lookup(&UserID::new("UA8RXUPSP")).is_none());
}

#[test]
fn mapping_keeps_the_later_record() {
    let directory = create_uid_username_mapping(vec![
        member("UA8RXUPSP", Some("Ada"), Some("ada")),
        member("UNB2LMZRP", Some("Bob"), None),
        member("UA8RXUPSP", Some("Countess"), None),
    ]);

    let ada = directory.lookup(&UserID::new("UA8RXUPSP")).unwrap();
    assert_eq!(ada.real_name.as_deref(), Some("Countess"));
    assert_eq!(ada.handle, None);
}
