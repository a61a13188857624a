use hips::backends::{AnyBackend, Folder, YAML};
use hips::encrypters::Ring;
use hips::{Backend, Database, Error, Secret};

fn secret(name: &str, value: &str) -> Secret {
    Secret { name: name.to_string(), secret: value.to_string() }
}

fn yaml_db(password: &str) -> Database<YAML, Ring> {
    Database::new(YAML::new(Vec::new()), Ring::new(password.to_string()))
}

fn folder_db(password: &str) -> Database<Folder, Ring> {
    Database::new(Folder::new("/tmp/secrets".to_string(), Vec::new()), Ring::new(password.to_string()))
}

#[test]
fn store_then_load() {
    let mut db = yaml_db("pw");
    db.store(secret("api", "token-123")).unwrap();
    let got = db.load("api".to_string()).unwrap();
    assert_eq!(got.name, "api");
    assert_eq!(got.secret, "token-123");
}

#[test]
fn load_missing_is_not_found() {
    let db = yaml_db("pw");
    match db.load("nope".to_string()) {
        Err(Error::NotFound) => {},
        other => panic!("expected NotFound, got {:?}", other),
    }
}

#[test]
fn load_with_wrong_password_is_authentication_failure() {
    let mut db = yaml_db("right");
    db.store(secret("n", "v")).unwrap();
    let records = db.export().unwrap();
    let other = Database::new(YAML::new(records), Ring::new("wrong".to_string()));
    match other.load("n".to_string()) {
        Err(Error::AuthenticationFailure) => {},
        other => panic!("expected AuthenticationFailure, got {:?}", other),
    }
}

#[test]
fn overwrite_leaves_one_record_with_second_value() {
    let mut db = yaml_db("pw");
    db.store(secret("n", "first")).unwrap();
    db.store(secret("other", "x")).unwrap();
    db.store(secret("n", "second")).unwrap();
    let all = db.list().unwrap();
    let named: Vec<&Secret> = all.iter().filter(|s| s.name == "n").collect();
    assert_eq!(named.len(), 1);
    assert_eq!(named[0].secret, "second");
}

#[test]
fn overwrite_keeps_position() {
    let mut db = yaml_db("pw");
    db.store(secret("a", "1")).unwrap();
    db.store(secret("b", "2")).unwrap();
    db.store(secret("c", "3")).unwrap();
    db.store(secret("b", "two")).unwrap();
    let names: Vec<String> = db.list().unwrap().into_iter().map(|s| s.name).collect();
    assert_eq!(names, vec!["a".to_string(), "b".to_string(), "c".to_string()]);
    assert_eq!(db.load("b".to_string()).unwrap().secret, "two");
}

#[test]
fn remove_then_load_is_not_found() {
    let mut db = yaml_db("pw");
    db.store(secret("n", "v")).unwrap();
    db.remove("n".to_string()).unwrap();
    match db.load("n".to_string()) {
        Err(Error::NotFound) => {},
        other => panic!("expected NotFound, got {:?}", other),
    }
}

#[test]
fn yaml_remove_of_absent_name_is_a_no_op() {
    let mut backend = YAML::new(Vec::new());
    assert!(backend.remove(&"ghost".to_string()).is_ok());
}

#[test]
fn folder_remove_of_absent_name_is_not_found() {
    let mut backend = Folder::new("/tmp/secrets".to_string(), Vec::new());
    match backend.remove(&"ghost".to_string()) {
        Err(Error::NotFound) => {},
        other => panic!("expected NotFound, got {:?}", other),
    }
}

#[test]
fn rename_moves_the_secret() {
    let mut db = yaml_db("pw");
    db.store(secret("old", "v")).unwrap();
    db.rename("old".to_string(), "new".to_string()).unwrap();
    assert_eq!(db.load("new".to_string()).unwrap().secret, "v");
    match db.load("old".to_string()) {
        Err(Error::NotFound) => {},
        other => panic!("expected NotFound, got {:?}", other),
    }
}

#[test]
fn rename_of_missing_name_is_not_found_and_changes_nothing() {
    let mut db = yaml_db("pw");
    db.store(secret("keep", "v")).unwrap();
    match db.rename("ghost".to_string(), "new".to_string()) {
        Err(Error::NotFound) => {},
        other => panic!("expected NotFound, got {:?}", other),
    }
    assert_eq!(db.list().unwrap().len(), 1);
}

#[test]
fn rename_to_same_name_deletes_the_secret() {
    // rename is load, store under the new name, remove the old one: with
    // equal names the remove drops the freshly stored record too.
    let mut db = yaml_db("pw");
    db.store(secret("n", "v")).unwrap();
    db.rename("n".to_string(), "n".to_string()).unwrap();
    assert!(db.list().unwrap().is_empty());
}

#[test]
fn rotation_preserves_the_secret_set() {
    let mut db = yaml_db("old-password");
    db.store(secret("a", "1")).unwrap();
    db.store(secret("b", "2")).unwrap();
    let mut fresh = yaml_db("new-password");
    db.rotate(&mut fresh).unwrap();

    let mut pairs: Vec<(String, String)> =
        fresh.list().unwrap().into_iter().map(|s| (s.name, s.secret)).collect();
    pairs.sort();
    assert_eq!(
        pairs,
        vec![("a".to_string(), "1".to_string()), ("b".to_string(), "2".to_string())]
    );
}

#[test]
fn rotated_records_do_not_open_under_the_old_password() {
    let mut db = yaml_db("old-password");
    db.store(secret("a", "1")).unwrap();
    let mut fresh = yaml_db("new-password");
    db.rotate(&mut fresh).unwrap();

    let rotated = fresh.export().unwrap();
    let old_view = Database::new(YAML::new(rotated), Ring::new("old-password".to_string()));
    match old_view.load("a".to_string()) {
        Err(Error::AuthenticationFailure) => {},
        other => panic!("expected AuthenticationFailure, got {:?}", other),
    }
}

#[test]
fn rotating_an_empty_database_succeeds() {
    let db = yaml_db("old-password");
    let mut fresh = yaml_db("new-password");
    db.rotate(&mut fresh).unwrap();
    assert!(fresh.list().unwrap().is_empty());
}

#[test]
fn folder_remove_of_present_name_succeeds() {
    let mut db = folder_db("pw");
    db.store(secret("n", "v")).unwrap();
    db.remove("n".to_string()).unwrap();
    assert!(db.list().unwrap().is_empty());
}

#[test]
fn rotation_generates_new_salts() {
    let mut db = yaml_db("pw");
    db.store(secret("a", "1")).unwrap();
    let before = db.export().unwrap();
    let mut fresh = yaml_db("pw");
    db.rotate(&mut fresh).unwrap();
    let after = fresh.export().unwrap();
    assert_eq!(before.len(), 1);
    assert_eq!(after.len(), 1);
    assert_ne!(before[0].salt(), after[0].salt());
}

#[test]
fn folder_backend_round_trips_identically() {
    let mut db = folder_db("pw");
    db.store(secret("api", "token-123")).unwrap();
    let got = db.load("api".to_string()).unwrap();
    assert_eq!(got.secret, "token-123");
}

#[test]
fn folder_backend_detects_wrong_password() {
    let mut db = folder_db("right");
    db.store(secret("n", "v")).unwrap();
    let records = db.export().unwrap();
    let other = Database::new(
        Folder::new("/tmp/secrets".to_string(), records),
        Ring::new("wrong".to_string()),
    );
    match other.load("n".to_string()) {
        Err(Error::AuthenticationFailure) => {},
        other => panic!("expected AuthenticationFailure, got {:?}", other),
    }
}

#[test]
fn backends_interchange_records() {
    // What one backend stored, a database over the other backend decrypts:
    // the encrypter does not depend on the backend underneath.
    let mut db = yaml_db("pw");
    db.store(secret("n", "v")).unwrap();
    let records = db.export().unwrap();
    let via_folder = Database::new(
        Folder::new("/tmp/secrets".to_string(), records),
        Ring::new("pw".to_string()),
    );
    assert_eq!(via_folder.load("n".to_string()).unwrap().secret, "v");
}

#[test]
fn missing_database_lists_empty() {
    let db = Database::from_file("/data/none.yaml".to_string(), "pw".to_string(), Vec::new())
        .unwrap();
    assert!(db.list().unwrap().is_empty());
    match db.load("n".to_string()) {
        Err(Error::NotFound) => {},
        other => panic!("expected NotFound, got {:?}", other),
    }
}

#[test]
fn from_file_selects_backend_by_extension() {
    let yaml = Database::from_file("store.yaml".to_string(), "pw".to_string(), Vec::new());
    assert!(yaml.is_ok());
    let folder = Database::from_file("store".to_string(), "pw".to_string(), Vec::new());
    assert!(folder.is_ok());
    match Database::from_file("store.json".to_string(), "pw".to_string(), Vec::new()) {
        Err(Error::InvalidLayout) => {},
        other => panic!("expected InvalidLayout, got {:?}", other.map(|_| ())),
    }
}

#[test]
fn from_file_ignores_dots_in_directories() {
    // The extension is the last component's; a dotted parent directory or a
    // hidden file does not make one.
    assert!(Database::from_file("a.yaml/store".to_string(), "pw".to_string(), Vec::new()).is_ok());
    assert!(Database::from_file("/data/.hidden".to_string(), "pw".to_string(), Vec::new()).is_ok());
    match Database::from_file("/d.d/s.json".to_string(), "pw".to_string(), Vec::new()) {
        Err(Error::InvalidLayout) => {},
        other => panic!("expected InvalidLayout, got {:?}", other.map(|_| ())),
    }
}

#[test]
fn any_backend_behaves_like_its_wrapped_backend() {
    let mut db = Database::new(AnyBackend::new_yaml(Vec::new()), Ring::new("pw".to_string()));
    db.store(secret("n", "v")).unwrap();
    assert_eq!(db.load("n".to_string()).unwrap().secret, "v");
    db.remove("n".to_string()).unwrap();
    assert!(db.list().unwrap().is_empty());
}

#[test]
fn folder_paths_name_the_two_files() {
    let backend = Folder::new("/data/store".to_string(), Vec::new());
    assert_eq!(backend.salt_path(&"api".to_string()), "/data/store/api/salt");
    assert_eq!(backend.secret_path(&"api".to_string()), "/data/store/api/secret");
}

#[test]
fn list_keeps_storage_order() {
    let mut db = yaml_db("pw");
    db.store(secret("z", "26")).unwrap();
    db.store(secret("a", "1")).unwrap();
    db.store(secret("m", "13")).unwrap();
    let names: Vec<String> = db.list().unwrap().into_iter().map(|s| s.name).collect();
    assert_eq!(names, vec!["z".to_string(), "a".to_string(), "m".to_string()]);
}

#[test]
fn one_bad_record_fails_the_whole_listing() {
    let mut db = yaml_db("pw");
    db.store(secret("good", "v")).unwrap();
    let mut records = db.export().unwrap();
    records.push(hips::Encrypted::new(
        "bad".to_string(),
        "*!*".to_string(),
        "AAAA".to_string(),
    ));
    let tainted = Database::new(YAML::new(records), Ring::new("pw".to_string()));
    match tainted.list() {
        Err(Error::DecodingError) => {},
        other => panic!("expected DecodingError, got {:?}", other.map(|_| ())),
    }
}
