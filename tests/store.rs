use creds::error::StoreError;
use creds::record::Credential;
use creds::repo::{CredentialRepository, Entry};

fn repo() -> CredentialRepository {
    CredentialRepository { path: "/srv/vault".to_string() }
}

fn file(name: &str) -> Entry {
    Entry::File(name.to_string())
}

fn group(name: &str, entries: Vec<Entry>) -> Entry {
    Entry::Group(name.to_string(), entries)
}

#[test]
fn secret_round_trip() {
    let c = Credential::from_input("mail", "alice", "s3cr3t", "pw1");
    assert_eq!(c.name, "mail");
    assert_eq!(c.account, "alice");
    assert_ne!(c.encrypted_password(), "s3cr3t");
    assert_eq!(c.decrypt("pw1"), Ok("s3cr3t".to_string()));
}

#[test]
fn empty_secret_round_trip() {
    let c = Credential::from_input("x", "", "", "k");
    assert_eq!(c.decrypt("k"), Ok(String::new()));
}

#[test]
fn same_passphrase_same_token() {
    let a = Credential::from_input("a", "u", "secret", "pass");
    let b = Credential::from_input("b", "v", "secret", "pass");
    assert_eq!(a.encrypted_password(), b.encrypted_password());
}

#[test]
fn wrong_passphrase_is_decryption_error() {
    let c = Credential::from_input("mail", "alice", "s3cr3t", "pw1");
    assert_eq!(c.decrypt("pw2"), Err(StoreError::Decryption));
}

#[test]
fn corrupted_token_is_decryption_error() {
    let text = r#"{"name":"n","account":"a","encrypted_password":"not base64 !!"}"#;
    let c = Credential::from_json(text).unwrap();
    assert_eq!(c.decrypt("pw"), Err(StoreError::Decryption));
}

#[test]
fn serialization_round_trip() {
    let c = Credential::from_input("work/\"email\"", "bob\n", "hunter2", "k");
    let text = c.as_json();
    assert!(text.contains("\"account\""));
    assert!(text.contains("\"encrypted_password\""));
    assert!(!text.contains("hunter2"));
    let back = Credential::from_json(&text).unwrap();
    assert_eq!(back.name, c.name);
    assert_eq!(back.account, c.account);
    assert_eq!(back.encrypted_password(), c.encrypted_password());
    assert_eq!(back.decrypt("k"), Ok("hunter2".to_string()));
}

#[test]
fn malformed_text_is_parse_error() {
    assert!(matches!(Credential::from_json("not json"), Err(StoreError::Parse)));
    assert!(matches!(Credential::from_json(r#"{"name":"n","account":"a"}"#), Err(StoreError::Parse)));
    assert!(matches!(
        Credential::from_json(r#"{"name":"n","account":7,"encrypted_password":"x"}"#),
        Err(StoreError::Parse)
    ));
}

#[test]
fn paths_of_a_repository() {
    let r = repo();
    assert_eq!(r.credentials_dir(), "/srv/vault/credentials");
    assert_eq!(r.credential_path("work/email"), "/srv/vault/credentials/work/email.cred");
    assert_eq!(r.locate("mail", true), Ok("/srv/vault/credentials/mail.cred".to_string()));
}

#[test]
fn init_fresh_then_again() {
    let r = repo();
    let plan = r.init(false).unwrap();
    assert_eq!(plan.root, "/srv/vault");
    assert_eq!(plan.credentials, "/srv/vault/credentials");
    assert!(matches!(r.init(true), Err(StoreError::AlreadyExists)));
}

#[test]
fn uninitialized_fails_not_found() {
    let r = repo();
    assert!(matches!(r.get(false, Ok(String::new())), Err(StoreError::NotFound)));
    assert!(matches!(r.list(false, &Vec::new()), Err(StoreError::NotFound)));
    assert!(matches!(r.set("mail", "alice", "s3cr3t", "pw1", false), Err(StoreError::NotFound)));
    assert_eq!(r.locate("mail", false), Err(StoreError::NotFound));
    assert_eq!(r.check_repo(false), Err(StoreError::NotFound));
    assert_eq!(r.check_repo(true), Ok(()));
}

#[test]
fn missing_credential_fails_not_found() {
    let r = repo();
    assert!(matches!(r.get(true, Err(StoreError::NotFound)), Err(StoreError::NotFound)));
    assert!(matches!(r.get(true, Err(StoreError::Io)), Err(StoreError::Io)));
}

#[test]
fn grouped_credential_is_listed_and_read_back() {
    let r = repo();
    let plan = r.set("a/b/c", "carol", "pa55", "key", true).unwrap();
    assert_eq!(plan.file, "/srv/vault/credentials/a/b/c.cred");
    assert_eq!(plan.group_dir, "/srv/vault/credentials/a/b");
    let tree = vec![group("a", vec![group("b", vec![file("c.cred")])])];
    let names = r.list(true, &tree).unwrap();
    assert!(names.contains(&"a/b/c".to_string()));
    let c = r.get(true, Ok(plan.contents)).unwrap();
    assert_eq!(c.name, "a/b/c");
    assert_eq!(c.account, "carol");
    assert_eq!(c.decrypt("key"), Ok("pa55".to_string()));
}

#[test]
fn list_is_depth_first_and_skips_other_files() {
    let r = repo();
    let tree = vec![
        file("top.cred"),
        group("g", vec![file("x.cred"), file("notes.txt"), group("h", vec![file("y.cred")])]),
        file("last.cred"),
        group("empty", vec![]),
    ];
    let names = r.list(true, &tree).unwrap();
    assert_eq!(names, vec!["top", "g/x", "g/h/y", "last"]);
    assert_eq!(r.list(true, &Vec::new()).unwrap(), Vec::<String>::new());
}

#[test]
fn mail_scenario() {
    let r = repo();
    let _plan = r.init(false).unwrap();
    let plan = r.set("mail", "alice", "s3cr3t", "pw1", true).unwrap();
    assert_eq!(plan.group_dir, "/srv/vault/credentials");
    let c = r.get(true, Ok(plan.contents)).unwrap();
    assert_eq!(c.decrypt("pw1"), Ok("s3cr3t".to_string()));
    assert_eq!(c.decrypt("pw2"), Err(StoreError::Decryption));
}

#[test]
fn set_twice_overwrites() {
    let r = repo();
    let first = r.set("mail", "alice", "one", "pw", true).unwrap();
    let second = r.set("mail", "alice", "two", "pw", true).unwrap();
    assert_eq!(first.file, second.file);
    let tree = vec![file("mail.cred")];
    let names = r.list(true, &tree).unwrap();
    assert_eq!(names.iter().filter(|n| n.as_str() == "mail").count(), 1);
    let c = r.get(true, Ok(second.contents)).unwrap();
    assert_eq!(c.decrypt("pw"), Ok("two".to_string()));
}

#[test]
fn serialized_record_has_only_three_fields() {
    let c = Credential::from_input("mail", "alice", "s3cr3t", "pw1");
    let text = c.as_json();
    let value: serde_json::Value = serde_json::from_str(&text).unwrap();
    let object = value.as_object().unwrap();
    let mut keys: Vec<&str> = object.keys().map(|k| k.as_str()).collect();
    keys.sort();
    assert_eq!(keys, vec!["account", "encrypted_password", "name"]);
    for v in object.values() {
        assert_ne!(v.as_str().unwrap(), "s3cr3t");
        assert_ne!(v.as_str().unwrap(), "pw1");
    }
    assert_eq!(object["encrypted_password"].as_str().unwrap(), c.encrypted_password());
}

#[test]
fn planned_record_holds_no_secret() {
    let plan = repo().set("work/db", "root", "tops3cret", "passphrase9", true).unwrap();
    let value: serde_json::Value = serde_json::from_str(&plan.contents).unwrap();
    let object = value.as_object().unwrap();
    assert_eq!(object.len(), 3);
    assert_eq!(object["name"].as_str().unwrap(), "work/db");
    assert_eq!(object["account"].as_str().unwrap(), "root");
    for v in object.values() {
        assert_ne!(v.as_str().unwrap(), "tops3cret");
        assert_ne!(v.as_str().unwrap(), "passphrase9");
    }
}
