use idmail::errors::ProvisionError;
use idmail::secrets::{required_files, resolve_value, secret_file_path, FileMap};
use idmail::state::{Mailbox, State, User};
use idmail::table::Entry;

#[test]
fn file_reference_resolves_to_trimmed_contents() {
    let mut files = FileMap::new();
    files.insert("/tmp/x".to_string(), "secret\n".to_string());
    let r = resolve_value(&"%{file:/tmp/x}%".to_string(), &files);
    assert_eq!(r, Ok("secret".to_string()));
}

#[test]
fn literal_value_resolves_unchanged() {
    let files = FileMap::new();
    let r = resolve_value(&"secret".to_string(), &files);
    assert_eq!(r, Ok("secret".to_string()));
}

#[test]
fn unreadable_file_reference_fails() {
    let files = FileMap::new();
    let r = resolve_value(&"%{file:/tmp/x}%".to_string(), &files);
    assert_eq!(r, Err(ProvisionError::SecretFileUnreadable { path: "/tmp/x".to_string() }));
}

#[test]
fn trimming_removes_surrounding_whitespace_only() {
    let mut files = FileMap::new();
    files.insert("/a".to_string(), "  two words\t\r\n".to_string());
    files.insert("/b".to_string(), " \n\t ".to_string());
    files.insert("/c".to_string(), "clean".to_string());
    assert_eq!(resolve_value(&"%{file:/a}%".to_string(), &files), Ok("two words".to_string()));
    assert_eq!(resolve_value(&"%{file:/b}%".to_string(), &files), Ok("".to_string()));
    assert_eq!(resolve_value(&"%{file:/c}%".to_string(), &files), Ok("clean".to_string()));
}

#[test]
fn reference_shape_is_exact() {
    assert_eq!(secret_file_path(&"%{file:/p}%".to_string()), Some("/p".to_string()));
    assert_eq!(secret_file_path(&"%{file:}%".to_string()), Some("".to_string()));
    assert_eq!(secret_file_path(&"%{file:/p}".to_string()), None);
    assert_eq!(secret_file_path(&"{file:/p}%".to_string()), None);
    assert_eq!(secret_file_path(&"plain".to_string()), None);
    assert_eq!(secret_file_path(&"".to_string()), None);
}

#[test]
fn later_insert_overwrites_earlier_read() {
    let mut files = FileMap::new();
    files.insert("/tmp/x".to_string(), "one".to_string());
    files.insert("/tmp/x".to_string(), "two".to_string());
    assert_eq!(resolve_value(&"%{file:/tmp/x}%".to_string(), &files), Ok("two".to_string()));
}

#[test]
fn required_files_lists_every_reference() {
    let doc = State {
        users: vec![Entry {
            key: "alice".to_string(),
            val: User {
                password_hash: "%{file:/secrets/alice}%".to_string(),
                admin: false,
                active: true,
            },
        }],
        domains: Vec::new(),
        mailboxes: vec![Entry {
            key: "bob@example.com".to_string(),
            val: Mailbox {
                password_hash: "literal".to_string(),
                api_token: Some("%{file:/secrets/token}%".to_string()),
                active: true,
                owner: "alice".to_string(),
            },
        }],
        aliases: Vec::new(),
    };
    let paths = required_files(&doc);
    assert!(paths.contains(&"/secrets/alice".to_string()));
    assert!(paths.contains(&"/secrets/token".to_string()));
    assert_eq!(paths.len(), 2);
}
