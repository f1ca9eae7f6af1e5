use sparkpass::crypto::{default_iv, derive_key};
use sparkpass::errors::ErrorKind;
use sparkpass::store::{
    add_entry, copy_entry, enciphered_entry_path, keepass_record_to_entry, move_entry,
    remove_entry, select_line, show_entry, EntryKind, EntryLookup, RemoveAction,
};
use sparkpass::text::prepare_entry_path;
use sparkpass::transform::{transform_entry, transform_path, EncryptionParams};

#[test]
fn prepare_entry_path_trims_slashes() {
    assert_eq!(prepare_entry_path("/a/b/"), "a/b");
    assert_eq!(prepare_entry_path("///x///"), "x");
    assert_eq!(prepare_entry_path("plain"), "plain");
    assert_eq!(prepare_entry_path("///"), "");
    assert_eq!(prepare_entry_path(""), "");
}

#[test]
fn enciphered_path_joins_segment_blobs() {
    let key = derive_key("store key");
    let iv = default_iv();
    let params = EncryptionParams {
        key: &key,
        iv: &iv,
    };
    let joined = enciphered_entry_path(&params, "a/b");
    let blobs = transform_path(&params, "a/b");
    assert_eq!(joined, format!("{}/{}", blobs[0], blobs[1]));
}

#[test]
fn overwrite_protection() {
    // add(root, "x", "v1", overwrite=false) succeeds on a fresh store;
    // a second add without overwrite returns EntryExists and writes nothing,
    // so show still returns "v1".
    let key = derive_key("store key");
    let iv = default_iv();
    let params = EncryptionParams {
        key: &key,
        iv: &iv,
    };
    let first = add_entry(&params, "x", "v1", false, false).unwrap();
    // The caller stores first.content_blob under first.rel_path.
    let stored = first.content_blob.clone();
    let again = add_entry(&params, "x", "v2", false, true);
    assert_eq!(again.unwrap_err(), ErrorKind::EntryExists);
    let shown = show_entry(&params, EntryLookup::File(stored)).unwrap();
    assert_eq!(shown, "v1");
}

#[test]
fn add_with_overwrite_replaces() {
    let key = derive_key("store key");
    let iv = default_iv();
    let params = EncryptionParams {
        key: &key,
        iv: &iv,
    };
    let plan = add_entry(&params, "x", "v2", true, true).unwrap();
    assert_eq!(plan.rel_path, enciphered_entry_path(&params, "x"));
    assert_eq!(show_entry(&params, EntryLookup::File(plan.content_blob)).unwrap(), "v2");
}

#[test]
fn add_plan_carries_enciphered_path_and_blob() {
    let key = derive_key("store key");
    let iv = default_iv();
    let params = EncryptionParams {
        key: &key,
        iv: &iv,
    };
    let plan = add_entry(&params, "mail/google", "hunter2", false, false).unwrap();
    assert_eq!(plan.rel_path, enciphered_entry_path(&params, "mail/google"));
    assert_eq!(plan.content_blob, transform_entry(&params, "hunter2"));
}

#[test]
fn show_guards_directories_before_reading() {
    // A path that resolves to a directory is refused with IsDirectory; no
    // file contents are consulted.
    let key = derive_key("store key");
    let iv = default_iv();
    let params = EncryptionParams {
        key: &key,
        iv: &iv,
    };
    assert_eq!(
        show_entry(&params, EntryLookup::Directory).unwrap_err(),
        ErrorKind::IsDirectory
    );
}

#[test]
fn show_reports_missing_entries() {
    let key = derive_key("store key");
    let iv = default_iv();
    let params = EncryptionParams {
        key: &key,
        iv: &iv,
    };
    assert_eq!(show_entry(&params, EntryLookup::Missing).unwrap_err(), ErrorKind::NotFound);
}

#[test]
fn show_propagates_codec_errors() {
    let key = derive_key("store key");
    let iv = default_iv();
    let params = EncryptionParams {
        key: &key,
        iv: &iv,
    };
    assert_eq!(
        show_entry(&params, EntryLookup::File("no-delimiter".to_string())).unwrap_err(),
        ErrorKind::Malformed
    );
}

#[test]
fn remove_decisions() {
    assert_eq!(remove_entry(EntryKind::File, false).unwrap(), RemoveAction::RemoveFile);
    assert_eq!(remove_entry(EntryKind::Directory, true).unwrap(), RemoveAction::RemoveTree);
    assert_eq!(
        remove_entry(EntryKind::Directory, false).unwrap_err(),
        ErrorKind::IsDirectory
    );
    assert_eq!(
        remove_entry(EntryKind::Missing, false).unwrap(),
        RemoveAction::RemoveNothing
    );
}

#[test]
fn move_refuses_existing_destination_without_force() {
    let key = derive_key("store key");
    let iv = default_iv();
    let params = EncryptionParams {
        key: &key,
        iv: &iv,
    };
    assert_eq!(
        move_entry(&params, "old", "new", false, true).unwrap_err(),
        ErrorKind::EntryExists
    );
    let plan = move_entry(&params, "old", "new", true, true).unwrap();
    assert_eq!(plan.from_path, enciphered_entry_path(&params, "old"));
    assert_eq!(plan.to_path, enciphered_entry_path(&params, "new"));
}

#[test]
fn copy_refuses_directories_and_existing_destinations() {
    let key = derive_key("store key");
    let iv = default_iv();
    let params = EncryptionParams {
        key: &key,
        iv: &iv,
    };
    assert_eq!(
        copy_entry(&params, "a", "b", false, false, true).unwrap_err(),
        ErrorKind::EntryExists
    );
    assert_eq!(
        copy_entry(&params, "a", "b", false, true, false).unwrap_err(),
        ErrorKind::IsDirectory
    );
    let plan = copy_entry(&params, "a", "b", false, false, false).unwrap();
    assert_eq!(plan.from_path, enciphered_entry_path(&params, "a"));
    assert_eq!(plan.to_path, enciphered_entry_path(&params, "b"));
}

#[test]
fn select_line_picks_one_line() {
    assert_eq!(select_line("a\nb\nc", 0).unwrap(), "a");
    assert_eq!(select_line("a\nb\nc", 1).unwrap(), "b");
    assert_eq!(select_line("a\nb\nc", 2).unwrap(), "c");
    assert_eq!(select_line("a\nb\nc", 3), None);
    assert_eq!(select_line("a\nb\nc", -1).unwrap(), "a\nb\nc");
    assert_eq!(select_line("single", 0).unwrap(), "single");
}

#[test]
fn keepass_record_becomes_path_and_body() {
    let record = vec![
        "account".to_string(),
        "name".to_string(),
        "passwd".to_string(),
        "example.org".to_string(),
        "comment".to_string(),
    ];
    let (path, body) = keepass_record_to_entry(&record).unwrap();
    assert_eq!(path, "example.org/account");
    assert_eq!(body, "passwd\nname\nexample.org\naccount\ncomment\n");
}

#[test]
fn keepass_record_of_wrong_width_is_malformed() {
    let record = vec!["a".to_string(), "b".to_string(), "c".to_string(), "d".to_string()];
    assert_eq!(keepass_record_to_entry(&record).unwrap_err(), ErrorKind::Malformed);
}

#[test]
fn end_to_end_store_round_trip() {
    // add followed by show through a simulated store: the blob written for a
    // path deciphers back to the body that was added.
    let key = derive_key("round trip store");
    let iv = default_iv();
    let params = EncryptionParams {
        key: &key,
        iv: &iv,
    };
    let mut store: Vec<(String, String)> = Vec::new();
    let plan = add_entry(&params, "web/mail", "pa55", false, false).unwrap();
    store.push((plan.rel_path.clone(), plan.content_blob.clone()));
    let looked = store
        .iter()
        .find(|(p, _)| *p == enciphered_entry_path(&params, "web/mail"))
        .map(|(_, blob)| blob.clone());
    let lookup = match looked {
        Some(blob) => EntryLookup::File(blob),
        None => EntryLookup::Missing,
    };
    assert_eq!(show_entry(&params, lookup).unwrap(), "pa55");
}
