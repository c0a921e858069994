use zerohub::filename::{content_disposition_filename, derive_filename};

#[test]
fn server_filename_from_project_name() {
    assert_eq!(derive_filename(&"My App".to_string(), false), "my_app.zip");
}

#[test]
fn client_filename_from_project_name() {
    assert_eq!(derive_filename(&"My App".to_string(), true), "my_app-client.zip");
}

#[test]
fn spaces_and_uppercase_are_normalized() {
    assert_eq!(derive_filename(&"Cool Project".to_string(), false), "cool_project.zip");
    assert_eq!(derive_filename(&"Cool Project".to_string(), true), "cool_project-client.zip");
}

#[test]
fn already_plain_name_gets_only_the_suffix() {
    assert_eq!(derive_filename(&"demo".to_string(), false), "demo.zip");
}

#[test]
fn empty_project_name_still_yields_suffix() {
    assert_eq!(derive_filename(&"".to_string(), false), ".zip");
}

#[test]
fn several_spaces_each_become_underscores() {
    assert_eq!(derive_filename(&"a b  c".to_string(), false), "a_b__c.zip");
}

#[test]
fn content_disposition_percent_encodes_non_alphanumerics() {
    let enc = content_disposition_filename(&"My App".to_string(), false);
    assert_eq!(enc, "my%5Fapp%2Ezip");
}

#[test]
fn content_disposition_encodes_non_ascii_bytes() {
    let enc = content_disposition_filename(&"Tést".to_string(), false);
    assert_eq!(enc, "t%C3%A9st%2Ezip");
}
