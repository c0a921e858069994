use zerohub::render::fill_template_content;
use zerohub::{TemplateData, UserInfo};

fn data(u: &str, e: &str, n: &str, d: &str) -> TemplateData {
    TemplateData::from(UserInfo {
        username: u.to_string(),
        email: e.to_string(),
        project_name: n.to_string(),
        project_description: d.to_string(),
    })
}

#[test]
fn replaces_every_token() {
    let d = data("alice", "a@x.com", "My App", "demo");
    let out = fill_template_content(
        "u={{username}} e={{email}} n={{project_name}} d={{project_description}}",
        &d,
    );
    assert_eq!(out, "u=alice e=a@x.com n=My App d=demo");
}

#[test]
fn replaces_all_occurrences_of_a_token() {
    let d = data("bob", "b@x.com", "P", "D");
    let out = fill_template_content("{{username}}-{{username}}-{{username}}", &d);
    assert_eq!(out, "bob-bob-bob");
}

#[test]
fn license_scenario_contains_username() {
    let d = data("alice", "a@x.com", "My App", "demo");
    let license = "Copyright (c) {{username}} <{{email}}>\nAll rights reserved.";
    let out = fill_template_content(license, &d);
    assert_eq!(out, "Copyright (c) alice <a@x.com>\nAll rights reserved.");
    assert!(out.contains("alice"));
}

#[test]
fn text_without_tokens_is_unchanged() {
    let d = data("alice", "a@x.com", "My App", "demo");
    let content = "no placeholders here, just text";
    assert_eq!(fill_template_content(content, &d), content);
}

#[test]
fn malformed_token_is_left_untouched() {
    let d = data("alice", "a@x.com", "My App", "demo");
    assert_eq!(fill_template_content("{{username}", &d), "{{username}");
    assert_eq!(fill_template_content("{username}}", &d), "{username}}");
    assert_eq!(fill_template_content("{{user name}}", &d), "{{user name}}");
}

#[test]
fn empty_field_removes_token() {
    let d = data("", "a@x.com", "P", "D");
    assert_eq!(fill_template_content("[{{username}}]", &d), "[]");
}

#[test]
fn value_with_placeholder_text_is_not_reexpanded() {
    let d = data("alice", "x{{username}}y", "P", "D");
    let out = fill_template_content("A {{email}} B", &d);
    assert_eq!(out, "A x{{username}}y B");
}

#[test]
fn rendering_twice_changes_nothing_more() {
    let d = data("alice", "a@x.com", "My App", "demo");
    let content = "Hello {{username}}, welcome to {{project_name}}!";
    let once = fill_template_content(content, &d);
    let twice = fill_template_content(&once, &d);
    assert_eq!(once, "Hello alice, welcome to My App!");
    assert_eq!(twice, once);
}

#[test]
fn no_token_remains_when_fields_are_plain() {
    let d = data("alice", "a@x.com", "My App", "demo");
    let content = "{{username}}{{email}}{{project_name}}{{project_description}}";
    let out = fill_template_content(content, &d);
    assert!(!out.contains("{{username}}"));
    assert!(!out.contains("{{email}}"));
    assert!(!out.contains("{{project_name}}"));
    assert!(!out.contains("{{project_description}}"));
}

#[test]
fn adjacent_tokens_both_replaced() {
    let d = data("a", "b", "c", "d");
    assert_eq!(fill_template_content("{{username}}{{email}}", &d), "ab");
}

#[test]
fn token_at_start_and_end() {
    let d = data("u", "e", "n", "d");
    assert_eq!(fill_template_content("{{username}} mid {{email}}", &d), "u mid e");
}

#[test]
fn context_keeps_user_fields_and_generates_id() {
    let d = data("alice", "a@x.com", "My App", "demo");
    assert_eq!(d.username, "alice");
    assert_eq!(d.email, "a@x.com");
    assert_eq!(d.project_name, "My App");
    assert_eq!(d.project_description, "demo");
    assert_eq!(d.generated_id.chars().count(), 36);
    assert!(!d.timestamp.is_empty());
}

#[test]
fn unicode_content_and_values() {
    let d = data("ålice", "a@x.com", "Mün App", "démo");
    let out = fill_template_content("héllo {{username}} of {{project_name}}", &d);
    assert_eq!(out, "héllo ålice of Mün App");
}
