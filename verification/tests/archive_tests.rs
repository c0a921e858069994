use zerohub::archive::{list_entries, repackage, ArchiveError, RenderedFile};
use zerohub::generate::{create_client_zip, create_server_zip};
use zerohub::render::fill_template_content;
use zerohub::{TemplateData, UserInfo};

fn make_zip(entries: &[(&str, &[u8])]) -> Vec<u8> {
    let mut w = zip::ZipWriter::new(std::io::Cursor::new(Vec::new()));
    let opts = zip::write::SimpleFileOptions::default()
        .compression_method(zip::CompressionMethod::Deflated);
    for (name, content) in entries {
        w.start_file(*name, opts).unwrap();
        std::io::Write::write_all(&mut w, content).unwrap();
    }
    w.finish().unwrap().into_inner()
}

fn rendered(name: &str, content: &[u8]) -> RenderedFile {
    RenderedFile { name: name.to_string(), content: content.to_vec() }
}

fn data(u: &str, e: &str, n: &str, d: &str) -> TemplateData {
    TemplateData::from(UserInfo {
        username: u.to_string(),
        email: e.to_string(),
        project_name: n.to_string(),
        project_description: d.to_string(),
    })
}

#[test]
fn repackage_keeps_every_baseline_entry() {
    let baseline = make_zip(&[
        ("a.txt", b"alpha"),
        ("sub/b.bin", &[0u8, 1, 2, 254, 255]),
        ("c.md", b"# gamma"),
    ]);
    let out = repackage(&baseline, &vec![rendered("new.txt", b"fresh")]).unwrap();
    let entries = list_entries(&out).unwrap();
    assert_eq!(entries.len(), 4);
    assert_eq!(entries[0].0, "a.txt");
    assert_eq!(entries[0].1, b"alpha");
    assert_eq!(entries[1].0, "sub/b.bin");
    assert_eq!(entries[1].1, vec![0u8, 1, 2, 254, 255]);
    assert_eq!(entries[2].0, "c.md");
    assert_eq!(entries[2].1, b"# gamma");
}

#[test]
fn repackage_appends_rendered_files_in_order() {
    let baseline = make_zip(&[("keep.txt", b"kept")]);
    let files = vec![rendered("one.txt", b"1"), rendered("two.txt", b"2")];
    let out = repackage(&baseline, &files).unwrap();
    let entries = list_entries(&out).unwrap();
    assert_eq!(entries.len(), 3);
    assert_eq!(entries[1].0, "one.txt");
    assert_eq!(entries[1].1, b"1");
    assert_eq!(entries[2].0, "two.txt");
    assert_eq!(entries[2].1, b"2");
}

#[test]
fn rendered_file_shadows_baseline_entry_of_same_name() {
    let baseline = make_zip(&[("LICENSE", b"old license"), ("keep.txt", b"kept")]);
    let out = repackage(&baseline, &vec![rendered("LICENSE", b"new license")]).unwrap();
    let entries = list_entries(&out).unwrap();
    assert_eq!(entries.len(), 2);
    assert_eq!(entries[0].0, "keep.txt");
    assert_eq!(entries[1].0, "LICENSE");
    assert_eq!(entries[1].1, b"new license");
}

#[test]
fn repackage_with_no_rendered_files_copies_baseline() {
    let baseline = make_zip(&[("x", b"1"), ("y", b"2")]);
    let out = repackage(&baseline, &vec![]).unwrap();
    let entries = list_entries(&out).unwrap();
    assert_eq!(entries.len(), 2);
    assert_eq!(entries[0].0, "x");
    assert_eq!(entries[1].0, "y");
}

#[test]
fn unreadable_baseline_is_rejected() {
    let garbage = vec![1u8, 2, 3, 4, 5, 6, 7, 8];
    assert_eq!(
        repackage(&garbage, &vec![rendered("a", b"x")]),
        Err(ArchiveError::Unreadable)
    );
    assert_eq!(list_entries(&garbage), Err(ArchiveError::Unreadable));
}

#[test]
fn empty_bytes_are_not_an_archive() {
    assert_eq!(repackage(&Vec::new(), &vec![]), Err(ArchiveError::Unreadable));
}

#[test]
fn corrupted_entry_data_is_reported() {
    let baseline = make_zip(&[("a.txt", b"some content that compresses")]);
    // Flip bytes inside the entry's compressed data, past the local header
    // and the name; the central directory at the end still parses.
    let mut broken = baseline.clone();
    let start = 30 + "a.txt".len();
    for b in &mut broken[start..start + 4] {
        *b ^= 0xff;
    }
    let r = repackage(&broken, &vec![]);
    assert!(r == Err(ArchiveError::EntryCorrupt) || r == Err(ArchiveError::Unreadable));
}

#[test]
fn duplicate_rendered_names_fail_the_write() {
    let baseline = make_zip(&[("keep.txt", b"kept")]);
    let files = vec![rendered("same.txt", b"1"), rendered("same.txt", b"2")];
    assert_eq!(repackage(&baseline, &files), Err(ArchiveError::WriteFailed));
}

#[test]
fn server_zip_holds_baseline_and_rendered_templates() {
    let d = data("alice", "a@x.com", "My App", "demo");
    let baseline = make_zip(&[("src/app.py", b"print('hi')")]);
    let license = "MIT for {{username}}";
    let pyproject = "name = \"{{project_name}}\"";
    let readme = "# {{project_name}}\n{{project_description}}";
    let out = create_server_zip(&baseline, license, pyproject, readme, &d).unwrap();
    let entries = list_entries(&out).unwrap();
    assert_eq!(entries.len(), 4);
    assert_eq!(entries[0].0, "src/app.py");
    assert_eq!(entries[1].0, "LICENSE");
    assert_eq!(entries[1].1, fill_template_content(license, &d).into_bytes());
    assert_eq!(entries[1].1, b"MIT for alice");
    assert_eq!(entries[2].0, "pyproject.toml");
    assert_eq!(entries[2].1, b"name = \"My App\"");
    assert_eq!(entries[3].0, "README.md");
    assert_eq!(entries[3].1, b"# My App\ndemo");
}

#[test]
fn client_zip_holds_baseline_and_rendered_templates() {
    let d = data("bob", "b@x.com", "Web", "front end");
    let baseline = make_zip(&[("index.html", b"<html></html>")]);
    let out = create_client_zip(
        &baseline,
        "ISC for {{username}}",
        "{\"name\": \"{{project_name}}\"}",
        "# {{project_name}}",
        &d,
    )
    .unwrap();
    let entries = list_entries(&out).unwrap();
    assert_eq!(entries.len(), 4);
    assert_eq!(entries[0].0, "index.html");
    assert_eq!(entries[1].0, "LICENSE");
    assert_eq!(entries[1].1, b"ISC for bob");
    assert_eq!(entries[2].0, "package.json");
    assert_eq!(entries[2].1, b"{\"name\": \"Web\"}");
    assert_eq!(entries[3].0, "README.md");
    assert_eq!(entries[3].1, b"# Web");
}

#[test]
fn identical_inputs_give_identical_entry_lists() {
    let d = data("alice", "a@x.com", "My App", "demo");
    let baseline = make_zip(&[("src/app.py", b"print('hi')"), ("docs/a.md", b"# a")]);
    let license = "MIT for {{username}}";
    let pyproject = "name = \"{{project_name}}\"";
    let readme = "# {{project_name}}";
    let once = create_server_zip(&baseline, license, pyproject, readme, &d).unwrap();
    let again = create_server_zip(&baseline, license, pyproject, readme, &d).unwrap();
    assert_eq!(list_entries(&once).unwrap(), list_entries(&again).unwrap());
}

#[test]
fn server_zip_on_unreadable_baseline_fails() {
    let d = data("alice", "a@x.com", "My App", "demo");
    let bad = vec![0u8; 16];
    assert_eq!(create_server_zip(&bad, "l", "p", "r", &d), Err(ArchiveError::Unreadable));
    assert_eq!(create_client_zip(&bad, "l", "p", "r", &d), Err(ArchiveError::Unreadable));
}

#[test]
fn output_is_readable_by_the_zip_crate_itself() {
    let baseline = make_zip(&[("a.txt", b"alpha")]);
    let out = repackage(&baseline, &vec![rendered("b.txt", b"beta")]).unwrap();
    let mut archive = zip::ZipArchive::new(std::io::Cursor::new(out)).unwrap();
    assert_eq!(archive.len(), 2);
    let mut buf = String::new();
    {
        let mut f = archive.by_index(1).unwrap();
        assert_eq!(f.name(), "b.txt");
        std::io::Read::read_to_string(&mut f, &mut buf).unwrap();
    }
    assert_eq!(buf, "beta");
}
