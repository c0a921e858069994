use vstd::prelude::*;

use crate::archive::{
    all_fit, archive_entries_of, archive_parses, distinct_names, entries_readable, entry_views,
    repackage, repackaged, ArchiveError, RenderedFile,
};
use crate::render::{fill_template_content, render_spec, FieldValues};
use crate::TemplateData;
use vstd::string::StrSliceExecFns;
use vstd::string::StringExecFns;
use vstd::utf8::encode_utf8;

verus! {

/// The entries the server variant adds: its license, its project manifest
/// and its readme, each rendered against the given field values.
pub open spec fn server_rendered(
    license: Seq<char>,
    pyproject: Seq<char>,
    readme: Seq<char>,
    v: FieldValues,
) -> Seq<(Seq<char>, Seq<u8>)> {
    seq![
        ("LICENSE"@, encode_utf8(render_spec(license, v))),
        ("pyproject.toml"@, encode_utf8(render_spec(pyproject, v))),
        ("README.md"@, encode_utf8(render_spec(readme, v))),
    ]
}

/// The entries the client variant adds: its license, its package manifest
/// and its readme, each rendered against the given field values.
pub open spec fn client_rendered(
    license: Seq<char>,
    package: Seq<char>,
    readme: Seq<char>,
    v: FieldValues,
) -> Seq<(Seq<char>, Seq<u8>)> {
    seq![
        ("LICENSE"@, encode_utf8(render_spec(license, v))),
        ("package.json"@, encode_utf8(render_spec(package, v))),
        ("README.md"@, encode_utf8(render_spec(readme, v))),
    ]
}

proof fn lemma_fixed_names_distinct()
    ensures
        "LICENSE"@ != "pyproject.toml"@,
        "LICENSE"@ != "README.md"@,
        "pyproject.toml"@ != "README.md"@,
        "LICENSE"@ != "package.json"@,
        "package.json"@ != "README.md"@,
{
    reveal_strlit("LICENSE");
    reveal_strlit("pyproject.toml");
    reveal_strlit("README.md");
    reveal_strlit("package.json");
    assert(("LICENSE"@).len() == 7);
    assert(("pyproject.toml"@).len() == 14);
    assert(("README.md"@).len() == 9);
    assert(("package.json"@).len() == 12);
}

/// Renders one template file under the given entry name.
fn rendered_file(name: &str, content: &str, data: &TemplateData) -> (r: RenderedFile)
    ensures
        r@ == (name@, encode_utf8(render_spec(content@, data@))),
{
    let filled = fill_template_content(content, data);
    RenderedFile { name: String::from_str(name), content: filled.as_str().as_bytes_vec() }
}

/// Builds the server variant's archive: every entry of the baseline archive
/// that the rendered files do not shadow, followed by the rendered license,
/// project manifest and readme. Fails with `Unreadable` exactly when the
/// baseline bytes are no zip archive.
pub fn create_server_zip(
    baseline: &Vec<u8>,
    license: &str,
    pyproject: &str,
    readme: &str,
    data: &TemplateData,
) -> (r: Result<Vec<u8>, ArchiveError>)
    ensures
        r == Err::<Vec<u8>, ArchiveError>(ArchiveError::Unreadable) <==> !archive_parses(
            baseline@,
        ),
        r matches Ok(out) ==> archive_parses(out@) && archive_entries_of(out@) == repackaged(
            archive_entries_of(baseline@),
            server_rendered(license@, pyproject@, readme@, data@),
        ),
        (archive_parses(baseline@) && entries_readable(baseline@) && all_fit(
            archive_entries_of(baseline@),
        ) && all_fit(server_rendered(license@, pyproject@, readme@, data@))) ==> r is Ok,
{
    let mut files: Vec<RenderedFile> = Vec::new();
    files.push(rendered_file("LICENSE", license, data));
    files.push(rendered_file("pyproject.toml", pyproject, data));
    files.push(rendered_file("README.md", readme, data));
    proof {
        assert(entry_views(files@) =~= server_rendered(license@, pyproject@, readme@, data@));
        lemma_fixed_names_distinct();
        let views = server_rendered(license@, pyproject@, readme@, data@);
        assert forall|j: int, k: int| 0 <= j < k < views.len() implies (#[trigger] views[j]).0
            != (#[trigger] views[k]).0 by {
            assert(views[0].0 == "LICENSE"@);
            assert(views[1].0 == "pyproject.toml"@);
            assert(views[2].0 == "README.md"@);
        }
    }
    repackage(baseline, &files)
}

/// Builds the client variant's archive: every entry of the baseline archive
/// that the rendered files do not shadow, followed by the rendered license,
/// package manifest and readme. Fails with `Unreadable` exactly when the
/// baseline bytes are no zip archive.
pub fn create_client_zip(
    baseline: &Vec<u8>,
    license: &str,
    package: &str,
    readme: &str,
    data: &TemplateData,
) -> (r: Result<Vec<u8>, ArchiveError>)
    ensures
        r == Err::<Vec<u8>, ArchiveError>(ArchiveError::Unreadable) <==> !archive_parses(
            baseline@,
        ),
        r matches Ok(out) ==> archive_parses(out@) && archive_entries_of(out@) == repackaged(
            archive_entries_of(baseline@),
            client_rendered(license@, package@, readme@, data@),
        ),
        (archive_parses(baseline@) && entries_readable(baseline@) && all_fit(
            archive_entries_of(baseline@),
        ) && all_fit(client_rendered(license@, package@, readme@, data@))) ==> r is Ok,
{
    let mut files: Vec<RenderedFile> = Vec::new();
    files.push(rendered_file("LICENSE", license, data));
    files.push(rendered_file("package.json", package, data));
    files.push(rendered_file("README.md", readme, data));
    proof {
        assert(entry_views(files@) =~= client_rendered(license@, package@, readme@, data@));
        lemma_fixed_names_distinct();
        let views = client_rendered(license@, package@, readme@, data@);
        assert forall|j: int, k: int| 0 <= j < k < views.len() implies (#[trigger] views[j]).0
            != (#[trigger] views[k]).0 by {
            assert(views[0].0 == "LICENSE"@);
            assert(views[1].0 == "package.json"@);
            assert(views[2].0 == "README.md"@);
        }
    }
    repackage(baseline, &files)
}

} // verus!
