use vstd::prelude::*;

use vstd::utf8::encode_utf8;

verus! {

/// Why a repackaging operation failed.
#[derive(Debug, Clone, Copy, PartialEq, Eq)]
pub enum ArchiveError {
    /// The baseline bytes could not be parsed as a zip archive.
    Unreadable,
    /// A baseline entry could not be read or decompressed.
    EntryCorrupt,
    /// The output archive could not be written.
    WriteFailed,
}

/// Whether the given bytes parse as a zip archive. Zip parsing reads the
/// bytes alone, so this is a function of the bytes.
pub uninterp spec fn archive_parses(bytes: Seq<u8>) -> bool;

/// The entries of a zip archive with the given bytes: each entry's name and
/// decompressed content, in central-directory order.
pub uninterp spec fn archive_entries_of(bytes: Seq<u8>) -> Seq<(Seq<char>, Seq<u8>)>;

/// Whether every entry of a parsed archive with these bytes can be read and
/// decompressed by the zip crate without a password. Reading an in-memory
/// archive is a function of the bytes alone.
pub uninterp spec fn entries_readable(bytes: Seq<u8>) -> bool;

/// A parsed zip archive held in memory by the zip crate.
#[verifier::external_body]
pub struct ArchiveReader {
    inner: zip::ZipArchive<std::io::Cursor<Vec<u8>>>,
}

/// What a parsed archive holds: each entry's name and decompressed content,
/// in order.
pub uninterp spec fn reader_entries(a: ArchiveReader) -> Seq<(Seq<char>, Seq<u8>)>;

/// Whether every entry of this parsed archive can be read and decompressed.
pub uninterp spec fn reader_readable(a: ArchiveReader) -> bool;

/// An in-memory zip archive being written by the zip crate.
#[verifier::external_body]
pub struct ArchiveWriter {
    inner: zip::ZipWriter<std::io::Cursor<Vec<u8>>>,
}

/// The entries written so far: each entry's name and uncompressed content,
/// in write order.
pub uninterp spec fn writer_entries(w: ArchiveWriter) -> Seq<(Seq<char>, Seq<u8>)>;

/// Relies on zip::ZipArchive::new over an in-memory cursor: parsing succeeds
/// or fails on the bytes alone, and a parsed archive holds the entries those
/// bytes describe. The reader keys its entry table by name, so the entries
/// it presents carry pairwise distinct names.
#[verifier::external_body]
fn open_archive(bytes: &Vec<u8>) -> (r: Result<ArchiveReader, ArchiveError>)
    ensures
        r is Ok <==> archive_parses(bytes@),
        r is Ok ==> reader_entries(r->Ok_0) == archive_entries_of(bytes@),
        r is Ok ==> (reader_readable(r->Ok_0) <==> entries_readable(bytes@)),
        r is Ok ==> distinct_names(archive_entries_of(bytes@)),
{
    match zip::ZipArchive::new(std::io::Cursor::new(bytes.clone())) {
        Ok(inner) => Ok(ArchiveReader { inner }),
        Err(_) => Err(ArchiveError::Unreadable),
    }
}

/// Relies on zip::ZipArchive::len: the number of entries in the archive.
#[verifier::external_body]
fn archive_len(a: &ArchiveReader) -> (n: usize)
    ensures
        n == reader_entries(*a).len(),
{
    a.inner.len()
}

/// Relies on zip::ZipArchive::by_index and std::io::Read::read_to_end:
/// reading entry `i` yields that entry's stored name and its decompressed
/// content, and leaves the archive's entries unchanged. Reading succeeds
/// whenever the archive's entries are readable at all, and failure modes
/// (encryption, an unsupported method, corrupt data) lie in the bytes alone.
#[verifier::external_body]
fn read_entry(a: &mut ArchiveReader, i: usize) -> (r: Result<(String, Vec<u8>), ArchiveError>)
    requires
        i < reader_entries(*old(a)).len(),
    ensures
        reader_entries(*final(a)) == reader_entries(*old(a)),
        reader_readable(*final(a)) == reader_readable(*old(a)),
        r matches Ok(e) ==> (e.0@, e.1@) == reader_entries(*old(a))[i as int],
        r is Err ==> r->Err_0 == ArchiveError::EntryCorrupt,
        reader_readable(*old(a)) ==> r is Ok,
{
    let mut file = match a.inner.by_index(i) {
        Ok(f) => f,
        Err(_) => return Err(ArchiveError::EntryCorrupt),
    };
    let name = file.name().to_string();
    let mut buf: Vec<u8> = Vec::new();
    match std::io::Read::read_to_end(&mut file, &mut buf) {
        Ok(_) => Ok((name, buf)),
        Err(_) => Err(ArchiveError::EntryCorrupt),
    }
}

/// Relies on zip::ZipWriter::new: a fresh in-memory writer holds no entries.
#[verifier::external_body]
fn new_writer() -> (w: ArchiveWriter)
    ensures
        writer_entries(w) == Seq::<(Seq<char>, Seq<u8>)>::empty(),
{
    ArchiveWriter { inner: zip::ZipWriter::new(std::io::Cursor::new(Vec::new())) }
}

/// Relies on zip::ZipWriter::start_file and std::io::Write::write_all: on
/// success, one entry with the given name (stored verbatim) and content,
/// deflate-compressed, is appended after the entries already written. The
/// in-memory writer fails only on a duplicate name, a name too long for the
/// format's 16-bit length field, or an entry too large for its 32-bit size
/// fields (the size check of an entry can surface at the next write).
#[verifier::external_body]
fn write_entry(w: &mut ArchiveWriter, name: &String, content: &Vec<u8>) -> (r: Result<
    (),
    ArchiveError,
>)
    ensures
        r is Ok ==> writer_entries(*final(w)) == writer_entries(*old(w)).push((name@, content@)),
        r is Err ==> r->Err_0 == ArchiveError::WriteFailed,
        (!has_name(writer_entries(*old(w)), name@) && all_fit(writer_entries(*old(w)))
            && entry_fits((name@, content@))) ==> r is Ok,
{
    let options = zip::write::SimpleFileOptions::default().compression_method(
        zip::CompressionMethod::Deflated,
    );
    if w.inner.start_file(name.as_str(), options).is_err() {
        return Err(ArchiveError::WriteFailed);
    }
    match std::io::Write::write_all(&mut w.inner, content.as_slice()) {
        Ok(()) => Ok(()),
        Err(_) => Err(ArchiveError::WriteFailed),
    }
}

/// Relies on zip::ZipWriter::finish: the finished bytes form a zip archive
/// that parses back to exactly the entries that were written, in order, with
/// each entry's content recovered by decompression. Finishing an in-memory
/// writer fails only on an entry the format cannot hold (name past its
/// 16-bit length field, sizes past its 32-bit fields); wide directory
/// offsets are written in the format's extended form.
#[verifier::external_body]
fn finish_writer(w: ArchiveWriter) -> (r: Result<Vec<u8>, ArchiveError>)
    ensures
        r matches Ok(bytes) ==> archive_parses(bytes@) && archive_entries_of(bytes@)
            == writer_entries(w),
        r is Err ==> r->Err_0 == ArchiveError::WriteFailed,
        all_fit(writer_entries(w)) ==> r is Ok,
{
    match w.inner.finish() {
        Ok(cursor) => Ok(cursor.into_inner()),
        Err(_) => Err(ArchiveError::WriteFailed),
    }
}

/// One rendered template file destined for the output archive.
pub struct RenderedFile {
    pub name: String,
    pub content: Vec<u8>,
}

impl View for RenderedFile {
    type V = (Seq<char>, Seq<u8>);

    open spec fn view(&self) -> (Seq<char>, Seq<u8>) {
        (self.name@, self.content@)
    }
}

/// The entries that a sequence of rendered files stands for.
pub open spec fn entry_views(files: Seq<RenderedFile>) -> Seq<(Seq<char>, Seq<u8>)> {
    files.map_values(|f: RenderedFile| f@)
}

/// Whether some entry in `files` carries the given name.
pub open spec fn has_name(files: Seq<(Seq<char>, Seq<u8>)>, name: Seq<char>) -> bool {
    exists|j: int| 0 <= j < files.len() && files[j].0 == name
}

/// Whether an entry is within the archive format's plain limits: the name
/// fits the format's 16-bit length field, and the content is small enough
/// that its compressed form stays below the 32-bit size fields.
pub open spec fn entry_fits(e: (Seq<char>, Seq<u8>)) -> bool {
    encode_utf8(e.0).len() <= 0xffff && e.1.len() < 0x8000_0000
}

/// Whether every entry of the sequence is within the format's plain limits.
pub open spec fn all_fit(entries: Seq<(Seq<char>, Seq<u8>)>) -> bool {
    forall|k: int| 0 <= k < entries.len() ==> entry_fits(#[trigger] entries[k])
}

/// Whether no two entries of the sequence share a name.
pub open spec fn distinct_names(entries: Seq<(Seq<char>, Seq<u8>)>) -> bool {
    forall|j: int, k: int|
        0 <= j < k < entries.len() ==> (#[trigger] entries[j]).0 != (#[trigger] entries[k]).0
}

proof fn lemma_has_name_concat(
    a: Seq<(Seq<char>, Seq<u8>)>,
    b: Seq<(Seq<char>, Seq<u8>)>,
    name: Seq<char>,
)
    ensures
        has_name(a + b, name) == (has_name(a, name) || has_name(b, name)),
{
    if has_name(a + b, name) {
        let t = choose|t: int| 0 <= t < (a + b).len() && (a + b)[t].0 == name;
        if t < a.len() {
            assert(a[t].0 == name);
        } else {
            assert(b[t - a.len()].0 == name);
        }
    }
    if has_name(a, name) {
        let t = choose|t: int| 0 <= t < a.len() && a[t].0 == name;
        assert((a + b)[t].0 == name);
    }
    if has_name(b, name) {
        let t = choose|t: int| 0 <= t < b.len() && b[t].0 == name;
        assert((a + b)[a.len() + t].0 == name);
    }
}

proof fn lemma_fit_of_member(entries: Seq<(Seq<char>, Seq<u8>)>, e: (Seq<char>, Seq<u8>))
    requires
        all_fit(entries),
        entries.contains(e),
    ensures
        entry_fits(e),
{
    let t = choose|t: int| 0 <= t < entries.len() && entries[t] == e;
}

/// The baseline entries that survive repackaging: those whose name no
/// rendered file takes, in their original order. A rendered file shadows a
/// baseline entry of the same name, so that the output holds each name once.
pub open spec fn unshadowed(
    base: Seq<(Seq<char>, Seq<u8>)>,
    rendered: Seq<(Seq<char>, Seq<u8>)>,
) -> Seq<(Seq<char>, Seq<u8>)>
    decreases base.len(),
{
    if base.len() == 0 {
        Seq::empty()
    } else if has_name(rendered, base[0].0) {
        unshadowed(base.skip(1), rendered)
    } else {
        seq![base[0]] + unshadowed(base.skip(1), rendered)
    }
}

/// What repackaging produces: the unshadowed baseline entries followed by
/// the rendered files in caller-supplied order.
pub open spec fn repackaged(
    base: Seq<(Seq<char>, Seq<u8>)>,
    rendered: Seq<(Seq<char>, Seq<u8>)>,
) -> Seq<(Seq<char>, Seq<u8>)> {
    unshadowed(base, rendered) + rendered
}

proof fn lemma_unshadowed_elems(
    base: Seq<(Seq<char>, Seq<u8>)>,
    rendered: Seq<(Seq<char>, Seq<u8>)>,
)
    ensures
        forall|k: int|
            0 <= k < unshadowed(base, rendered).len() ==> base.contains(
                #[trigger] unshadowed(base, rendered)[k],
            ) && !has_name(rendered, unshadowed(base, rendered)[k].0),
    decreases base.len(),
{
    if base.len() != 0 {
        lemma_unshadowed_elems(base.skip(1), rendered);
        assert forall|k: int|
            0 <= k < unshadowed(base, rendered).len() implies base.contains(
            #[trigger] unshadowed(base, rendered)[k],
        ) && !has_name(rendered, unshadowed(base, rendered)[k].0) by {
            if !has_name(rendered, base[0].0) && k == 0 {
                assert(unshadowed(base, rendered)[0] == base[0]);
                assert(base[0] == base[0]);
            } else {
                let x = unshadowed(base, rendered)[k];
                if has_name(rendered, base[0].0) {
                    assert(x == unshadowed(base.skip(1), rendered)[k]);
                } else {
                    assert(x == unshadowed(base.skip(1), rendered)[k - 1]);
                }
                assert(base.skip(1).contains(x));
                let t = choose|t: int| 0 <= t < base.skip(1).len() && base.skip(1)[t] == x;
                assert(base[t + 1] == x);
            }
        }
    }
}

/// Checks whether some rendered file carries the given name.
fn name_in_rendered(rendered: &Vec<RenderedFile>, name: &String) -> (b: bool)
    ensures
        b == has_name(entry_views(rendered@), name@),
{
    let ghost views = entry_views(rendered@);
    let mut k: usize = 0;
    while k < rendered.len()
        invariant
            k <= rendered.len(),
            views == entry_views(rendered@),
            forall|j: int| 0 <= j < k ==> views[j].0 != name@,
        decreases rendered.len() - k,
    {
        if rendered[k].name == *name {
            assert(views[k as int].0 == name@);
            return true;
        }
        k += 1;
    }
    false
}

/// Reads the baseline archive and writes a new archive that holds every
/// baseline entry whose name no rendered file takes, in the baseline's
/// order, followed by the rendered files in the given order.
///
/// Fails with `Unreadable` exactly when the baseline bytes are no zip
/// archive; any read or write failure along the way aborts the operation
/// with no partial output.
#[verifier::loop_isolation(false)]
pub fn repackage(baseline: &Vec<u8>, rendered: &Vec<RenderedFile>) -> (r: Result<
    Vec<u8>,
    ArchiveError,
>)
    ensures
        r == Err::<Vec<u8>, ArchiveError>(ArchiveError::Unreadable) <==> !archive_parses(
            baseline@,
        ),
        r matches Ok(out) ==> archive_parses(out@) && archive_entries_of(out@) == repackaged(
            archive_entries_of(baseline@),
            entry_views(rendered@),
        ),
        (archive_parses(baseline@) && entries_readable(baseline@) && all_fit(
            archive_entries_of(baseline@),
        ) && distinct_names(entry_views(rendered@)) && all_fit(entry_views(rendered@))) ==> r
            is Ok,
{
    let mut reader = match open_archive(baseline) {
        Ok(a) => a,
        Err(e) => {
            return Err(ArchiveError::Unreadable);
        },
    };
    let ghost base = archive_entries_of(baseline@);
    let ghost rend = entry_views(rendered@);
    let ghost good = archive_parses(baseline@) && entries_readable(baseline@) && all_fit(base)
        && distinct_names(rend) && all_fit(rend);
    let mut writer = new_writer();
    let n = archive_len(&reader);
    proof {
        assert(base.skip(0) =~= base);
        assert(writer_entries(writer) + unshadowed(base, rend) =~= unshadowed(base, rend));
    }
    let mut i: usize = 0;
    while i < n
        invariant
            i <= n,
            reader_entries(reader) == base,
            reader_readable(reader) == entries_readable(baseline@),
            unshadowed(base, rend) == writer_entries(writer) + unshadowed(
                base.skip(i as int),
                rend,
            ),
            good ==> all_fit(writer_entries(writer)),
            good ==> forall|nm: Seq<char>| #[trigger]
                has_name(writer_entries(writer), nm) ==> exists|t: int|
                    0 <= t < i && base[t].0 == nm,
        decreases n - i,
    {
        let entry = match read_entry(&mut reader, i) {
            Ok(e) => e,
            Err(e) => {
                return Err(e);
            },
        };
        proof {
            assert(base.skip(i as int)[0] == base[i as int]);
            assert(base.skip(i as int).skip(1) =~= base.skip(i as int + 1));
        }
        let shadowed = name_in_rendered(rendered, &entry.0);
        if !shadowed {
            let ghost w0 = writer_entries(writer);
            match write_entry(&mut writer, &entry.0, &entry.1) {
                Ok(()) => {},
                Err(e) => {
                    proof {
                        if good {
                            assert(entry_fits(base[i as int]));
                            if has_name(w0, entry.0@) {
                                let t = choose|t: int| 0 <= t < i && base[t].0 == entry.0@;
                                assert(base[t].0 == base[i as int].0);
                            }
                            assert(false);
                        }
                    }
                    return Err(e);
                },
            }
            proof {
                assert(writer_entries(writer) + unshadowed(base.skip(i as int + 1), rend)
                    =~= unshadowed(base, rend));
                if good {
                    assert(entry_fits(base[i as int]));
                    assert forall|k: int|
                        0 <= k < writer_entries(writer).len() implies entry_fits(
                        #[trigger] writer_entries(writer)[k],
                    ) by {
                        if k < w0.len() {
                            assert(writer_entries(writer)[k] == w0[k]);
                        } else {
                            assert(writer_entries(writer)[k] == (entry.0@, entry.1@));
                        }
                    }
                    assert forall|nm: Seq<char>| #[trigger]
                        has_name(writer_entries(writer), nm) implies exists|t: int|
                        0 <= t < i + 1 && base[t].0 == nm by {
                        let u = choose|u: int|
                            0 <= u < writer_entries(writer).len() && writer_entries(writer)[u].0
                                == nm;
                        if u < w0.len() {
                            assert(w0[u].0 == nm);
                            assert(has_name(w0, nm));
                            let t = choose|t: int| 0 <= t < i && base[t].0 == nm;
                            assert(0 <= t < i + 1 && base[t].0 == nm);
                        } else {
                            assert(writer_entries(writer)[u] == (entry.0@, entry.1@));
                            assert(base[i as int].0 == nm);
                        }
                    }
                }
            }
        } else {
            proof {
                if good {
                    assert forall|nm: Seq<char>| #[trigger]
                        has_name(writer_entries(writer), nm) implies exists|t: int|
                        0 <= t < i + 1 && base[t].0 == nm by {
                        let t = choose|t: int| 0 <= t < i && base[t].0 == nm;
                        assert(0 <= t < i + 1 && base[t].0 == nm);
                    }
                }
            }
        }
        i += 1;
    }
    proof {
        assert(base.skip(n as int) =~= Seq::<(Seq<char>, Seq<u8>)>::empty());
        assert(writer_entries(writer) =~= unshadowed(base, rend));
        assert(unshadowed(base, rend) + rend.take(0) =~= unshadowed(base, rend));
    }
    let mut j: usize = 0;
    while j < rendered.len()
        invariant
            j <= rendered.len(),
            writer_entries(writer) == unshadowed(base, rend) + rend.take(j as int),
            good ==> all_fit(writer_entries(writer)),
        decreases rendered.len() - j,
    {
        let f = &rendered[j];
        let ghost w0 = writer_entries(writer);
        proof {
            assert(rend[j as int] == (f.name@, f.content@));
        }
        match write_entry(&mut writer, &f.name, &f.content) {
            Ok(()) => {},
            Err(e) => {
                proof {
                    if good {
                        assert(entry_fits(rend[j as int]));
                        if has_name(w0, f.name@) {
                            lemma_has_name_concat(
                                unshadowed(base, rend),
                                rend.take(j as int),
                                f.name@,
                            );
                            if has_name(unshadowed(base, rend), f.name@) {
                                let u = choose|u: int|
                                    0 <= u < unshadowed(base, rend).len() && unshadowed(
                                        base,
                                        rend,
                                    )[u].0 == f.name@;
                                lemma_unshadowed_elems(base, rend);
                                assert(!has_name(rend, unshadowed(base, rend)[u].0));
                                assert(rend[j as int].0 == f.name@);
                            } else {
                                let u = choose|u: int|
                                    0 <= u < rend.take(j as int).len() && rend.take(
                                        j as int,
                                    )[u].0 == f.name@;
                                assert(rend[u].0 == rend[j as int].0);
                            }
                        }
                        assert(false);
                    }
                }
                return Err(e);
            },
        }
        proof {
            assert(writer_entries(writer) =~= unshadowed(base, rend) + rend.take(j as int + 1));
            if good {
                assert forall|k: int|
                    0 <= k < writer_entries(writer).len() implies entry_fits(
                    #[trigger] writer_entries(writer)[k],
                ) by {
                    if k < w0.len() {
                        assert(writer_entries(writer)[k] == w0[k]);
                    } else {
                        assert(writer_entries(writer)[k] == rend[j as int]);
                        assert(entry_fits(rend[j as int]));
                    }
                }
            }
        }
        j += 1;
    }
    proof {
        assert(rend.take(rendered.len() as int) =~= rend);
    }
    finish_writer(writer)
}

/// The entries that a list of name and content pairs stands for.
pub open spec fn pair_views(v: Seq<(String, Vec<u8>)>) -> Seq<(Seq<char>, Seq<u8>)> {
    v.map_values(|e: (String, Vec<u8>)| (e.0@, e.1@))
}

/// Parses archive bytes and hands out every entry's name and decompressed
/// content, in order. Fails with `Unreadable` exactly when the bytes are no
/// zip archive, and succeeds whenever the bytes parse and every entry can be
/// read.
#[verifier::loop_isolation(false)]
pub fn list_entries(bytes: &Vec<u8>) -> (r: Result<Vec<(String, Vec<u8>)>, ArchiveError>)
    ensures
        r == Err::<Vec<(String, Vec<u8>)>, ArchiveError>(ArchiveError::Unreadable)
            <==> !archive_parses(bytes@),
        r matches Ok(v) ==> pair_views(v@) == archive_entries_of(bytes@),
        (archive_parses(bytes@) && entries_readable(bytes@)) ==> r is Ok,
{
    let mut reader = match open_archive(bytes) {
        Ok(a) => a,
        Err(e) => {
            return Err(ArchiveError::Unreadable);
        },
    };
    let ghost entries = archive_entries_of(bytes@);
    let n = archive_len(&reader);
    let mut out: Vec<(String, Vec<u8>)> = Vec::new();
    proof {
        assert(pair_views(out@) =~= entries.take(0));
    }
    let mut i: usize = 0;
    while i < n
        invariant
            i <= n,
            reader_entries(reader) == entries,
            reader_readable(reader) == entries_readable(bytes@),
            pair_views(out@) == entries.take(i as int),
        decreases n - i,
    {
        let entry = match read_entry(&mut reader, i) {
            Ok(e) => e,
            Err(e) => {
                return Err(e);
            },
        };
        out.push(entry);
        proof {
            assert(pair_views(out@) =~= entries.take(i as int + 1));
        }
        i += 1;
    }
    proof {
        assert(entries.take(n as int) =~= entries);
    }
    Ok(out)
}

/// Law: repackaging keeps the baseline. Every baseline entry whose name no
/// rendered file takes appears in the repackaged entry list, name and
/// content unchanged.
pub proof fn lemma_repackage_keeps_baseline(
    base: Seq<(Seq<char>, Seq<u8>)>,
    rendered: Seq<(Seq<char>, Seq<u8>)>,
    i: int,
)
    requires
        0 <= i < base.len(),
        !has_name(rendered, base[i].0),
    ensures
        repackaged(base, rendered).contains(base[i]),
    decreases base.len(),
{
    lemma_unshadowed_keeps(base, rendered, i);
    let j = choose|j: int|
        0 <= j < unshadowed(base, rendered).len() && unshadowed(base, rendered)[j] == base[i];
    assert(repackaged(base, rendered)[j] == base[i]);
}

proof fn lemma_unshadowed_keeps(
    base: Seq<(Seq<char>, Seq<u8>)>,
    rendered: Seq<(Seq<char>, Seq<u8>)>,
    i: int,
)
    requires
        0 <= i < base.len(),
        !has_name(rendered, base[i].0),
    ensures
        unshadowed(base, rendered).contains(base[i]),
    decreases base.len(),
{
    if i == 0 {
        assert(unshadowed(base, rendered)[0] == base[0]);
    } else {
        assert(base.skip(1)[i - 1] == base[i]);
        lemma_unshadowed_keeps(base.skip(1), rendered, i - 1);
        let j = choose|j: int|
            0 <= j < unshadowed(base.skip(1), rendered).len() && unshadowed(base.skip(1), rendered)[j]
                == base[i];
        if has_name(rendered, base[0].0) {
            assert(unshadowed(base, rendered)[j] == base[i]);
        } else {
            assert(unshadowed(base, rendered)[j + 1] == base[i]);
        }
    }
}

/// Law: when no rendered file shares a name with a baseline entry, the
/// repackaged entry list is exactly the baseline, in order and unchanged,
/// followed by the rendered files, in order.
pub proof fn lemma_repackage_disjoint_names(
    base: Seq<(Seq<char>, Seq<u8>)>,
    rendered: Seq<(Seq<char>, Seq<u8>)>,
)
    requires
        forall|k: int| 0 <= k < base.len() ==> !has_name(rendered, (#[trigger] base[k]).0),
    ensures
        unshadowed(base, rendered) == base,
        repackaged(base, rendered) == base + rendered,
    decreases base.len(),
{
    if base.len() == 0 {
        assert(unshadowed(base, rendered) =~= base);
    } else {
        assert(!has_name(rendered, base[0].0));
        assert forall|k: int|
            0 <= k < base.skip(1).len() implies !has_name(
            rendered,
            (#[trigger] base.skip(1)[k]).0,
        ) by {
            assert(base.skip(1)[k] == base[k + 1]);
        }
        lemma_repackage_disjoint_names(base.skip(1), rendered);
        assert(unshadowed(base, rendered) =~= base);
    }
}

/// Law: repackaging adds the rendered files. Each rendered file stands in
/// the repackaged entry list right after the surviving baseline entries, in
/// the order given.
pub proof fn lemma_repackage_has_rendered(
    base: Seq<(Seq<char>, Seq<u8>)>,
    rendered: Seq<(Seq<char>, Seq<u8>)>,
    j: int,
)
    requires
        0 <= j < rendered.len(),
    ensures
        repackaged(base, rendered)[unshadowed(base, rendered).len() + j] == rendered[j],
        repackaged(base, rendered).contains(rendered[j]),
{
    assert(repackaged(base, rendered)[unshadowed(base, rendered).len() + j] == rendered[j]);
}

} // verus!
