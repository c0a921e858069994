use vstd::prelude::*;

use vstd::string::StrSliceExecFns;
use vstd::string::StringExecFns;
use vstd::utf8::encode_utf8;

verus! {

/// The result of str::to_lowercase on a string with the given characters.
/// Unicode lowercasing is a function of the characters alone.
pub uninterp spec fn lower_of(s: Seq<char>) -> Seq<char>;

/// Relies on str::to_lowercase: the result depends on the characters alone,
/// and an empty string stays empty.
#[verifier::external_body]
fn lowercase(s: &String) -> (r: String)
    ensures
        r@ == lower_of(s@),
        s@.len() == 0 ==> r@.len() == 0,
{
    s.to_lowercase()
}

/// The given characters with every space turned into an underscore.
pub open spec fn underscored(s: Seq<char>) -> Seq<char> {
    s.map_values(|c: char| if c == ' ' { '_' } else { c })
}

/// The filename offered for a generated archive: the project name with
/// spaces replaced by underscores, lower-cased, with the variant's suffix.
pub open spec fn filename_spec(project_name: Seq<char>, client: bool) -> Seq<char> {
    lower_of(underscored(project_name)) + (if client {
        "-client.zip"@
    } else {
        ".zip"@
    })
}

/// Derives the download filename from the project name: spaces become
/// underscores, the result is lower-cased, and the variant's suffix is
/// appended (the client variant marks itself in the name).
#[verifier::loop_isolation(false)]
pub fn derive_filename(project_name: &String, client: bool) -> (r: String)
    ensures
        r@ == filename_spec(project_name@, client),
{
    let s = project_name.as_str();
    let n: usize = s.unicode_len();
    let mut t = String::new();
    proof {
        reveal_strlit("_");
        assert(t@ =~= underscored(s@).take(0));
    }
    let mut i: usize = 0;
    while i < n
        invariant
            i <= n,
            t@ == underscored(s@).take(i as int),
        decreases n - i,
    {
        let c = s.get_char(i);
        if c == ' ' {
            t.append("_");
        } else {
            let piece = s.substring_char(i, i + 1);
            proof {
                assert(piece@ =~= seq![s@[i as int]]);
            }
            t.append(piece);
        }
        proof {
            assert(t@ =~= underscored(s@).take(i as int + 1));
        }
        i += 1;
    }
    proof {
        assert(underscored(s@).take(n as int) =~= underscored(s@));
    }
    let mut r = lowercase(&t);
    if client {
        r.append("-client.zip");
    } else {
        r.append(".zip");
    }
    r
}

/// Whether a byte is an ASCII letter or digit; every other byte is
/// percent-encoded in a derived filename.
pub open spec fn is_ascii_alnum(b: u8) -> bool {
    (0x30 <= b && b <= 0x39) || (0x41 <= b && b <= 0x5a) || (0x61 <= b && b <= 0x7a)
}

/// The upper-case hex digit for a value below 16.
pub open spec fn hex_upper(d: u8) -> char
    recommends
        d < 16,
{
    if d < 10 {
        (0x30 + d) as char
    } else {
        (0x41 + (d - 10)) as char
    }
}

/// The percent-encoding of the given bytes with every byte outside the ASCII
/// letters and digits escaped as a percent sign and two upper-case hex
/// digits.
pub open spec fn percent_encoded(bytes: Seq<u8>) -> Seq<char>
    decreases bytes.len(),
{
    if bytes.len() == 0 {
        Seq::empty()
    } else {
        (if is_ascii_alnum(bytes[0]) {
            seq![bytes[0] as char]
        } else {
            seq!['%', hex_upper(bytes[0] / 16), hex_upper(bytes[0] % 16)]
        }) + percent_encoded(bytes.skip(1))
    }
}

/// Relies on percent_encoding::utf8_percent_encode with the set of all
/// non-alphanumeric ASCII bytes: each byte of the string's UTF-8 form that is
/// no ASCII letter or digit becomes a percent sign and two upper-case hex
/// digits; the others pass through.
#[verifier::external_body]
fn percent_encode_str(s: &String) -> (r: String)
    ensures
        r@ == percent_encoded(encode_utf8(s@)),
{
    percent_encoding::utf8_percent_encode(s.as_str(), percent_encoding::NON_ALPHANUMERIC)
        .to_string()
}

/// The filename as it stands in the download response's content-disposition:
/// derived from the project name, then percent-encoded so that a non-ASCII
/// name survives the header.
pub fn content_disposition_filename(project_name: &String, client: bool) -> (r: String)
    ensures
        r@ == percent_encoded(encode_utf8(filename_spec(project_name@, client))),
{
    let name = derive_filename(project_name, client);
    percent_encode_str(&name)
}

} // verus!
