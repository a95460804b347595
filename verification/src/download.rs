//! Filename handling for downloaded files: deriving a filename from the
//! request, sanitizing it against path traversal, and splitting it into
//! stem and extension so that alternative names can be generated when a
//! file of that name already exists.

use vstd::prelude::*;
use vstd::string::*;

use crate::text::chars_to_string;
use crate::text::decimal_chars;
use crate::text::ends_with;
use crate::text::rfind_char;
use crate::text::str_ends_with;
use crate::text::str_eq_str;
use crate::text::u64_to_string;

verus! {

broadcast use vstd::string::group_string_axioms;

/// Failure modes of a file download.
#[derive(Debug, Clone, PartialEq, Eq)]
pub enum DownloadError {
    /// Could not obtain the download directory.
    CouldNotObtainDirectory,
    /// Could not create the file on disk.
    CouldNotCreateFile,
    /// Could not download the file.
    DownloadError,
    /// Another failure, described by the carried text.
    CustomError(String),
}

/// The position of the last occurrence of `c` in `s`, if any.
pub open spec fn last_index_of(s: Seq<char>, c: char) -> Option<int>
    decreases s.len(),
{
    if s.len() == 0 {
        None
    } else if s[s.len() - 1] == c {
        Some(s.len() - 1)
    } else {
        last_index_of(s.drop_last(), c)
    }
}

proof fn lemma_last_index_of_some(s: Seq<char>, c: char, i: int)
    requires
        0 <= i < s.len(),
        s[i] == c,
        forall|j: int| i < j < s.len() ==> s[j] != c,
    ensures
        last_index_of(s, c) == Some(i),
    decreases s.len(),
{
    if i == s.len() - 1 {
    } else {
        assert(s.drop_last()[i] == c);
        lemma_last_index_of_some(s.drop_last(), c, i);
    }
}

proof fn lemma_last_index_of_none(s: Seq<char>, c: char)
    requires
        forall|j: int| 0 <= j < s.len() ==> s[j] != c,
    ensures
        last_index_of(s, c) is None,
    decreases s.len(),
{
    if s.len() > 0 {
        lemma_last_index_of_none(s.drop_last(), c);
    }
}

/// The extension of a filename that carries no recognized double
/// extension: everything from the last dot on, or empty without a dot.
pub open spec fn simple_extension(s: Seq<char>) -> Seq<char> {
    match last_index_of(s, '.') {
        Some(i) => s.subrange(i, s.len() as int),
        None => Seq::<char>::empty(),
    }
}

/// The extension of a filename, conserving the recognized double
/// extensions `.tar.gz`, `.tar.bz2` and `.tar.xz`.
pub open spec fn filename_extension(s: Seq<char>) -> Seq<char> {
    if ends_with(s, ".tar.gz"@) {
        ".tar.gz"@
    } else if ends_with(s, ".tar.bz2"@) {
        ".tar.bz2"@
    } else if ends_with(s, ".tar.xz"@) {
        ".tar.xz"@
    } else {
        simple_extension(s)
    }
}

/// Splits a filename into pure filename and extension, conserving double
/// file extensions (`.tar.gz`, `.tar.bz2`, `.tar.xz`). The two parts
/// always recompose to the input.
pub fn split_filename(filename: &str) -> (r: (String, String))
    ensures
        r.0@ + r.1@ == filename@,
        r.1@ == filename_extension(filename@),
{
    proof {
        reveal_strlit(".tar.gz");
        reveal_strlit(".tar.bz2");
        reveal_strlit(".tar.xz");
        assert(".tar.gz"@.len() == 7);
        assert(".tar.bz2"@.len() == 8);
        assert(".tar.xz"@.len() == 7);
    }
    let n = filename.unicode_len();
    let ext_len: usize = if str_ends_with(filename, ".tar.gz") {
        7
    } else if str_ends_with(filename, ".tar.bz2") {
        8
    } else if str_ends_with(filename, ".tar.xz") {
        7
    } else {
        match rfind_char(filename, '.') {
            Some(i) => {
                proof {
                    lemma_last_index_of_some(filename@, '.', i as int);
                }
                n - i
            },
            None => {
                proof {
                    lemma_last_index_of_none(filename@, '.');
                }
                0
            },
        }
    };
    let pure_filename = String::from_str(filename.substring_char(0, n - ext_len));
    let extension = String::from_str(filename.substring_char(n - ext_len, n));
    proof {
        assert(pure_filename@ + extension@ =~= filename@);
        assert(extension@ =~= filename_extension(filename@));
    }
    (pure_filename, extension)
}

/// True of the characters that sanitizing removes outright: control
/// characters, path separators, and the other path-special characters.
pub open spec fn is_dropped_char(c: char) -> bool {
    (c as u32) < 32 || c == '/' || c == '\\' || c == ':' || c == '~' || c == '@' || c == '?' || c
        == '[' || c == ']'
}

/// `s` with every dropped character removed, order otherwise kept.
pub open spec fn without_dropped(s: Seq<char>) -> Seq<char>
    decreases s.len(),
{
    if s.len() == 0 {
        Seq::<char>::empty()
    } else if is_dropped_char(s.last()) {
        without_dropped(s.drop_last())
    } else {
        without_dropped(s.drop_last()).push(s.last())
    }
}

/// `s` with each non-overlapping `..` pair removed, scanning left to
/// right.
pub open spec fn without_dotdot(s: Seq<char>) -> Seq<char>
    decreases s.len(),
{
    if s.len() >= 2 && s[0] == '.' && s[1] == '.' {
        without_dotdot(s.skip(2))
    } else if s.len() >= 1 {
        seq![s[0]] + without_dotdot(s.skip(1))
    } else {
        Seq::<char>::empty()
    }
}

/// The sanitized form of a filename: dropped characters removed, then
/// every `..` pair removed.
pub open spec fn sanitized(s: Seq<char>) -> Seq<char> {
    without_dotdot(without_dropped(s))
}

fn is_dropped(c: char) -> (r: bool)
    ensures
        r == is_dropped_char(c),
{
    (c as u32) < 32 || c == '/' || c == '\\' || c == ':' || c == '~' || c == '@' || c == '?' || c
        == '[' || c == ']'
}

/// Removes control characters, path separators and path traversal (`..`)
/// sequences from a filename, so that the result stays inside the
/// directory it is joined to.
pub fn remove_path_traversal(filename: &str) -> (r: String)
    ensures
        r@ == sanitized(filename@),
{
    let n = filename.unicode_len();
    let mut kept: Vec<char> = Vec::new();
    let mut i: usize = 0;
    while i < n
        invariant
            i <= n,
            n == filename@.len(),
            kept@ == without_dropped(filename@.take(i as int)),
        decreases n - i,
    {
        let c = filename.get_char(i);
        proof {
            assert(filename@.take(i + 1).drop_last() =~= filename@.take(i as int));
            assert(filename@.take(i + 1).last() == filename@[i as int]);
        }
        if !is_dropped(c) {
            kept.push(c);
        }
        i += 1;
    }
    proof {
        assert(filename@.take(n as int) =~= filename@);
    }
    let mut out: Vec<char> = Vec::new();
    let mut j: usize = 0;
    proof {
        assert(kept@.skip(0) =~= kept@);
        assert(out@ + without_dotdot(kept@) =~= without_dotdot(kept@));
    }
    while j < kept.len()
        invariant
            j <= kept.len(),
            without_dotdot(kept@) == out@ + without_dotdot(kept@.skip(j as int)),
        decreases kept.len() - j,
    {
        if j + 1 < kept.len() && kept[j] == '.' && kept[j + 1] == '.' {
            proof {
                assert(kept@.skip(j as int).skip(2) =~= kept@.skip(j + 2));
            }
            j += 2;
        } else {
            out.push(kept[j]);
            proof {
                assert(kept@.skip(j as int).skip(1) =~= kept@.skip(j + 1));
                assert(out@ =~= (out@.drop_last()) + seq![kept@[j as int]]);
            }
            j += 1;
        }
    }
    proof {
        assert(kept@.skip(kept@.len() as int) =~= Seq::<char>::empty());
        assert(out@ =~= without_dotdot(kept@));
    }
    chars_to_string(&out)
}

/// A name for what `percent_encoding::percent_decode` followed by lossy
/// UTF-8 decoding yields on the given characters.
pub uninterp spec fn percent_decoded(s: Seq<char>) -> Seq<char>;

/// Relies on `percent_encoding::percent_decode`: every `%` followed by
/// two hex digits becomes the named byte, the result is decoded as UTF-8
/// lossily, and an input without a percent-encoded sequence is returned
/// unchanged.
#[verifier::external_body]
fn percent_decode_lossy(s: &str) -> (r: String)
    ensures
        r@ == percent_decoded(s@),
        (forall|i: int| 0 <= i < s@.len() ==> s@[i] != '%') ==> r@ == s@,
{
    percent_encoding::percent_decode(s.as_bytes()).decode_utf8_lossy().into_owned()
}

/// The characters after the last `/` of a URL, the whole URL without one.
pub open spec fn url_tail(url: Seq<char>) -> Seq<char> {
    match last_index_of(url, '/') {
        Some(i) => url.subrange(i + 1, url.len() as int),
        None => url,
    }
}

/// The filename a download is stored under, before uniqueness against
/// the download directory is enforced: the caller-supplied name when one
/// was given, else the percent-decoded tail of the URL; sanitized; and
/// `File` when nothing usable is left.
pub open spec fn derived_filename(url: Seq<char>, filename: Seq<char>) -> Seq<char> {
    let base = if filename.len() == 0 || filename == "undefined"@ {
        percent_decoded(url_tail(url))
    } else {
        filename
    };
    let cleaned = sanitized(base);
    if cleaned.len() == 0 {
        "File"@
    } else {
        cleaned
    }
}

/// Chooses and sanitizes the filename for a download of `url` requested
/// under `filename`, which may be empty or the literal `undefined` when
/// the caller had none to offer.
pub fn derive_filename(url: &str, filename: &str) -> (r: String)
    ensures
        r@ == derived_filename(url@, filename@),
{
    let use_url = filename.unicode_len() == 0 || str_eq_str(filename, "undefined");
    let base: String = if use_url {
        let n = url.unicode_len();
        let tail: &str = match rfind_char(url, '/') {
            Some(i) => {
                proof {
                    lemma_last_index_of_some(url@, '/', i as int);
                }
                url.substring_char(i + 1, n)
            },
            None => {
                proof {
                    lemma_last_index_of_none(url@, '/');
                }
                url
            },
        };
        percent_decode_lossy(tail)
    } else {
        String::from_str(filename)
    };
    let cleaned = remove_path_traversal(base.as_str());
    if cleaned.unicode_len() == 0 {
        String::from_str("File")
    } else {
        cleaned
    }
}

/// The alternative filename tried when the plain one is already taken:
/// the stem, the attempt number in parentheses, then the extension.
pub fn candidate_filename(pure_filename: &str, extension: &str, index: u64) -> (r: String)
    ensures
        r@ == pure_filename@ + " ("@ + decimal_chars(index as nat) + ")"@ + extension@,
{
    let mut out = String::from_str(pure_filename);
    out.append(" (");
    let digits = u64_to_string(index);
    out.append(digits.as_str());
    out.append(")");
    out.append(extension);
    proof {
        assert(out@ =~= pure_filename@ + " ("@ + decimal_chars(index as nat) + ")"@ + extension@);
    }
    out
}

} // verus!
