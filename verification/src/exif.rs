//! The attribute-extraction engine: the typed error taxonomy, the filter
//! policy (include-all, whitelist, blacklist), and the construction of the
//! attribute store from the metadata tool's raw output.

use std::sync::Arc;
use vstd::hash_map::StringHashMap;
use vstd::hash_set::StringHashSet;
use vstd::prelude::*;
use vstd::string::StringExecFns;

use crate::text::{
    contains_seq, contains_substr, lines_of, parse_line, split_lines, tag_of, trim_str, trimmed,
    value_of,
};

verus! {

/// The failure conditions of one extraction call, each a distinct,
/// caller-inspectable kind.
#[derive(Debug)]
pub enum ExifError {
    FileNotFound(String),
    TagError(String),
    ValueError(String),
    ExifToolError(String),
    FromUtf8Error(String),
    UncontrolledError(String),
}

impl ExifError {
    /// The text of this error: its kind's name, a separator, and its message.
    pub open spec fn describe_spec(&self) -> Seq<char> {
        match self {
            ExifError::FileNotFound(m) => "FileNotFound: "@ + m@,
            ExifError::TagError(m) => "TagError: "@ + m@,
            ExifError::ValueError(m) => "ValueError: "@ + m@,
            ExifError::ExifToolError(m) => "ExifToolError: "@ + m@,
            ExifError::FromUtf8Error(m) => "FromUtf8Error: "@ + m@,
            ExifError::UncontrolledError(m) => "UncontrolledError: "@ + m@,
        }
    }

    /// Renders the error as text, for callers that report it.
    pub fn describe(&self) -> (r: String)
        ensures
            r@ == self.describe_spec(),
    {
        match self {
            ExifError::FileNotFound(m) => String::from_str("FileNotFound: ").concat(m.as_str()),
            ExifError::TagError(m) => String::from_str("TagError: ").concat(m.as_str()),
            ExifError::ValueError(m) => String::from_str("ValueError: ").concat(m.as_str()),
            ExifError::ExifToolError(m) => String::from_str("ExifToolError: ").concat(m.as_str()),
            ExifError::FromUtf8Error(m) => String::from_str("FromUtf8Error: ").concat(m.as_str()),
            ExifError::UncontrolledError(m) => String::from_str("UncontrolledError: ").concat(
                m.as_str(),
            ),
        }
    }
}

/// An immutable set of tag names, shareable read-only across concurrent
/// extraction calls.
pub type List = Arc<StringHashSet>;

/// Collects the given tag names into a shareable filter set.
pub fn create_list_from_vec(tag_list: Vec<&str>) -> (r: List)
    ensures
        forall|t: Seq<char>| #[trigger]
            r@.contains(t) <==> (exists|i: int| 0 <= i < tag_list@.len() && tag_list@[i]@ == t),
{
    let mut list = StringHashSet::new();
    let mut i: usize = 0;
    while i < tag_list.len()
        invariant
            i <= tag_list@.len(),
            forall|t: Seq<char>| #[trigger]
                list@.contains(t) <==> (exists|j: int| 0 <= j < i && tag_list@[j]@ == t),
        decreases tag_list@.len() - i,
    {
        let element: &str = tag_list[i];
        list.insert(element.to_owned());
        i = i + 1;
    }
    Arc::new(list)
}

/// The filter policy: retain every tag, or filter by a whitelist or a
/// blacklist of tag names.
pub enum Mode {
    All,
    Whitelist(List),
    Blacklist(List),
}

/// Whether a line with the given (non-empty) normalized tag is retained.
pub open spec fn keeps(mode: &Mode, tag: Seq<char>) -> bool {
    match mode {
        Mode::All => true,
        Mode::Whitelist(list) => list@.contains(tag),
        Mode::Blacklist(list) => !list@.contains(tag),
    }
}

/// Whether scanning stops once a line with the given (non-empty) normalized
/// tag has been handled: a whitelist stops at the first non-member (which is
/// dropped), a blacklist stops right after the first non-member (which is
/// retained).
pub open spec fn stops(mode: &Mode, tag: Seq<char>) -> bool {
    match mode {
        Mode::All => false,
        Mode::Whitelist(list) => !list@.contains(tag),
        Mode::Blacklist(list) => !list@.contains(tag),
    }
}

/// The attribute store that scanning `lines` from position `i` onward adds to
/// the store `acc`: lines with an empty normalized tag are skipped, retained
/// pairs overwrite earlier values for the same tag, and the filter policy may
/// end the scan early.
pub open spec fn run_from(
    lines: Seq<Seq<char>>,
    mode: &Mode,
    i: int,
    acc: Map<Seq<char>, Seq<char>>,
) -> Map<Seq<char>, Seq<char>>
    decreases lines.len() - i,
{
    if i < 0 || i >= lines.len() {
        acc
    } else {
        let tag = tag_of(lines[i]);
        if tag.len() == 0 {
            run_from(lines, mode, i + 1, acc)
        } else {
            let acc2 = if keeps(mode, tag) {
                acc.insert(tag, value_of(lines[i]))
            } else {
                acc
            };
            if stops(mode, tag) {
                acc2
            } else {
                run_from(lines, mode, i + 1, acc2)
            }
        }
    }
}

/// The attribute store that one extraction call builds from the decoded
/// standard output `text` under the filter policy `mode`.
pub open spec fn parse_result(text: Seq<char>, mode: &Mode) -> Map<Seq<char>, Seq<char>> {
    run_from(lines_of(text), mode, 0, Map::empty())
}

/// The marker by which the tool's error channel reports a missing file.
pub open spec fn file_not_found_marker() -> Seq<char> {
    "Error: File not found -"@
}

/// The attribute store of one extraction call: a mapping from normalized tag
/// name to trimmed value.
pub struct Exif {
    pub attributes: StringHashMap<String>,
}

impl View for Exif {
    type V = Map<Seq<char>, Seq<char>>;

    open spec fn view(&self) -> Self::V {
        self.attributes@.map_values(|v: String| v@)
    }
}

impl Exif {
    /// An empty attribute store.
    pub fn default() -> (r: Self)
        ensures
            r@ == Map::<Seq<char>, Seq<char>>::empty(),
            r.attributes@ == Map::<Seq<char>, String>::empty(),
    {
        let r = Exif { attributes: StringHashMap::new() };
        proof {
            assert(r@ =~= Map::<Seq<char>, Seq<char>>::empty());
        }
        r
    }
}

fn from_lines(lines: &Vec<String>, mode: &Mode) -> (r: Exif)
    ensures
        r@ == run_from(lines.deep_view(), mode, 0, Map::empty()),
{
    let ghost lseq = lines.deep_view();
    let ghost full = run_from(lseq, mode, 0, Map::empty());
    let mut exif = Exif::default();
    let mut scanning = true;
    let mut i: usize = 0;
    while scanning && i < lines.len()
        invariant
            lseq == lines.deep_view(),
            i <= lseq.len(),
            scanning ==> full == run_from(lseq, mode, i as int, exif@),
            !scanning ==> full == exif@,
        decreases lseq.len() - i,
    {
        let line: &String = &lines[i];
        proof {
            assert(lseq[i as int] == line@);
        }
        let (tag, value) = parse_line(line.as_str());
        if tag.unicode_len() > 0 {
            let ghost t = tag@;
            let ghost before = exif@;
            let keep = match mode {
                Mode::All => true,
                Mode::Whitelist(list) => list.contains(tag.as_str()),
                Mode::Blacklist(list) => !list.contains(tag.as_str()),
            };
            let stop = match mode {
                Mode::All => false,
                Mode::Whitelist(list) => !list.contains(tag.as_str()),
                Mode::Blacklist(list) => !list.contains(tag.as_str()),
            };
            proof {
                assert(keep == keeps(mode, t));
                assert(stop == stops(mode, t));
            }
            if keep {
                let ghost v = value@;
                exif.attributes.insert(tag, value);
                proof {
                    assert(exif@ =~= before.insert(t, v));
                }
            }
            if stop {
                scanning = false;
            }
        }
        i = i + 1;
    }
    exif
}

impl Exif {
    /// Builds the attribute store from the decoded standard output and
    /// standard error of the metadata tool. When the error channel carries
    /// the file-not-found marker, that condition is reported instead of a
    /// store; every other decoded input yields a store.
    pub fn from_text(stdout_text: &str, stderr_text: &str, mode: &Mode) -> (r: Result<
        Exif,
        ExifError,
    >)
        ensures
            contains_seq(stderr_text@, file_not_found_marker()) ==> (r matches Err(
                ExifError::FileNotFound(m),
            ) && m@ == trimmed(stderr_text@)),
            !contains_seq(stderr_text@, file_not_found_marker()) ==> (r matches Ok(exif) && exif@
                == parse_result(stdout_text@, mode)),
    {
        let marker: &str = "Error: File not found -";
        if contains_substr(stderr_text, marker) {
            return Err(ExifError::FileNotFound(trim_str(stderr_text)));
        }
        let lines = split_lines(stdout_text);
        Ok(from_lines(&lines, mode))
    }
}

/// Declares std's `FromUtf8Error` (opaque here) so that the decoding wrapper
/// can return it and verified code can carry it to its own error kind.
#[verifier::external_type_specification]
#[verifier::external_body]
pub struct ExFromUtf8Error(std::string::FromUtf8Error);

/// The decoding of a byte sequence as UTF-8 text, where one exists.
pub uninterp spec fn utf8_decode_of(bytes: Seq<u8>) -> Option<Seq<char>>;

/// Relies on String::from_utf8: it succeeds exactly on valid UTF-8 input, and
/// the decoded text is a function of the bytes alone.
#[verifier::external_body]
fn decode_utf8(bytes: Vec<u8>) -> (r: Result<String, std::string::FromUtf8Error>)
    ensures
        r is Ok <==> utf8_decode_of(bytes@) is Some,
        r matches Ok(s) ==> utf8_decode_of(bytes@) == Some(s@),
{
    String::from_utf8(bytes)
}

impl Exif {
    /// Builds the attribute store from the captured standard output and
    /// standard error bytes of the metadata tool. A stream that is not valid
    /// UTF-8 is reported as a decoding error rather than decoded lossily;
    /// otherwise this behaves as `from_text` on the decoded streams.
    pub fn from_output(stdout: Vec<u8>, stderr: Vec<u8>, mode: &Mode) -> (r: Result<
        Exif,
        ExifError,
    >)
        ensures
            utf8_decode_of(stdout@) is None ==> r matches Err(ExifError::FromUtf8Error(_)),
            utf8_decode_of(stdout@) is Some && utf8_decode_of(stderr@) is None ==> r matches Err(
                ExifError::FromUtf8Error(_),
            ),
            (utf8_decode_of(stdout@) is Some && utf8_decode_of(stderr@) is Some) ==> ({
                let out_text = utf8_decode_of(stdout@).unwrap();
                let err_text = utf8_decode_of(stderr@).unwrap();
                &&& contains_seq(err_text, file_not_found_marker()) ==> (r matches Err(
                    ExifError::FileNotFound(m),
                ) && m@ == trimmed(err_text))
                &&& !contains_seq(err_text, file_not_found_marker()) ==> (r matches Ok(exif)
                    && exif@ == parse_result(out_text, mode))
            }),
    {
        let stdout_text = match decode_utf8(stdout) {
            Ok(text) => text,
            Err(err) => {
                return Err(ExifError::FromUtf8Error(err.to_string()));
            },
        };
        let stderr_text = match decode_utf8(stderr) {
            Ok(text) => text,
            Err(err) => {
                return Err(ExifError::FromUtf8Error(err.to_string()));
            },
        };
        Self::from_text(stdout_text.as_str(), stderr_text.as_str(), mode)
    }
}

} // verus!
