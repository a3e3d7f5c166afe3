//! Scanning file contents for the lines that a pattern matches.
use vstd::prelude::*;
use vstd::utf8::{decode_utf8, valid_utf8};
use crate::error::ScanError;
use crate::lines::{lines_of, split_lines, string_views};
use crate::pattern::{regex_is_match, regex_matches, Pattern};

verus! {

/// A line that the pattern matched: its zero-based index and its text,
/// without the line terminator.
#[derive(Debug, Clone, PartialEq, Eq)]
pub struct MatchRecord {
    pub line: usize,
    pub text: String,
}

impl View for MatchRecord {
    type V = (nat, Seq<char>);

    open spec fn view(&self) -> (nat, Seq<char>) {
        (self.line as nat, self.text@)
    }
}

/// The index and text of each record.
pub open spec fn record_views(rs: Seq<MatchRecord>) -> Seq<(nat, Seq<char>)> {
    rs.map_values(|r: MatchRecord| r@)
}

/// The lines `lines[k]` for which `hits[k]` holds, each with its index `k`,
/// in order.
pub open spec fn selected(lines: Seq<Seq<char>>, hits: Seq<bool>) -> Seq<(nat, Seq<char>)>
    decreases lines.len(),
{
    if lines.len() == 0 {
        seq![]
    } else {
        let k = lines.len() - 1;
        let prev = selected(lines.drop_last(), hits);
        if hits[k] {
            prev.push((k as nat, lines[k]))
        } else {
            prev
        }
    }
}

/// For each line, whether the pattern `p` matches it.
pub open spec fn hits_of(lines: Seq<Seq<char>>, p: Seq<char>) -> Seq<bool> {
    lines.map_values(|l: Seq<char>| regex_matches(p, l))
}

/// The lines of `lines` that the pattern `p` matches, with their indices.
pub open spec fn matching_lines(lines: Seq<Seq<char>>, p: Seq<char>) -> Seq<(nat, Seq<char>)> {
    selected(lines, hits_of(lines, p))
}

/// What a scan of the file contents `bytes` with the pattern `p` yields:
/// nothing when the bytes are not valid UTF-8, otherwise the matching lines
/// of the text they encode.
pub open spec fn scan_of(bytes: Seq<u8>, p: Seq<char>) -> Seq<(nat, Seq<char>)> {
    if valid_utf8(bytes) {
        matching_lines(lines_of(decode_utf8(bytes)), p)
    } else {
        seq![]
    }
}

/// What `scan` returns on `content` (`None` when the file could not be read).
pub open spec fn scan_result(content: Option<Seq<u8>>, p: Seq<char>) -> Result<
    Seq<(nat, Seq<char>)>,
    ScanError,
> {
    match content {
        None => Err(ScanError::IoError),
        Some(b) => Ok(scan_of(b, p)),
    }
}

/// The bytes of file contents that were read, or `None`.
pub open spec fn content_bytes(content: Option<Vec<u8>>) -> Option<Seq<u8>> {
    match content {
        Some(b) => Some(b@),
        None => None,
    }
}

/// The index and text of each record of a scan's result.
pub open spec fn result_view(r: Result<Vec<MatchRecord>, ScanError>) -> Result<
    Seq<(nat, Seq<char>)>,
    ScanError,
> {
    match r {
        Ok(v) => Ok(record_views(v@)),
        Err(e) => Err(e),
    }
}

/// Each selected entry is a line whose hit is set, with its own index and
/// text; every line whose hit is set is selected; indices strictly increase.
proof fn lemma_selected(lines: Seq<Seq<char>>, hits: Seq<bool>)
    requires
        hits.len() >= lines.len(),
    ensures
        forall|j: int|
            0 <= j < selected(lines, hits).len() ==> {
                let e = #[trigger] selected(lines, hits)[j];
                &&& e.0 < lines.len()
                &&& hits[e.0 as int]
                &&& e.1 == lines[e.0 as int]
            },
        forall|k: int|
            0 <= k < lines.len() && #[trigger] hits[k] ==> exists|j: int|
                0 <= j < selected(lines, hits).len() && #[trigger] selected(lines, hits)[j].0 == k,
        forall|i: int, j: int|
            0 <= i < j < selected(lines, hits).len() ==> #[trigger] selected(lines, hits)[i].0
                < #[trigger] selected(lines, hits)[j].0,
    decreases lines.len(),
{
    if lines.len() > 0 {
        let prefix = lines.drop_last();
        lemma_selected(prefix, hits);
        let r = selected(lines, hits);
        let prev = selected(prefix, hits);
        let n = lines.len() - 1;
        assert forall|j: int| 0 <= j < r.len() implies {
            let e = #[trigger] r[j];
            &&& e.0 < lines.len()
            &&& hits[e.0 as int]
            &&& e.1 == lines[e.0 as int]
        } by {
            if j < prev.len() {
                assert(r[j] == prev[j]);
                assert(prefix[prev[j].0 as int] == lines[prev[j].0 as int]);
            }
        }
        assert forall|k: int| 0 <= k < lines.len() && #[trigger] hits[k] implies exists|j: int|
            0 <= j < r.len() && #[trigger] r[j].0 == k by {
            if k < n {
                let j = choose|j: int| 0 <= j < prev.len() && #[trigger] prev[j].0 == k;
                assert(r[j] == prev[j]);
            } else {
                assert(r[prev.len() as int].0 == k);
            }
        }
        assert forall|i: int, j: int| 0 <= i < j < r.len() implies #[trigger] r[i].0
            < #[trigger] r[j].0 by {
            assert(r[i] == prev[i]);
            if j < prev.len() {
                assert(r[j] == prev[j]);
            }
        }
    }
}

/// A scan of valid UTF-8 text yields exactly the lines of the text that the
/// pattern matches: each record holds the index of a matching line and that
/// line's text, and every matching line has a record.
pub proof fn lemma_scan_complete(bytes: Seq<u8>, p: Seq<char>)
    requires
        valid_utf8(bytes),
    ensures
        forall|j: int|
            0 <= j < scan_of(bytes, p).len() ==> {
                let e = #[trigger] scan_of(bytes, p)[j];
                let ls = lines_of(decode_utf8(bytes));
                &&& e.0 < ls.len()
                &&& regex_matches(p, ls[e.0 as int])
                &&& e.1 == ls[e.0 as int]
            },
        forall|k: int|
            0 <= k < lines_of(decode_utf8(bytes)).len() && regex_matches(
                p,
                #[trigger] lines_of(decode_utf8(bytes))[k],
            ) ==> exists|j: int|
                0 <= j < scan_of(bytes, p).len() && #[trigger] scan_of(bytes, p)[j].0 == k,
{
    let ls = lines_of(decode_utf8(bytes));
    let hits = hits_of(ls, p);
    lemma_selected(ls, hits);
    assert(scan_of(bytes, p) == selected(ls, hits));
    assert forall|k: int| 0 <= k < ls.len() && regex_matches(p, #[trigger] ls[k]) implies exists|
        j: int,
    | 0 <= j < scan_of(bytes, p).len() && #[trigger] scan_of(bytes, p)[j].0 == k by {
        assert(hits[k]);
        let j = choose|j: int| 0 <= j < selected(ls, hits).len() && #[trigger] selected(ls, hits)[j].0 == k;
        assert(scan_of(bytes, p)[j].0 == k);
    }
}

/// The line indices of a scan's records strictly increase.
pub proof fn lemma_scan_ordered(bytes: Seq<u8>, p: Seq<char>)
    ensures
        forall|i: int, j: int|
            0 <= i < j < scan_of(bytes, p).len() ==> #[trigger] scan_of(bytes, p)[i].0
                < #[trigger] scan_of(bytes, p)[j].0,
{
    if valid_utf8(bytes) {
        let ls = lines_of(decode_utf8(bytes));
        lemma_selected(ls, hits_of(ls, p));
    }
}

/// Two scans of the same contents with the same pattern give the same
/// outcome: both fail alike, or both give records with equal lines and texts.
pub proof fn lemma_scan_repeatable(
    content: Option<Seq<u8>>,
    p: Seq<char>,
    r1: Result<Vec<MatchRecord>, ScanError>,
    r2: Result<Vec<MatchRecord>, ScanError>,
)
    requires
        result_view(r1) == scan_result(content, p),
        result_view(r2) == scan_result(content, p),
    ensures
        r1 is Ok <==> r2 is Ok,
        r1 matches Err(e1) ==> r2 == Err::<Vec<MatchRecord>, ScanError>(e1),
        (r1, r2) matches (Ok(a), Ok(b)) ==> a@.len() == b@.len() && forall|i: int|
            0 <= i < a@.len() ==> #[trigger] a@[i].line == b@[i].line && a@[i].text@
                == b@[i].text@,
{
    if let (Ok(a), Ok(b)) = (r1, r2) {
        assert(record_views(a@).len() == a@.len());
        assert(record_views(b@).len() == b@.len());
        assert forall|i: int| 0 <= i < a@.len() implies #[trigger] a@[i].line == b@[i].line
            && a@[i].text@ == b@[i].text@ by {
            assert(record_views(a@)[i] == a@[i]@);
            assert(record_views(b@)[i] == b@[i]@);
        }
    }
}

/// Relies on `String::from_utf8`: it fails exactly when the bytes are not
/// valid UTF-8, and otherwise holds the characters that they encode.
#[verifier::external_body]
fn decode_text(bytes: Vec<u8>) -> (r: Option<String>)
    ensures
        r is Some <==> valid_utf8(bytes@),
        r matches Some(s) ==> s@ == decode_utf8(bytes@),
{
    String::from_utf8(bytes).ok()
}

/// Records, in order, each line `lines[k]` for which `hits[k]` is true.
pub fn collect_matches(lines: &Vec<String>, hits: &Vec<bool>) -> (r: Vec<MatchRecord>)
    requires
        hits.len() == lines.len(),
    ensures
        record_views(r@) == selected(string_views(lines@), hits@),
{
    let ghost ls = string_views(lines@);
    let mut res: Vec<MatchRecord> = Vec::new();
    let mut i: usize = 0;
    while i < lines.len()
        invariant
            i <= lines.len(),
            hits.len() == lines.len(),
            ls == string_views(lines@),
            record_views(res@) == selected(ls.take(i as int), hits@),
        decreases lines.len() - i,
    {
        assert(ls.take(i as int + 1).drop_last() =~= ls.take(i as int));
        if hits[i] {
            let text = lines[i].clone();
            res.push(MatchRecord { line: i, text });
            assert(record_views(res@) =~= selected(ls.take(i as int + 1), hits@));
        }
        i = i + 1;
    }
    assert(ls.take(lines.len() as int) =~= ls);
    res
}

/// The records of the lines of `text` that `pattern` matches.
fn scan_text(text: &str, pattern: &Pattern) -> (r: Vec<MatchRecord>)
    ensures
        record_views(r@) == matching_lines(lines_of(text@), pattern@),
{
    let lines = split_lines(text);
    let ghost ls = string_views(lines@);
    let mut hits: Vec<bool> = Vec::new();
    let mut i: usize = 0;
    while i < lines.len()
        invariant
            i <= lines.len(),
            ls == string_views(lines@),
            hits@ == hits_of(ls, pattern@).take(i as int),
        decreases lines.len() - i,
    {
        let hit = regex_is_match(pattern, lines[i].as_str());
        hits.push(hit);
        assert(hits@ =~= hits_of(ls, pattern@).take(i as int + 1));
        i = i + 1;
    }
    assert(hits@ =~= hits_of(ls, pattern@));
    collect_matches(&lines, &hits)
}

/// The records of the lines that `pattern` matches in the file contents
/// `bytes`; none when the bytes are not valid UTF-8.
pub fn scan_bytes(bytes: Vec<u8>, pattern: &Pattern) -> (r: Vec<MatchRecord>)
    ensures
        record_views(r@) == scan_of(bytes@, pattern@),
        !valid_utf8(bytes@) ==> r@.len() == 0,
{
    match decode_text(bytes) {
        Some(text) => scan_text(text.as_str(), pattern),
        None => {
            let r: Vec<MatchRecord> = Vec::new();
            assert(record_views(r@) =~= seq![]);
            r
        },
    }
}

/// Scans the contents of a file, given as `None` when reading it failed.
/// A failed read gives `IoError` and no records.
pub fn scan(content: Option<Vec<u8>>, pattern: &Pattern) -> (r: Result<
    Vec<MatchRecord>,
    ScanError,
>)
    ensures
        result_view(r) == scan_result(content_bytes(content), pattern@),
        content is None ==> r == Err::<Vec<MatchRecord>, ScanError>(ScanError::IoError),
        content is Some ==> r is Ok,
{
    match content {
        None => Err(ScanError::IoError),
        Some(bytes) => Ok(scan_bytes(bytes, pattern)),
    }
}

} // verus!
