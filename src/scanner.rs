//! Finds the forbidden logging calls in one file's text.
use vstd::prelude::*;
use vstd::string::StringSliceAdditionalSpecFns;
use vstd::utf8::encode_utf8;
use crate::path_filter::{allowed_location, is_allowed_path};
use crate::position::{line_end, line_number_of, line_start, locate, NEWLINE};

verus! {

/// The forbidden call: `log::` and a severity level, as a whole word.
pub const FORBIDDEN_PATTERN: &'static str = r"\blog::(info|warn|debug|trace)\b";

/// One forbidden call found in a file.
pub struct Violation {
    /// The path of the file, as it was given.
    pub file: String,
    /// 1-based line number of the call.
    pub line_number: usize,
    /// 0-based byte offset within the line where the call starts.
    pub column_start: usize,
    /// 0-based byte offset within the line just past the call.
    pub column_end: usize,
    /// The whole line, without its newline.
    pub line_text: String,
}

/// What a `Violation` says, with the line taken as bytes.
pub ghost struct ViolationView {
    pub file: Seq<char>,
    pub line_number: int,
    pub column_start: int,
    pub column_end: int,
    pub line_text: Seq<u8>,
}

impl ViolationView {
    /// The columns delimit a range of the line.
    pub open spec fn well_formed(self) -> bool {
        0 <= self.column_start <= self.column_end <= self.line_text.len() && self.line_number >= 1
    }
}

impl View for Violation {
    type V = ViolationView;

    open spec fn view(&self) -> ViolationView {
        ViolationView {
            file: self.file@,
            line_number: self.line_number as int,
            column_start: self.column_start as int,
            column_end: self.column_end as int,
            line_text: encode_utf8(self.line_text@),
        }
    }
}

/// The views of a sequence of violations.
pub open spec fn views(vs: Seq<Violation>) -> Seq<ViolationView> {
    vs.map_values(|v: Violation| v@)
}

/// The violation that the byte range `m` of text `b` in file `file` makes.
pub open spec fn violation_of(file: Seq<char>, b: Seq<u8>, m: (usize, usize)) -> ViolationView {
    ViolationView {
        file,
        line_number: line_number_of(b, m.0 as int),
        column_start: m.0 - line_start(b, m.0 as int),
        column_end: m.1 - line_start(b, m.0 as int),
        line_text: b.subrange(line_start(b, m.0 as int), line_end(b, m.0 as int)),
    }
}

/// The violations that the byte ranges `ms` of text `b` make, in order.
pub open spec fn violations_of(file: Seq<char>, b: Seq<u8>, ms: Seq<(usize, usize)>) -> Seq<
    ViolationView,
> {
    ms.map_values(|m: (usize, usize)| violation_of(file, b, m))
}

/// A non-empty byte range of `b` that lies within one line.
pub open spec fn within_one_line(b: Seq<u8>, m: (usize, usize)) -> bool {
    m.0 < m.1 <= b.len() && m.1 <= line_end(b, m.0 as int)
}

/// The ranges are in bounds, in order, and do not overlap.
pub open spec fn in_order(ms: Seq<(usize, usize)>, len: int) -> bool {
    &&& forall|i: int| 0 <= i < ms.len() ==> (#[trigger] ms[i]).0 <= ms[i].1 <= len
    &&& forall|i: int, j: int| 0 <= i < j < ms.len() ==> (#[trigger] ms[i]).1 <= (#[trigger] ms[j]).0
}

/// A byte that is an ASCII letter, digit or underscore, and so a word character.
pub open spec fn word_byte(c: u8) -> bool {
    ('a' as u8 <= c <= 'z' as u8) || ('A' as u8 <= c <= 'Z' as u8) || ('0' as u8 <= c <= '9' as u8)
        || c == '_' as u8
}

/// The bytes of a text made of ASCII characters.
pub open spec fn ascii(s: Seq<char>) -> Seq<u8> {
    s.map_values(|c: char| c as u8)
}

/// `log::` followed by one of the four severity levels.
pub open spec fn forbidden_token(t: Seq<u8>) -> bool {
    let prefix = seq!['l', 'o', 'g', ':', ':'];
    ||| t == ascii(prefix + seq!['i', 'n', 'f', 'o'])
    ||| t == ascii(prefix + seq!['w', 'a', 'r', 'n'])
    ||| t == ascii(prefix + seq!['d', 'e', 'b', 'u', 'g'])
    ||| t == ascii(prefix + seq!['t', 'r', 'a', 'c', 'e'])
}

/// The range `m` of `b` holds a forbidden token that no word character
/// touches on either side.
pub open spec fn forbidden_match(b: Seq<u8>, m: (usize, usize)) -> bool {
    &&& m.0 <= m.1 <= b.len()
    &&& forbidden_token(b.subrange(m.0 as int, m.1 as int))
    &&& (m.0 == 0 || !word_byte(b[m.0 - 1]))
    &&& (m.1 == b.len() || !word_byte(b[m.1 as int]))
}

/// A byte that the forbidden pattern's word boundary sees as a non-word
/// character by itself: an ASCII byte other than a letter, digit or `_`.
pub open spec fn ascii_non_word(c: u8) -> bool {
    c < 128 && !word_byte(c)
}

/// The range `s..e` of `b` holds a forbidden token, with the text's ends or
/// ASCII non-word bytes on both sides.
pub open spec fn delimited_token(b: Seq<u8>, s: int, e: int) -> bool {
    &&& 0 <= s <= e <= b.len()
    &&& forbidden_token(b.subrange(s, e))
    &&& (s == 0 || ascii_non_word(b[s - 1]))
    &&& (e == b.len() || ascii_non_word(b[e]))
}

/// The matches that a regular expression finds in a haystack, as byte ranges.
pub uninterp spec fn regex_find_all(pattern: Seq<char>, hay: Seq<u8>) -> Seq<(usize, usize)>;

#[verifier::external_type_specification]
#[verifier::external_body]
pub struct ExRegexError(regex::Error);

/// Relies on regex::bytes::Regex::new, which compiles `pattern` or fails, and
/// on regex::bytes::Regex::find_iter, which yields the successive
/// non-overlapping matches in `hay` from left to right. With the forbidden
/// pattern each match is one of its four tokens: `\b` is a Unicode word
/// boundary, and ASCII letters, digits and `_` are word characters. That
/// pattern is valid and small, so it compiles; and since no two of its tokens
/// can overlap, every token delimited by ASCII non-word bytes is found.
#[verifier::external_body]
fn find_all(pattern: &str, hay: &[u8]) -> (r: Result<Vec<(usize, usize)>, regex::Error>)
    ensures
        pattern@ == FORBIDDEN_PATTERN@ ==> r is Ok,
        r is Ok && pattern@ == FORBIDDEN_PATTERN@ ==> forall|s: int, e: int|
            #[trigger] delimited_token(hay@, s, e) ==> exists|i: int|
                0 <= i < r->Ok_0@.len() && r->Ok_0@[i] == (s as usize, e as usize),
        r is Ok ==> r->Ok_0@ == regex_find_all(pattern@, hay@),
        r is Ok ==> in_order(r->Ok_0@, hay@.len() as int),
        r is Ok && pattern@ == FORBIDDEN_PATTERN@ ==> forall|i: int|
            0 <= i < r->Ok_0@.len() ==> forbidden_match(hay@, #[trigger] r->Ok_0@[i]),
{
    regex::bytes::Regex::new(pattern).map(|re| re.find_iter(hay).map(|m| (m.start(), m.end())).collect())
}

proof fn lemma_line_end_reaches(b: Seq<u8>, i: int, e: int)
    requires
        0 <= i <= e <= b.len(),
        forall|j: int| i <= j < e ==> b[j] != NEWLINE,
    ensures
        e <= line_end(b, i),
    decreases e - i,
{
    if i < e {
        lemma_line_end_reaches(b, i + 1, e);
    } else {
        crate::position::lemma_line_end_bounds(b, i);
    }
}

/// A forbidden match is non-empty and holds no newline.
pub proof fn lemma_forbidden_within_one_line(b: Seq<u8>, m: (usize, usize))
    requires
        forbidden_match(b, m),
    ensures
        within_one_line(b, m),
{
    let t = b.subrange(m.0 as int, m.1 as int);
    assert(t.len() >= 9);
    assert forall|j: int| 0 <= j < t.len() implies t[j] != NEWLINE by {
        assert(t[j] != NEWLINE);
    }
    assert forall|j: int| m.0 <= j < m.1 implies b[j] != NEWLINE by {
        assert(b[j] == t[j - m.0]);
    }
    lemma_line_end_reaches(b, m.0 as int, m.1 as int);
}

/// The violations that the byte ranges `ms` of `text` make in the file at
/// `path`, one for each range and in the same order.
pub fn violations_from_matches(path: &str, text: &str, ms: &Vec<(usize, usize)>) -> (r: Vec<Violation>)
    requires
        forall|i: int| 0 <= i < ms@.len() ==> within_one_line(text.spec_bytes(), #[trigger] ms@[i]),
    ensures
        views(r@) == violations_of(path@, text.spec_bytes(), ms@),
        forall|i: int| 0 <= i < r@.len() ==> (#[trigger] r@[i])@.well_formed(),
{
    let ghost b = text.spec_bytes();
    let mut r: Vec<Violation> = Vec::new();
    let mut i: usize = 0;
    while i < ms.len()
        invariant
            i <= ms@.len(),
            b == text.spec_bytes(),
            forall|k: int| 0 <= k < ms@.len() ==> within_one_line(b, #[trigger] ms@[k]),
            views(r@) == violations_of(path@, b, ms@.subrange(0, i as int)),
            forall|k: int| 0 <= k < r@.len() ==> (#[trigger] r@[k])@.well_formed(),
        decreases ms@.len() - i,
    {
        let (s, e) = ms[i];
        assert(within_one_line(b, ms@[i as int]));
        let pos = locate(text, s, e);
        let v = Violation {
            file: path.to_owned(),
            line_number: pos.line_number,
            column_start: pos.column_start,
            column_end: pos.column_end,
            line_text: pos.line_text,
        };
        assert(v@ == violation_of(path@, b, ms@[i as int]));
        let ghost before = r@;
        r.push(v);
        proof {
            assert(views(r@) =~= views(before).push(v@));
            assert(violations_of(path@, b, ms@.subrange(0, i + 1)) =~= violations_of(
                path@,
                b,
                ms@.subrange(0, i as int),
            ).push(violation_of(path@, b, ms@[i as int])));
        }
        i = i + 1;
    }
    assert(ms@.subrange(0, ms@.len() as int) =~= ms@);
    r
}

/// The forbidden calls in `text`, reported for the file at `path`: one
/// violation for each match of the forbidden pattern, in order.
pub fn violations_in_text(path: &str, text: &str) -> (r: Vec<Violation>)
    ensures
        views(r@) == violations_of(
            path@,
            text.spec_bytes(),
            regex_find_all(FORBIDDEN_PATTERN@, text.spec_bytes()),
        ),
        forall|i: int| 0 <= i < r@.len() ==> (#[trigger] r@[i])@.well_formed(),
        forall|i: int|
            0 <= i < regex_find_all(FORBIDDEN_PATTERN@, text.spec_bytes()).len() ==> forbidden_match(
                text.spec_bytes(),
                #[trigger] regex_find_all(FORBIDDEN_PATTERN@, text.spec_bytes())[i],
            ),
        forall|s: int, e: int| #[trigger]
            delimited_token(text.spec_bytes(), s, e) ==> exists|i: int|
                0 <= i < regex_find_all(FORBIDDEN_PATTERN@, text.spec_bytes()).len()
                    && regex_find_all(FORBIDDEN_PATTERN@, text.spec_bytes())[i] == (s as usize, e as usize),
{
    match find_all(FORBIDDEN_PATTERN, text.as_bytes()) {
        Ok(ms) => {
            proof {
                assert forall|i: int| 0 <= i < ms@.len() implies within_one_line(
                    text.spec_bytes(),
                    #[trigger] ms@[i],
                ) by {
                    lemma_forbidden_within_one_line(text.spec_bytes(), ms@[i]);
                }
            }
            violations_from_matches(path, text, &ms)
        },
        Err(_) => Vec::new(),
    }
}

/// Scans the text of the file at `path` for forbidden calls. A path in the
/// allowed module gives none, whatever its text holds.
pub fn scan_text(path: &str, text: &str) -> (r: Vec<Violation>)
    ensures
        allowed_location(path.spec_bytes()) ==> r@.len() == 0,
        !allowed_location(path.spec_bytes()) ==> views(r@) == violations_of(
            path@,
            text.spec_bytes(),
            regex_find_all(FORBIDDEN_PATTERN@, text.spec_bytes()),
        ),
        forall|i: int| 0 <= i < r@.len() ==> (#[trigger] r@[i])@.well_formed(),
{
    if is_allowed_path(path) {
        Vec::new()
    } else {
        violations_in_text(path, text)
    }
}

} // verus!
