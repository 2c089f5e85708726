//! Maps a byte range of a file's text to the line that holds it.
use vstd::prelude::*;
use vstd::string::StringSliceAdditionalSpecFns;
use vstd::utf8::*;

verus! {

broadcast use vstd::utf8::group_utf8_lib;

/// The newline byte.
pub const NEWLINE: u8 = 10;

/// The number of newline bytes in `b`.
pub open spec fn newline_count(b: Seq<u8>) -> nat
    decreases b.len(),
{
    if b.len() == 0 {
        0
    } else {
        newline_count(b.drop_last()) + if b.last() == NEWLINE { 1nat } else { 0nat }
    }
}

/// The offset at which the line holding offset `i` starts: just after the
/// nearest newline before `i`, or the start of the text.
pub open spec fn line_start(b: Seq<u8>, i: int) -> int
    decreases i,
{
    if i <= 0 {
        0
    } else if b[i - 1] == NEWLINE {
        i
    } else {
        line_start(b, i - 1)
    }
}

/// The offset at which the line holding offset `i` ends: the nearest newline
/// at or after `i`, or the end of the text.
pub open spec fn line_end(b: Seq<u8>, i: int) -> int
    decreases b.len() - i,
{
    if i >= b.len() {
        b.len() as int
    } else if b[i] == NEWLINE {
        i
    } else {
        line_end(b, i + 1)
    }
}

/// The 1-based number of the line holding offset `i`.
pub open spec fn line_number_of(b: Seq<u8>, i: int) -> int {
    newline_count(b.subrange(0, i)) + 1int
}

/// Where a byte range of a text lies, by line.
pub struct LinePosition {
    /// 1-based line number.
    pub line_number: usize,
    /// 0-based byte offset of the range's start within the line.
    pub column_start: usize,
    /// 0-based byte offset of the range's end within the line.
    pub column_end: usize,
    /// The whole line, without its newline.
    pub line_text: String,
}

pub proof fn lemma_line_start_bounds(b: Seq<u8>, i: int)
    requires
        0 <= i <= b.len(),
    ensures
        0 <= line_start(b, i) <= i,
        line_start(b, i) > 0 ==> b[line_start(b, i) - 1] == NEWLINE,
        forall|j: int| line_start(b, i) <= j < i ==> b[j] != NEWLINE,
    decreases i,
{
    if i > 0 && b[i - 1] != NEWLINE {
        lemma_line_start_bounds(b, i - 1);
    }
}

pub proof fn lemma_line_end_bounds(b: Seq<u8>, i: int)
    requires
        0 <= i <= b.len(),
    ensures
        i <= line_end(b, i) <= b.len(),
        line_end(b, i) < b.len() ==> b[line_end(b, i)] == NEWLINE,
        forall|j: int| i <= j < line_end(b, i) ==> b[j] != NEWLINE,
    decreases b.len() - i,
{
    if i < b.len() && b[i] != NEWLINE {
        lemma_line_end_bounds(b, i + 1);
    }
}

proof fn lemma_newline_count_concat(a: Seq<u8>, b: Seq<u8>)
    ensures
        newline_count(a + b) == newline_count(a) + newline_count(b),
    decreases b.len(),
{
    if b.len() > 0 {
        assert((a + b).drop_last() =~= a + b.drop_last());
        lemma_newline_count_concat(a, b.drop_last());
    }
}

proof fn lemma_newline_count_none(a: Seq<u8>)
    requires
        forall|j: int| 0 <= j < a.len() ==> a[j] != NEWLINE,
    ensures
        newline_count(a) == 0,
    decreases a.len(),
{
    if a.len() > 0 {
        lemma_newline_count_none(a.drop_last());
    }
}

/// In a text of three lines, a range that starts on the second line is
/// reported on line 2, with that line's text, whatever the other two hold.
pub proof fn lemma_second_line(first: Seq<u8>, second: Seq<u8>, third: Seq<u8>, i: int)
    requires
        forall|j: int| 0 <= j < first.len() ==> first[j] != NEWLINE,
        forall|j: int| 0 <= j < second.len() ==> second[j] != NEWLINE,
        first.len() + 1 <= i <= first.len() + 1 + second.len(),
    ensures
        ({
            let text = first + seq![NEWLINE] + second + seq![NEWLINE] + third;
            &&& line_number_of(text, i) == 2
            &&& line_start(text, i) == first.len() + 1
            &&& line_end(text, i) == first.len() + 1 + second.len()
            &&& text.subrange(line_start(text, i), line_end(text, i)) == second
        }),
{
    let text = first + seq![NEWLINE] + second + seq![NEWLINE] + third;
    let a = first.len() as int;
    let n = second.len() as int;
    assert(text[a] == NEWLINE);
    assert(text[a + 1 + n] == NEWLINE);
    assert forall|j: int| a + 1 <= j < a + 1 + n implies text[j] != NEWLINE by {
        assert(text[j] == second[j - a - 1]);
    }
    lemma_line_start_bounds(text, i);
    lemma_line_end_bounds(text, i);
    let ls = line_start(text, i);
    let le = line_end(text, i);
    if ls < a + 1 {
        assert(text[a] != NEWLINE);
    }
    if le > a + 1 + n {
        assert(text[a + 1 + n] != NEWLINE);
    }
    let before = text.subrange(0, i);
    let mid = second.subrange(0, i - a - 1);
    assert(before =~= first + seq![NEWLINE] + mid);
    lemma_newline_count_concat(first + seq![NEWLINE], mid);
    lemma_newline_count_concat(first, seq![NEWLINE]);
    lemma_newline_count_none(first);
    lemma_newline_count_none(mid);
    assert(seq![NEWLINE].drop_last() =~= Seq::<u8>::empty());
    assert(newline_count(Seq::<u8>::empty()) == 0);
    assert(newline_count(seq![NEWLINE]) == 1);
    assert(newline_count(before) == 1);
    assert(ls == a + 1);
    assert(le == a + 1 + n);
    assert(text.subrange(a + 1, a + 1 + n) =~= second);
}

proof fn lemma_newline_not_continuation()
    ensures
        !is_continuation_byte(NEWLINE),
{
}

/// A text split at a newline: the position just after the newline is a
/// character boundary of what follows it.
proof fn lemma_boundary_after_newline(t: Seq<u8>)
    requires
        valid_utf8(t),
        t.len() > 0,
        t[0] == NEWLINE,
    ensures
        is_char_boundary(t, 1),
{
    assert(length_of_first_scalar(t) == 1);
    reveal_with_fuel(is_char_boundary, 2);
}

/// Counts the newlines in the first `n` bytes of `b`.
fn count_newlines(b: &[u8], n: usize) -> (r: usize)
    requires
        n <= b.len(),
    ensures
        r == newline_count(b@.subrange(0, n as int)),
        r <= n,
{
    let mut c: usize = 0;
    let mut i: usize = 0;
    while i < n
        invariant
            i <= n <= b.len(),
            c == newline_count(b@.subrange(0, i as int)),
            c <= i,
        decreases n - i,
    {
        assert(b@.subrange(0, i + 1).drop_last() =~= b@.subrange(0, i as int));
        if b[i] == NEWLINE {
            c = c + 1;
        }
        i = i + 1;
    }
    c
}

/// The column, within a line that starts at file offset `line_start_in_file`,
/// of file offset `byte_index_in_file`; zero for an offset before the line.
pub fn calc_col_in_line(_line: &str, byte_index_in_file: usize, line_start_in_file: usize) -> (r: usize)
    ensures
        byte_index_in_file >= line_start_in_file ==> r == byte_index_in_file - line_start_in_file,
        byte_index_in_file < line_start_in_file ==> r == 0,
{
    byte_index_in_file.saturating_sub(line_start_in_file)
}

/// Locates the byte range `start..end` of `text`: the number of the line it
/// starts on, its columns within that line, and the line's full text.
pub fn locate(text: &str, start: usize, end: usize) -> (r: LinePosition)
    requires
        start < end <= text.spec_bytes().len(),
        end <= line_end(text.spec_bytes(), start as int),
    ensures
        r.line_number == line_number_of(text.spec_bytes(), start as int),
        r.column_start == start - line_start(text.spec_bytes(), start as int),
        r.column_end == end - line_start(text.spec_bytes(), start as int),
        encode_utf8(r.line_text@) == text.spec_bytes().subrange(
            line_start(text.spec_bytes(), start as int),
            line_end(text.spec_bytes(), start as int),
        ),
        r.column_start <= r.column_end <= encode_utf8(r.line_text@).len(),
{
    let b = text.as_bytes();
    let ghost bs = text.spec_bytes();
    proof {
        lemma_line_start_bounds(bs, start as int);
        lemma_line_end_bounds(bs, start as int);
        lemma_newline_not_continuation();
    }
    let mut ls: usize = start;
    while ls > 0 && b[ls - 1] != NEWLINE
        invariant
            ls <= start < b@.len(),
            b@ == bs,
            line_start(bs, ls as int) == line_start(bs, start as int),
        decreases ls,
    {
        ls = ls - 1;
    }
    let mut le: usize = start;
    while le < b.len() && b[le] != NEWLINE
        invariant
            start <= le <= b@.len(),
            b@ == bs,
            line_end(bs, le as int) == line_end(bs, start as int),
        decreases b.len() - le,
    {
        le = le + 1;
    }
    let count = count_newlines(b, start);

    // The line's text: cut at its end, then at its start.
    proof {
        if le < bs.len() {
            assert(is_char_boundary(bs, le as int));
        }
    }
    let (upto_end, _) = text.split_at(le);
    let line: &str = if ls == 0 {
        upto_end
    } else {
        let ghost ub = upto_end.spec_bytes();
        proof {
            assert(ub[ls - 1] == bs[ls - 1]);
            assert(is_char_boundary(ub, ls - 1));
        }
        let (_, from_newline) = upto_end.split_at(ls - 1);
        proof {
            lemma_boundary_after_newline(from_newline.spec_bytes());
        }
        let (_, rest) = from_newline.split_at(1);
        proof {
            assert(rest.spec_bytes() =~= bs.subrange(ls as int, le as int));
        }
        rest
    };
    proof {
        assert(line.spec_bytes() =~= bs.subrange(ls as int, le as int));
    }
    let column_start = calc_col_in_line(line, start, ls);
    let column_end = calc_col_in_line(line, end, ls);
    LinePosition { line_number: count + 1, column_start, column_end, line_text: line.to_owned() }
}

} // verus!
