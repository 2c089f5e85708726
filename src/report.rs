//! What the report shows of the violations, and how the run ends.
use vstd::prelude::*;
use vstd::string::StringSliceAdditionalSpecFns;
use vstd::string::StringExecFns;
use vstd::utf8::*;
use colored::Colorize;

verus! {

broadcast use vstd::utf8::group_utf8_lib;

/// Lines longer than this many bytes get a notice after them.
pub const LONG_LINE_LIMIT: usize = 200;

/// The exit status of a run that found no violation.
pub const EXIT_CLEAN: i32 = 0;

/// The exit status of a run that found at least one violation.
pub const EXIT_VIOLATIONS: i32 = 1;

/// The exit status of a run that could not complete.
pub const EXIT_FAILED: i32 = 2;

/// The escape character that starts a terminal control sequence.
pub open spec fn escape_char() -> char {
    '\x1b'
}

/// The text holds no escape character.
pub open spec fn escape_free(s: Seq<char>) -> bool {
    forall|i: int| 0 <= i < s.len() ==> s[i] != escape_char()
}

/// The control sequence that turns on bold red.
pub open spec fn emphasis_start() -> Seq<char> {
    seq!['\x1b', '[', '1', ';', '3', '1', 'm']
}

/// The control sequence that resets all attributes.
pub open spec fn emphasis_end() -> Seq<char> {
    seq!['\x1b', '[', '0', 'm']
}

/// Relies on colored's `red().bold()` and its `Display`: the text comes out
/// unchanged when colouring is off, and between the bold-red sequence
/// `ESC[1;31m` and the reset sequence `ESC[0m` when it is on; only a reset
/// sequence inside the text is changed, and a text without an escape
/// character holds none.
#[verifier::external_body]
fn emphasize(s: &str) -> (r: String)
    ensures
        escape_free(s@) ==> r@ == s@ || r@ == emphasis_start() + s@ + emphasis_end(),
{
    s.red().bold().to_string()
}

/// The text of `line` with the byte range `col_start..col_end` set off for the
/// eye; what stands before and after it is kept as it is.
pub fn highlight_match(line: &str, col_start: usize, col_end: usize) -> (r: String)
    requires
        col_start <= col_end <= line.spec_bytes().len(),
        is_char_boundary(line.spec_bytes(), col_start as int),
        is_char_boundary(line.spec_bytes(), col_end as int),
    ensures
        ({
            let b = line.spec_bytes();
            let before = decode_utf8(b.subrange(0, col_start as int));
            let matched = decode_utf8(b.subrange(col_start as int, col_end as int));
            let after = decode_utf8(b.subrange(col_end as int, b.len() as int));
            &&& exists|e: Seq<char>| r@ == before + e + after
            &&& escape_free(matched) ==> r@ == before + matched + after || r@ == before + (
            emphasis_start() + matched + emphasis_end()) + after
        }),
{
    let ghost b = line.spec_bytes();
    let (before, rest) = line.split_at(col_start);
    let ghost rb = rest.spec_bytes();
    proof {
        encode_utf8_valid_utf8(line@);
        encode_utf8_valid_utf8(rest@);
        assert(rb =~= b.subrange(col_start as int, b.len() as int));
        if col_end < b.len() {
            assert(rb[col_end - col_start] == b[col_end as int]);
            is_char_boundary_iff_not_is_continuation_byte(b, col_end as int);
            is_char_boundary_iff_not_is_continuation_byte(rb, col_end - col_start);
        } else {
            is_char_boundary_start_end_of_seq(rb);
        }
    }
    let (matched, after) = rest.split_at(col_end - col_start);
    proof {
        assert(matched.spec_bytes() =~= b.subrange(col_start as int, col_end as int));
        assert(after.spec_bytes() =~= b.subrange(col_end as int, b.len() as int));
    }
    let em = emphasize(matched);
    let mut r = before.to_owned();
    r.append(em.as_str());
    r.append(after);
    proof {
        encode_utf8_decode_utf8(before@);
        encode_utf8_decode_utf8(matched@);
        encode_utf8_decode_utf8(after@);
        assert(r@ == before@ + em@ + after@);
        assert(before@ == decode_utf8(b.subrange(0, col_start as int)));
    }
    r
}

/// Whether a line is long enough to get a notice after it in the report; the
/// line itself is printed whole.
pub fn needs_long_line_notice(line: &str) -> (r: bool)
    ensures
        r == (line.spec_bytes().len() > LONG_LINE_LIMIT),
{
    line.as_bytes().len() > LONG_LINE_LIMIT
}

/// The exit status of a completed scan that found `total` violations.
pub fn exit_status(total: usize) -> (r: i32)
    ensures
        total == 0 ==> r == EXIT_CLEAN,
        total > 0 ==> r == EXIT_VIOLATIONS,
{
    if total == 0 {
        EXIT_CLEAN
    } else {
        EXIT_VIOLATIONS
    }
}

} // verus!
