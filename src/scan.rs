//! The result of a scan over a tree: files counted, violations found.
use vstd::prelude::*;
use vstd::string::StringSliceAdditionalSpecFns;
use crate::path_filter::{allowed_location, is_allowed_path};
use crate::report::{exit_status, EXIT_CLEAN, EXIT_VIOLATIONS};
use crate::scanner::{regex_find_all, views, violations_in_text, violations_of, Violation, ViolationView, FORBIDDEN_PATTERN};
use crate::tally::{count_by_file, is_tally_of, sum_counts, FileTally};

verus! {

/// The violations that the file at `path` with text `text` holds: one for
/// each match of the forbidden pattern.
pub open spec fn file_violations(path: Seq<char>, text: Seq<u8>) -> Seq<ViolationView> {
    violations_of(path, text, regex_find_all(FORBIDDEN_PATTERN@, text))
}

/// The violations of the files `files` (path and text), file by file in order.
pub open spec fn tree_violations(files: Seq<(Seq<char>, Seq<u8>)>) -> Seq<ViolationView>
    decreases files.len(),
{
    if files.len() == 0 {
        Seq::empty()
    } else {
        tree_violations(files.drop_last()) + file_violations(files.last().0, files.last().1)
    }
}

/// The running result of a scan.
pub struct ScanResult {
    /// Candidate files seen, exempt ones included.
    pub files_scanned: usize,
    /// The violations found, in the order the files and matches came.
    pub violations: Vec<Violation>,
    /// The files whose text has been scanned, with that text.
    pub scanned: Ghost<Seq<(Seq<char>, Seq<u8>)>>,
}

impl ScanResult {
    /// The violations are those of the files scanned.
    pub open spec fn well_formed(&self) -> bool {
        views(self.violations@) == tree_violations(self.scanned@)
    }

    /// A scan that has seen nothing yet.
    pub fn new() -> (r: ScanResult)
        ensures
            r.well_formed(),
            r.files_scanned == 0,
            r.violations@.len() == 0,
            r.scanned@.len() == 0,
    {
        let r = ScanResult { files_scanned: 0, violations: Vec::new(), scanned: Ghost(Seq::empty()) };
        assert(views(r.violations@) =~= Seq::<ViolationView>::empty());
        r
    }

    /// Counts a candidate file, exempt or not, and says whether its text is
    /// to be read and scanned: it is not when the file is in the allowed module.
    pub fn count_candidate(&mut self, path: &str) -> (read: bool)
        requires
            old(self).files_scanned < usize::MAX,
        ensures
            final(self).files_scanned == old(self).files_scanned + 1,
            final(self).violations == old(self).violations,
            final(self).scanned == old(self).scanned,
            read == !allowed_location(path.spec_bytes()),
    {
        self.files_scanned = self.files_scanned + 1;
        !is_allowed_path(path)
    }

    /// Scans the text of the file at `path` and adds what it finds. Whether a
    /// file is read at all is decided by `count_candidate`.
    pub fn add_file(&mut self, path: &str, text: &str)
        requires
            old(self).well_formed(),
        ensures
            final(self).well_formed(),
            final(self).files_scanned == old(self).files_scanned,
            final(self).scanned@ == old(self).scanned@.push((path@, text.spec_bytes())),
            views(final(self).violations@) == views(old(self).violations@) + file_violations(
                path@,
                text.spec_bytes(),
            ),
    {
        let ghost before = self.violations@;
        let mut found = violations_in_text(path, text);
        let ghost added = found@;
        self.violations.append(&mut found);
        proof {
            let files = self.scanned@.push((path@, text.spec_bytes()));
            assert(files.drop_last() =~= self.scanned@);
            assert(views(self.violations@) =~= views(before) + views(added));
            self.scanned = Ghost(files);
        }
    }

    /// The number of violations found.
    pub fn total_violations(&self) -> (r: usize)
        ensures
            r == self.violations@.len(),
    {
        self.violations.len()
    }

    /// The violations found, counted per file and listed by path.
    pub fn tally(&self) -> (r: Vec<FileTally>)
        ensures
            is_tally_of(r@, views(self.violations@)),
            sum_counts(r@) == self.violations@.len(),
    {
        count_by_file(&self.violations)
    }

    /// The exit status of the run: clean when nothing was found.
    pub fn exit_status(&self) -> (r: i32)
        ensures
            self.violations@.len() == 0 ==> r == EXIT_CLEAN,
            self.violations@.len() > 0 ==> r == EXIT_VIOLATIONS,
    {
        exit_status(self.violations.len())
    }
}

/// Two scans of the same files, with the same texts, find the same
/// violations in the same order, and so end with the same exit status.
pub proof fn lemma_scan_deterministic(a: ScanResult, b: ScanResult)
    requires
        a.well_formed(),
        b.well_formed(),
        a.scanned@ == b.scanned@,
    ensures
        views(a.violations@) == views(b.violations@),
        a.violations@.len() == b.violations@.len(),
{
    assert(views(a.violations@).len() == a.violations@.len());
    assert(views(b.violations@).len() == b.violations@.len());
}

} // verus!
