//! Matching session record files against a branch.
//!
//! A record file holds one JSON document per line; only its first line
//! matters here. A file matches when that line records the branch, exactly,
//! together with a working directory and a session id that are not blank.

use vstd::prelude::*;
use crate::text::{contains_text, is_substring, trim, trimmed};
use crate::walk::{lemma_next_path_determined, path_opt, takes_in, takes_smallest, EntryKind, RelPath, RootUnreadable, SortedWalk};

verus! {

/// Where the first line of a record keeps the branch.
pub const BRANCH_POINTER: &'static str = "/payload/git/branch";

/// Where the first line of a record keeps the working directory.
pub const CWD_POINTER: &'static str = "/payload/cwd";

/// Where the first line of a record keeps the session id.
pub const ID_POINTER: &'static str = "/payload/id";

/// The string that the JSON document `line` holds at the JSON pointer
/// `pointer`, if `line` is such a document and holds a string there.
pub uninterp spec fn json_string_at(line: Seq<char>, pointer: Seq<char>) -> Option<Seq<char>>;

/// Relies on `serde_json::from_str` (into a `serde_json::Value`) and
/// `Value::pointer`: the result is the string found at `pointer` in the
/// document `line`, which depends on the two arguments alone.
#[verifier::external_body]
fn string_at_pointer(line: &str, pointer: &str) -> (r: Option<String>)
    ensures
        match r {
            Some(s) => json_string_at(line@, pointer@) == Some(s@),
            None => json_string_at(line@, pointer@) is None,
        },
{
    match serde_json::from_str::<serde_json::Value>(line) {
        Ok(doc) => match doc.pointer(pointer) {
            Some(serde_json::Value::String(s)) => Some(s.clone()),
            _ => None,
        },
        Err(_) => None,
    }
}

/// The working directory and session id that the first line `line` of a
/// record yields for `branch`, judged on its decoded fields alone: the
/// recorded branch equals `branch` exactly, and the working directory and
/// id, once trimmed, are not empty.
pub open spec fn decoded_session(line: Seq<char>, branch: Seq<char>) -> Option<(Seq<char>, Seq<char>)> {
    match (
        json_string_at(line, BRANCH_POINTER@),
        json_string_at(line, CWD_POINTER@),
        json_string_at(line, ID_POINTER@),
    ) {
        (Some(b), Some(cwd), Some(id)) => if b == branch && trim(cwd).len() > 0 && trim(id).len()
            > 0 {
            Some((trim(cwd), trim(id)))
        } else {
            None
        },
        _ => None,
    }
}

/// What the first line `line` of a record yields for `branch`: nothing when
/// the branch does not occur in the raw line, else what its decoded fields
/// yield.
pub open spec fn first_line_session(line: Seq<char>, branch: Seq<char>) -> Option<(Seq<char>, Seq<char>)> {
    if is_substring(branch, line) {
        decoded_session(line, branch)
    } else {
        None
    }
}

/// The check on the raw line only turns lines away: a line yields a session
/// only as its decoded fields do, and a line in which the branch occurs
/// literally yields exactly what its decoded fields yield.
pub proof fn lemma_precheck_only_discards(line: Seq<char>, branch: Seq<char>)
    ensures
        first_line_session(line, branch) is Some ==> first_line_session(line, branch)
            == decoded_session(line, branch),
        is_substring(branch, line) ==> first_line_session(line, branch) == decoded_session(
            line,
            branch,
        ),
{
}

/// Judges a first line on its decoded fields alone.
pub fn match_decoded_line(line: &str, branch: &str) -> (r: Option<(String, String)>)
    ensures
        match r {
            Some((cwd, id)) => decoded_session(line@, branch@) == Some((cwd@, id@)),
            None => decoded_session(line@, branch@) is None,
        },
{
    let got = match string_at_pointer(line, BRANCH_POINTER) {
        Some(b) => b,
        None => return None,
    };
    let cwd = match string_at_pointer(line, CWD_POINTER) {
        Some(c) => c,
        None => return None,
    };
    let id = match string_at_pointer(line, ID_POINTER) {
        Some(i) => i,
        None => return None,
    };
    let wanted = branch.to_owned();
    if got != wanted {
        return None;
    }
    let cwd = trimmed(cwd.as_str());
    let id = trimmed(id.as_str());
    if cwd.as_str().is_empty() || id.as_str().is_empty() {
        return None;
    }
    Some((cwd, id))
}

/// Parses the first line of a record: the working directory and session id
/// it yields for `branch`, if any. Lines in which `branch` does not occur
/// are turned away before any decoding.
pub fn parse_session_first_line(line: &str, branch: &str) -> (r: Option<(String, String)>)
    ensures
        match r {
            Some((cwd, id)) => first_line_session(line@, branch@) == Some((cwd@, id@)),
            None => first_line_session(line@, branch@) is None,
        },
{
    if !contains_text(line, branch) {
        return None;
    }
    match_decoded_line(line, branch)
}

/// `name` has the extension `jsonl`: it ends in `.jsonl`, and that dot is
/// not its first byte.
pub open spec fn is_jsonl_name(name: Seq<u8>) -> bool {
    &&& name.len() > 6
    &&& name.subrange(name.len() - 6, name.len() as int) == seq![46u8, 106u8, 115u8, 111u8, 110u8, 108u8]
}

/// `path` names a record file: its last component has the extension `jsonl`.
pub open spec fn is_jsonl_path(path: Seq<Seq<u8>>) -> bool {
    path.len() > 0 && is_jsonl_name(path.last())
}

/// Tells whether `path` names a record file, by its extension.
pub fn is_jsonl(path: &RelPath) -> (r: bool)
    ensures
        r == is_jsonl_path(path@),
{
    let k = path.names.len();
    if k == 0 {
        return false;
    }
    let name = &path.names[k - 1];
    let n = name.len();
    if n <= 6 {
        return false;
    }
    let r = name[n - 6] == 46u8 && name[n - 5] == 106u8 && name[n - 4] == 115u8 && name[n - 3]
        == 111u8 && name[n - 2] == 110u8 && name[n - 1] == 108u8;
    assert(path@.last() == name@);
    if r {
        assert(name@.subrange(n - 6, n as int) =~= seq![46u8, 106u8, 115u8, 111u8, 110u8, 108u8]);
    } else {
        assert(!is_jsonl_name(name@)) by {
            if is_jsonl_name(name@) {
                let t = name@.subrange(n - 6, n as int);
                assert(t[0] == name@[n - 6]);
                assert(t[1] == name@[n - 5]);
                assert(t[2] == name@[n - 4]);
                assert(t[3] == name@[n - 3]);
                assert(t[4] == name@[n - 2]);
                assert(t[5] == name@[n - 1]);
            }
        }
    }
    r
}

/// A session found for a branch.
pub struct Session {
    /// The directory the session was created in, trimmed.
    pub cwd: String,
    /// The session's id, trimmed.
    pub id: String,
    /// The record file it was read from, below the scanned root.
    pub source: RelPath,
}

/// `s` is the session that the record file `source`, with first line
/// `line`, yields for `branch`.
pub open spec fn is_session_of(s: Session, source: Seq<Seq<u8>>, line: Seq<char>, branch: Seq<char>) -> bool {
    &&& first_line_session(line, branch) == Some((s.cwd@, s.id@))
    &&& s.source@ == source
}

/// The session that the record file `source` yields for `branch`, given
/// its first line (`None` where the file is empty or could not be read).
pub fn session_from_first_line(source: RelPath, first_line: Option<String>, branch: &str) -> (r: Option<Session>)
    ensures
        match r {
            Some(s) => first_line matches Some(l) && is_session_of(s, source@, l@, branch@),
            None => first_line matches Some(l) ==> first_line_session(l@, branch@) is None,
        },
{
    let line = match first_line {
        Some(l) => l,
        None => return None,
    };
    match parse_session_first_line(line.as_str(), branch) {
        Some((cwd, id)) => Some(Session { cwd, id, source }),
        None => None,
    }
}

/// What a scan asks of its caller next.
pub enum ScanStep {
    /// Look at this path, without following links, and report its kind.
    Probe(RelPath),
    /// Read the first line of this record file and report it.
    ReadFirstLine(RelPath),
    /// The scan is over, with the session found, if any.
    Done(Option<Session>),
}

/// The path that a step asks to probe, if it asks that.
pub open spec fn probed(step: ScanStep) -> Option<Seq<Seq<u8>>> {
    match step {
        ScanStep::Probe(p) => Some(p@),
        _ => None,
    }
}

/// `step` moves the walk on: it probes the smallest pending path, or ends
/// the scan without a session once no path is pending.
pub open spec fn moves_on(before: SortedWalk, after: SortedWalk, step: ScanStep) -> bool {
    &&& (step is Probe || step == ScanStep::Done(None))
    &&& takes_smallest(before, after, probed(step))
}

/// What a scan does with the kind of the path it asked about: a regular
/// record file is asked to be read, and otherwise the walk takes the kind in
/// and the scan moves on.
pub open spec fn after_probe(before: SessionScan, after: SessionScan, kind: EntryKind, r: ScanStep) -> bool {
    let found = if kind is File {
        before.walk().current()
    } else {
        None
    };
    &&& after.branch() == before.branch()
    &&& if found is Some && is_jsonl_path(found->Some_0) {
        &&& r matches ScanStep::ReadFirstLine(p) && p@ == found->Some_0
        &&& after.reading() == found
        &&& takes_in(before.walk(), after.walk(), kind, found)
    } else {
        &&& after.reading() is None
        &&& exists|mid: SortedWalk|
            takes_in(before.walk(), mid, kind, found) && #[trigger] moves_on(mid, after.walk(), r)
    }
}

/// Whether the first line `line` of the record file being read yields a
/// session.
pub open spec fn is_hit(scan: SessionScan, line: Option<String>) -> bool {
    match (scan.reading(), line) {
        (Some(f), Some(l)) => first_line_session(l@, scan.branch()) is Some,
        _ => false,
    }
}

/// What a scan does with the first line of the record file it asked to
/// read: it ends with the session that the line yields, or moves on.
pub open spec fn after_first_line(before: SessionScan, after: SessionScan, line: Option<String>, r: ScanStep) -> bool {
    &&& after.branch() == before.branch()
    &&& after.reading() is None
    &&& if is_hit(before, line) {
        &&& r matches ScanStep::Done(Some(s)) && is_session_of(
            s,
            before.reading()->Some_0,
            line->Some_0@,
            before.branch(),
        )
        &&& after.walk() == before.walk()
    } else {
        moves_on(before.walk(), after.walk(), r)
    }
}

/// A step as its caller sees it: what it asks for, and of which path, or
/// what the scan found.
pub open spec fn step_view(r: ScanStep) -> (int, Seq<Seq<u8>>, Option<(Seq<char>, Seq<char>)>) {
    match r {
        ScanStep::Probe(p) => (0, p@, None),
        ScanStep::ReadFirstLine(p) => (1, p@, None),
        ScanStep::Done(None) => (2, Seq::empty(), None),
        ScanStep::Done(Some(s)) => (3, s.source@, Some((s.cwd@, s.id@))),
    }
}

/// What a caller of a scan can tell about its state.
pub open spec fn same_state(a: SessionScan, b: SessionScan) -> bool {
    &&& a.branch() == b.branch()
    &&& a.reading() == b.reading()
    &&& a.walk().pending() == b.walk().pending()
    &&& a.walk().current() == b.walk().current()
}

/// A scan depends only on what it is told: two scans in the same state that
/// get the same kind for the path they asked about make the same request
/// next, and stay in the same state. So scanning an unchanged tree twice
/// asks the same questions and ends with the same result.
pub proof fn lemma_probe_answer_determined(
    b1: SessionScan,
    b2: SessionScan,
    a1: SessionScan,
    a2: SessionScan,
    kind: EntryKind,
    r1: ScanStep,
    r2: ScanStep,
)
    requires
        same_state(b1, b2),
        after_probe(b1, a1, kind, r1),
        after_probe(b2, a2, kind, r2),
    ensures
        step_view(r1) == step_view(r2),
        same_state(a1, a2),
{
    let found = if kind is File {
        b1.walk().current()
    } else {
        None
    };
    if !(found is Some && is_jsonl_path(found->Some_0)) {
        let m1 = choose|mid: SortedWalk|
            takes_in(b1.walk(), mid, kind, found) && #[trigger] moves_on(mid, a1.walk(), r1);
        let m2 = choose|mid: SortedWalk|
            takes_in(b2.walk(), mid, kind, found) && #[trigger] moves_on(mid, a2.walk(), r2);
        lemma_next_path_determined(m1, m2, a1.walk(), a2.walk(), probed(r1), probed(r2));
    }
}

/// Likewise for the first line of a record file: two scans in the same state
/// that get the same line make the same request next, or end with the same
/// session, and stay in the same state.
pub proof fn lemma_first_line_answer_determined(
    b1: SessionScan,
    b2: SessionScan,
    a1: SessionScan,
    a2: SessionScan,
    line: Option<String>,
    r1: ScanStep,
    r2: ScanStep,
)
    requires
        same_state(b1, b2),
        after_first_line(b1, a1, line, r1),
        after_first_line(b2, a2, line, r2),
    ensures
        step_view(r1) == step_view(r2),
        same_state(a1, a2),
{
    if !is_hit(b1, line) {
        lemma_next_path_determined(b1.walk(), b2.walk(), a1.walk(), a2.walk(), probed(r1), probed(r2));
    }
}

/// A scan of a directory tree for the first record file, in ascending path
/// order, whose first line yields a session for a branch.
pub struct SessionScan {
    walk: SortedWalk,
    branch: String,
    reading: Option<RelPath>,
}

impl SessionScan {
    /// The walk over the tree.
    pub closed spec fn walk(&self) -> SortedWalk {
        self.walk
    }

    /// The branch searched for.
    pub closed spec fn branch(&self) -> Seq<char> {
        self.branch@
    }

    /// The record file whose first line is awaited.
    pub closed spec fn reading(&self) -> Option<Seq<Seq<u8>>> {
        path_opt(self.reading)
    }

    /// The walk is well formed.
    pub closed spec fn wf(&self) -> bool {
        self.walk.wf()
    }

    /// Starts a scan for `branch`, provided the root could be listed.
    pub fn new(branch: String, root_listable: bool) -> (r: Result<SessionScan, RootUnreadable>)
        ensures
            r is Ok == root_listable,
            r matches Ok(s) ==> {
                &&& s.wf()
                &&& s.branch() == branch@
                &&& s.reading() is None
                &&& s.walk().pending() == set![Seq::<Seq<u8>>::empty()]
                &&& s.walk().current() is None
                &&& s.walk().last_handed_out() is None
            },
    {
        match SortedWalk::new(root_listable) {
            Ok(walk) => Ok(SessionScan { walk, branch, reading: None }),
            Err(e) => Err(e),
        }
    }

    /// Asks for the next path to probe, or ends the scan without a session.
    pub fn advance(&mut self) -> (r: ScanStep)
        requires
            old(self).wf(),
        ensures
            final(self).wf(),
            final(self).branch() == old(self).branch(),
            final(self).reading() is None,
            moves_on(old(self).walk(), final(self).walk(), r),
    {
        self.reading = None;
        match self.walk.next_to_probe() {
            Some(p) => ScanStep::Probe(p),
            None => ScanStep::Done(None),
        }
    }

    /// Takes in the kind of the path last asked about. A record file is
    /// asked to be read; otherwise the scan moves on.
    pub fn on_probe(&mut self, kind: EntryKind) -> (r: ScanStep)
        requires
            old(self).wf(),
        ensures
            final(self).wf(),
            after_probe(*old(self), *final(self), kind, r),
    {
        let ghost before = self.walk;
        let ghost k = kind;
        let found = self.walk.visit(kind);
        let ghost mid = self.walk;
        match found {
            Some(f) => {
                if is_jsonl(&f) {
                    let p = f.copy();
                    self.reading = Some(f);
                    return ScanStep::ReadFirstLine(p);
                }
            },
            None => {},
        }
        let r = self.advance();
        assert(takes_in(before, mid, k, if k is File { before.current() } else { None }));
        r
    }

    /// Takes in the first line of the record file last asked about (`None`
    /// where it is empty or could not be read). The scan ends with the
    /// session it yields, if it yields one, and moves on otherwise.
    pub fn on_first_line(&mut self, line: Option<String>) -> (r: ScanStep)
        requires
            old(self).wf(),
        ensures
            final(self).wf(),
            after_first_line(*old(self), *final(self), line, r),
    {
        match self.reading.take() {
            Some(f) => {
                match session_from_first_line(f, line, self.branch.as_str()) {
                    Some(s) => {
                        return ScanStep::Done(Some(s));
                    },
                    None => {},
                }
            },
            None => {},
        }
        self.advance()
    }
}

} // verus!
