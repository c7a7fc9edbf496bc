//! Commit types and the parsing of `jj` output into commits and diffs.
use vstd::prelude::*;

use crate::text::{
    ascii_lowercase, chars_of, lemma_utf8_len_prefix_strict, lemma_utf8_len_subrange, line_ranges,
    lines, ranges_text, split_n_ranges, string_of_range, find_seq, find_seq_at, starts_with_at,
    push_range, string_of, push_str, push_decimal, decimal, utf8_len_wide,
    split_n, starts_with, starts_with_lower_at, str_eq, trim, trim_range, utf8_len, utf8_len_of, utf8_width_of,
};

use crate::vcs::{escaped, push_escaped};

verus! {

broadcast use vstd::string::group_string_axioms;

/// Commit types: the typed enum for commit messages.
/// Stored as strings in the database but validated here.
#[derive(Debug, Clone, Copy, PartialEq, Eq, Structural)]
pub enum CommitType {
    Draft,
    Proposal,
    Implementation,
    Testing,
    Plan,
    Review,
    Refactor,
    Fix,
    Session,
    Intent,
    Release,
    Merge,
}

/// Every commit type, in the order of `CommitType::all`.
pub open spec fn all_commit_types() -> Seq<CommitType> {
    seq![
        CommitType::Draft,
        CommitType::Proposal,
        CommitType::Implementation,
        CommitType::Testing,
        CommitType::Plan,
        CommitType::Review,
        CommitType::Refactor,
        CommitType::Fix,
        CommitType::Session,
        CommitType::Intent,
        CommitType::Release,
        CommitType::Merge,
    ]
}

impl CommitType {
    /// The name under which the type is stored.
    pub open spec fn name(self) -> Seq<char> {
        match self {
            CommitType::Draft => "draft"@,
            CommitType::Proposal => "proposal"@,
            CommitType::Implementation => "implementation"@,
            CommitType::Testing => "testing"@,
            CommitType::Plan => "plan"@,
            CommitType::Review => "review"@,
            CommitType::Refactor => "refactor"@,
            CommitType::Fix => "fix"@,
            CommitType::Session => "session"@,
            CommitType::Intent => "intent"@,
            CommitType::Release => "release"@,
            CommitType::Merge => "merge"@,
        }
    }

    /// The type stored under `s`, if any.
    pub open spec fn from_name(s: Seq<char>) -> Option<CommitType> {
        if s == "draft"@ {
            Some(CommitType::Draft)
        } else if s == "proposal"@ {
            Some(CommitType::Proposal)
        } else if s == "implementation"@ {
            Some(CommitType::Implementation)
        } else if s == "testing"@ {
            Some(CommitType::Testing)
        } else if s == "plan"@ {
            Some(CommitType::Plan)
        } else if s == "review"@ {
            Some(CommitType::Review)
        } else if s == "refactor"@ {
            Some(CommitType::Refactor)
        } else if s == "fix"@ {
            Some(CommitType::Fix)
        } else if s == "session"@ {
            Some(CommitType::Session)
        } else if s == "intent"@ {
            Some(CommitType::Intent)
        } else if s == "release"@ {
            Some(CommitType::Release)
        } else if s == "merge"@ {
            Some(CommitType::Merge)
        } else {
            None
        }
    }

    /// The type a description announces by its prefix, compared without
    /// regard to letter case after trimming; `Draft` when none matches.
    /// The prefixes are ASCII and contain no `k`, and none ends in `i`, so
    /// ASCII lowercasing decides exactly as full Unicode lowercasing would.
    pub open spec fn inferred(description: Seq<char>) -> CommitType {
        CommitType::announced(ascii_lowercase(trim(description)))
    }

    /// The type that a trimmed, lowercased description announces by its
    /// prefix; `Draft` when none matches.
    pub open spec fn announced(lower: Seq<char>) -> CommitType {
        if starts_with(lower, "intent:"@) {
            CommitType::Intent
        } else if starts_with(lower, "session:"@) {
            CommitType::Session
        } else if starts_with(lower, "fix:"@) || starts_with(lower, "fix("@) {
            CommitType::Fix
        } else if starts_with(lower, "plan:"@) {
            CommitType::Plan
        } else if starts_with(lower, "review:"@) {
            CommitType::Review
        } else if starts_with(lower, "test:"@) || starts_with(lower, "testing:"@) {
            CommitType::Testing
        } else if starts_with(lower, "refactor:"@) {
            CommitType::Refactor
        } else if starts_with(lower, "release:"@) || starts_with(lower, "release "@) {
            CommitType::Release
        } else if starts_with(lower, "merge"@) {
            CommitType::Merge
        } else if starts_with(lower, "proposal:"@) || starts_with(lower, "propose:"@) {
            CommitType::Proposal
        } else if starts_with(lower, "impl:"@) || starts_with(lower, "implement:"@) {
            CommitType::Implementation
        } else {
            CommitType::Draft
        }
    }

    /// The name under which this type is stored.
    pub fn as_str(&self) -> (r: &'static str)
        ensures
            r@ == self.name(),
    {
        match self {
            CommitType::Draft => "draft",
            CommitType::Proposal => "proposal",
            CommitType::Implementation => "implementation",
            CommitType::Testing => "testing",
            CommitType::Plan => "plan",
            CommitType::Review => "review",
            CommitType::Refactor => "refactor",
            CommitType::Fix => "fix",
            CommitType::Session => "session",
            CommitType::Intent => "intent",
            CommitType::Release => "release",
            CommitType::Merge => "merge",
        }
    }

    /// The type stored under the name `s`, or `None` for an unknown name.
    pub fn from_str(s: &str) -> (r: Option<Self>)
        ensures
            r == Self::from_name(s@),
    {
        if str_eq(s, "draft") {
            Some(CommitType::Draft)
        } else if str_eq(s, "proposal") {
            Some(CommitType::Proposal)
        } else if str_eq(s, "implementation") {
            Some(CommitType::Implementation)
        } else if str_eq(s, "testing") {
            Some(CommitType::Testing)
        } else if str_eq(s, "plan") {
            Some(CommitType::Plan)
        } else if str_eq(s, "review") {
            Some(CommitType::Review)
        } else if str_eq(s, "refactor") {
            Some(CommitType::Refactor)
        } else if str_eq(s, "fix") {
            Some(CommitType::Fix)
        } else if str_eq(s, "session") {
            Some(CommitType::Session)
        } else if str_eq(s, "intent") {
            Some(CommitType::Intent)
        } else if str_eq(s, "release") {
            Some(CommitType::Release)
        } else if str_eq(s, "merge") {
            Some(CommitType::Merge)
        } else {
            None
        }
    }

    /// Infers the commit type from a commit description.
    /// Looks for prefixes like "intent:", "session:", "fix:", etc.
    pub fn infer(description: &str) -> (r: Self)
        ensures
            r == Self::inferred(description@),
    {
        let v = chars_of(description);
        let (a, b) = trim_range(&v, 0, v.len());
        proof {
            assert(v@.subrange(0, v@.len() as int) =~= v@);
        }
        if lower_prefix(&v, a, b, "intent:") {
            CommitType::Intent
        } else if lower_prefix(&v, a, b, "session:") {
            CommitType::Session
        } else if lower_prefix(&v, a, b, "fix:") || lower_prefix(&v, a, b, "fix(") {
            CommitType::Fix
        } else if lower_prefix(&v, a, b, "plan:") {
            CommitType::Plan
        } else if lower_prefix(&v, a, b, "review:") {
            CommitType::Review
        } else if lower_prefix(&v, a, b, "test:") || lower_prefix(&v, a, b, "testing:") {
            CommitType::Testing
        } else if lower_prefix(&v, a, b, "refactor:") {
            CommitType::Refactor
        } else if lower_prefix(&v, a, b, "release:") || lower_prefix(&v, a, b, "release ") {
            CommitType::Release
        } else if lower_prefix(&v, a, b, "merge") {
            CommitType::Merge
        } else if lower_prefix(&v, a, b, "proposal:") || lower_prefix(&v, a, b, "propose:") {
            CommitType::Proposal
        } else if lower_prefix(&v, a, b, "impl:") || lower_prefix(&v, a, b, "implement:") {
            CommitType::Implementation
        } else {
            CommitType::Draft
        }
    }

    /// All valid commit type names.
    pub fn all() -> (r: &'static [&'static str])
        ensures
            r@.len() == 12,
            forall|i: int| 0 <= i < 12 ==> (#[trigger] r@[i])@ == all_commit_types()[i].name(),
    {
        &[
            "draft",
            "proposal",
            "implementation",
            "testing",
            "plan",
            "review",
            "refactor",
            "fix",
            "session",
            "intent",
            "release",
            "merge",
        ]
    }
}

/// Whether the ASCII-lowercased `v[a..b]` starts with `p`.
fn lower_prefix(v: &[char], a: usize, b: usize, p: &str) -> (r: bool)
    requires
        a <= b <= v@.len(),
    ensures
        r == starts_with(ascii_lowercase(v@.subrange(a as int, b as int)), p@),
{
    let pc = chars_of(p);
    starts_with_lower_at(v, a, b, &pc)
}

} // verus!

verus! {

/// The spelling of every commit type name.
proof fn lemma_commit_type_names_spelled()
    ensures
        "draft"@ == seq!['d', 'r', 'a', 'f', 't'],
        "proposal"@ == seq!['p', 'r', 'o', 'p', 'o', 's', 'a', 'l'],
        "implementation"@ == seq!['i', 'm', 'p', 'l', 'e', 'm', 'e', 'n', 't', 'a', 't', 'i', 'o', 'n'],
        "testing"@ == seq!['t', 'e', 's', 't', 'i', 'n', 'g'],
        "plan"@ == seq!['p', 'l', 'a', 'n'],
        "review"@ == seq!['r', 'e', 'v', 'i', 'e', 'w'],
        "refactor"@ == seq!['r', 'e', 'f', 'a', 'c', 't', 'o', 'r'],
        "fix"@ == seq!['f', 'i', 'x'],
        "session"@ == seq!['s', 'e', 's', 's', 'i', 'o', 'n'],
        "intent"@ == seq!['i', 'n', 't', 'e', 'n', 't'],
        "release"@ == seq!['r', 'e', 'l', 'e', 'a', 's', 'e'],
        "merge"@ == seq!['m', 'e', 'r', 'g', 'e'],
{
    reveal_strlit("draft");
    assert("draft"@ =~= seq!['d', 'r', 'a', 'f', 't']);
    reveal_strlit("proposal");
    assert("proposal"@ =~= seq!['p', 'r', 'o', 'p', 'o', 's', 'a', 'l']);
    reveal_strlit("implementation");
    assert("implementation"@ =~= seq!['i', 'm', 'p', 'l', 'e', 'm', 'e', 'n', 't', 'a', 't', 'i', 'o', 'n']);
    reveal_strlit("testing");
    assert("testing"@ =~= seq!['t', 'e', 's', 't', 'i', 'n', 'g']);
    reveal_strlit("plan");
    assert("plan"@ =~= seq!['p', 'l', 'a', 'n']);
    reveal_strlit("review");
    assert("review"@ =~= seq!['r', 'e', 'v', 'i', 'e', 'w']);
    reveal_strlit("refactor");
    assert("refactor"@ =~= seq!['r', 'e', 'f', 'a', 'c', 't', 'o', 'r']);
    reveal_strlit("fix");
    assert("fix"@ =~= seq!['f', 'i', 'x']);
    reveal_strlit("session");
    assert("session"@ =~= seq!['s', 'e', 's', 's', 'i', 'o', 'n']);
    reveal_strlit("intent");
    assert("intent"@ =~= seq!['i', 'n', 't', 'e', 'n', 't']);
    reveal_strlit("release");
    assert("release"@ =~= seq!['r', 'e', 'l', 'e', 'a', 's', 'e']);
    reveal_strlit("merge");
    assert("merge"@ =~= seq!['m', 'e', 'r', 'g', 'e']);
}

/// Parsing the stored name of a commit type gives that type back.
pub proof fn lemma_name_roundtrip(t: CommitType)
    ensures
        CommitType::from_name(t.name()) == Some(t),
{
    lemma_commit_type_names_spelled();
}

/// A name that parses is exactly the stored name of the type it parses to.
pub proof fn lemma_from_name_is_name(s: Seq<char>)
    ensures
        CommitType::from_name(s) matches Some(t) ==> t.name() == s,
{
}

/// `all` lists every commit type exactly once.
pub proof fn lemma_all_commit_types_complete(t: CommitType)
    ensures
        exists|i: int| 0 <= i < 12 && all_commit_types()[i] == t,
        forall|i: int, j: int|
            0 <= i < 12 && 0 <= j < 12 && i != j ==> all_commit_types()[i].name()
                != all_commit_types()[j].name(),
{
    lemma_commit_type_names_spelled();
    match t {
        CommitType::Draft => assert(all_commit_types()[0] == t),
        CommitType::Proposal => assert(all_commit_types()[1] == t),
        CommitType::Implementation => assert(all_commit_types()[2] == t),
        CommitType::Testing => assert(all_commit_types()[3] == t),
        CommitType::Plan => assert(all_commit_types()[4] == t),
        CommitType::Review => assert(all_commit_types()[5] == t),
        CommitType::Refactor => assert(all_commit_types()[6] == t),
        CommitType::Fix => assert(all_commit_types()[7] == t),
        CommitType::Session => assert(all_commit_types()[8] == t),
        CommitType::Intent => assert(all_commit_types()[9] == t),
        CommitType::Release => assert(all_commit_types()[10] == t),
        CommitType::Merge => assert(all_commit_types()[11] == t),
    }
    assert forall|i: int, j: int|
        0 <= i < 12 && 0 <= j < 12 && i != j implies all_commit_types()[i].name()
            != all_commit_types()[j].name() by {
        lemma_name_roundtrip(all_commit_types()[i]);
        lemma_name_roundtrip(all_commit_types()[j]);
    }
}

} // verus!

verus! {

/// What a parsed commit holds, as mathematical text.
pub struct CommitRecord {
    pub change_id: Seq<char>,
    pub commit_id: Seq<char>,
    pub parent_change_id: Seq<char>,
    pub author: Seq<char>,
    pub ts: Seq<char>,
    pub commit_type: CommitType,
    pub title: Seq<char>,
    pub body: Seq<char>,
}

/// A parsed jj commit ready to be stored in the database.
#[derive(Debug, Clone)]
pub struct JjCommit {
    pub change_id: String,
    pub commit_id: String,
    pub parent_change_id: String,
    pub author: String,
    pub ts: String,
    pub commit_type: CommitType,
    pub title: String,
    pub body: String,
}

impl View for JjCommit {
    type V = CommitRecord;

    open spec fn view(&self) -> CommitRecord {
        CommitRecord {
            change_id: self.change_id@,
            commit_id: self.commit_id@,
            parent_change_id: self.parent_change_id@,
            author: self.author@,
            ts: self.ts@,
            commit_type: self.commit_type,
            title: self.title@,
            body: self.body@,
        }
    }
}

/// The views of a list of commits.
pub open spec fn commit_views(v: Seq<JjCommit>) -> Seq<CommitRecord> {
    v.map_values(|c: JjCommit| c@)
}

/// The UTF-8 byte offset `n` falls between two characters of `s`.
pub open spec fn is_byte_boundary(s: Seq<char>, n: nat) -> bool {
    exists|k: int| 0 <= k <= s.len() && utf8_len(s.take(k)) == n
}

/// The number of characters of `s` that take exactly `n` bytes.
pub open spec fn char_index_of_byte(s: Seq<char>, n: nat) -> int {
    choose|k: int| 0 <= k <= s.len() && utf8_len(s.take(k)) == n
}

/// The body of a commit: the full description after the bytes of the title,
/// trimmed; empty when the full description is no longer than the title.
pub open spec fn body_of(title: Seq<char>, full: Seq<char>) -> Seq<char> {
    if utf8_len(full) > utf8_len(title) {
        trim(full.skip(char_index_of_byte(full, utf8_len(title))))
    } else {
        seq![]
    }
}

/// Cutting the full description after the title's bytes cuts between characters.
pub open spec fn body_defined(title: Seq<char>, full: Seq<char>) -> bool {
    utf8_len(full) > utf8_len(title) ==> is_byte_boundary(full, utf8_len(title))
}

/// The `|`-separated fields of a trimmed log line (at most 7).
pub open spec fn log_fields(line: Seq<char>) -> Seq<Seq<char>> {
    split_n(trim(line), 7, '|')
}

/// The full description field of a log line; empty when the line has no
/// seventh field.
pub open spec fn full_description(parts: Seq<Seq<char>>) -> Seq<char> {
    if parts.len() > 6 {
        parts[6]
    } else {
        seq![]
    }
}

/// The commit a `jj log` line describes: `None` for a blank line or one with
/// fewer than six fields.
pub open spec fn commit_of_line(line: Seq<char>) -> Option<CommitRecord> {
    let parts = log_fields(line);
    if trim(line).len() == 0 || parts.len() < 6 {
        None
    } else {
        Some(
            CommitRecord {
                change_id: parts[0],
                commit_id: parts[1],
                parent_change_id: parts[2],
                author: parts[3],
                ts: parts[4],
                commit_type: CommitType::inferred(parts[5]),
                title: parts[5],
                body: body_of(parts[5], full_description(parts)),
            },
        )
    }
}

/// Parsing the line does not cut a character in two.
pub open spec fn commit_line_ok(line: Seq<char>) -> bool {
    let parts = log_fields(line);
    trim(line).len() != 0 && parts.len() >= 6 ==> body_defined(
        parts[5],
        full_description(parts),
    )
}

/// The commits described by the lines, in order.
pub open spec fn commits_of_lines(ls: Seq<Seq<char>>) -> Seq<CommitRecord>
    decreases ls.len(),
{
    if ls.len() == 0 {
        seq![]
    } else {
        let prev = commits_of_lines(ls.drop_last());
        match commit_of_line(ls.last()) {
            Some(c) => prev.push(c),
            None => prev,
        }
    }
}

/// The commits of the whole `jj log` output.
pub open spec fn commits_of(stdout: Seq<char>) -> Seq<CommitRecord> {
    commits_of_lines(lines(stdout))
}

/// The output can be parsed without cutting a character in two, and its
/// byte length fits in a `usize`.
pub open spec fn commit_log_ok(stdout: Seq<char>) -> bool {
    &&& utf8_len(stdout) <= usize::MAX
    &&& forall|i: int| 0 <= i < lines(stdout).len() ==> commit_line_ok(#[trigger] lines(stdout)[i])
}

/// The character position in `v[from..to]` at which the byte offset `n`
/// falls, if it falls between two characters.
fn char_index_at_byte(v: &[char], from: usize, to: usize, n: usize) -> (r: Option<usize>)
    requires
        from <= to <= v@.len(),
        utf8_len(v@) <= usize::MAX,
    ensures
        match r {
            Some(k) => from <= k <= to && utf8_len(v@.subrange(from as int, k as int)) == n,
            None => !is_byte_boundary(v@.subrange(from as int, to as int), n as nat),
        },
{
    let ghost t = v@.subrange(from as int, to as int);
    let mut k = from;
    let mut acc: usize = 0;
    while k < to && acc < n
        invariant
            from <= k <= to <= v@.len(),
            utf8_len(v@) <= usize::MAX,
            t == v@.subrange(from as int, to as int),
            acc == utf8_len(t.take(k - from)),
            forall|j: int| 0 <= j < k - from ==> utf8_len(#[trigger] t.take(j)) < n,
        decreases to - k,
    {
        proof {
            assert(t.take(k + 1 - from).drop_last() =~= t.take(k - from));
            assert(t.take(k + 1 - from) =~= v@.subrange(from as int, k + 1));
            lemma_utf8_len_subrange(v@, from as int, k + 1);
        }
        acc = acc + utf8_width_of(v[k]);
        k = k + 1;
    }
    proof {
        assert(t.take(k - from) =~= v@.subrange(from as int, k as int));
    }
    if acc == n {
        Some(k)
    } else {
        proof {
            assert forall|j: int| 0 <= j <= t.len() implies utf8_len(#[trigger] t.take(j)) != n by {
                if j < k - from {
                } else if j > k - from {
                    lemma_utf8_len_prefix_strict(t, k - from, j);
                }
            }
        }
        None
    }
}

/// The range of the body: `v[fa..fb]` after its first `n` bytes, trimmed,
/// or an empty range when `v[fa..fb]` takes no more than `n` bytes.
fn body_range(v: &[char], fa: usize, fb: usize, n: usize) -> (r: (usize, usize))
    requires
        fa <= fb <= v@.len(),
        utf8_len(v@) <= usize::MAX,
        utf8_len(v@.subrange(fa as int, fb as int)) > n ==> is_byte_boundary(
            v@.subrange(fa as int, fb as int),
            n as nat,
        ),
    ensures
        r.0 <= r.1 <= v@.len(),
        v@.subrange(r.0 as int, r.1 as int) == (if utf8_len(v@.subrange(fa as int, fb as int))
            > n {
            trim(v@.subrange(fa as int, fb as int).skip(
                char_index_of_byte(v@.subrange(fa as int, fb as int), n as nat),
            ))
        } else {
            seq![]
        }),
{
    let ghost full = v@.subrange(fa as int, fb as int);
    let total = utf8_len_of(v, fa, fb);
    if total > n {
        match char_index_at_byte(v, fa, fb, n) {
            Some(k) => {
                proof {
                    assert(full.take(k - fa) =~= v@.subrange(fa as int, k as int));
                    let c = char_index_of_byte(full, n as nat);
                    if c < k - fa {
                        lemma_utf8_len_prefix_strict(full, c, k - fa);
                    } else if c > k - fa {
                        lemma_utf8_len_prefix_strict(full, k - fa, c);
                    }
                    assert(full.skip(k - fa) =~= v@.subrange(k as int, fb as int));
                }
                trim_range(v, k, fb)
            },
            None => {
                (0, 0)
            },
        }
    } else {
        (0, 0)
    }
}

} // verus!

verus! {

/// Parses the output of the `jj log` template (one commit per line, fields
/// separated by `|`) into commits. Blank lines and lines with fewer than six
/// fields are skipped.
pub fn parse_commit_log(stdout: &str) -> (r: Vec<JjCommit>)
    requires
        commit_log_ok(stdout@),
    ensures
        commit_views(r@) == commits_of(stdout@),
{
    let v = chars_of(stdout);
    let ls = line_ranges(&v);
    let ghost all = lines(v@);
    let mut out: Vec<JjCommit> = Vec::new();
    let mut i: usize = 0;
    proof {
        assert(all.take(0) =~= Seq::<Seq<char>>::empty());
        assert(commit_views(out@) =~= Seq::<CommitRecord>::empty());
    }
    while i < ls.len()
        invariant
            v@ == stdout@,
            all == lines(v@),
            commit_log_ok(v@),
            ranges_text(v@, ls@) == all,
            forall|k: int| 0 <= k < ls@.len() ==> (#[trigger] ls@[k]).0 <= ls@[k].1 <= v@.len(),
            i <= ls@.len(),
            commit_views(out@) == commits_of_lines(all.take(i as int)),
        decreases ls@.len() - i,
    {
        let (la, lb) = ls[i];
        let ghost line = v@.subrange(la as int, lb as int);
        let ghost before = out@;
        proof {
            assert(line == all[i as int]);
            assert(commit_line_ok(all[i as int]));
            assert(all.take(i + 1).drop_last() =~= all.take(i as int));
            assert(all.take(i + 1).last() == line);
        }
        let (a, b) = trim_range(&v, la, lb);
        if a < b {
            let parts = split_n_ranges(&v, a, b, 7, '|');
            proof {
                assert(log_fields(line) == ranges_text(v@, parts@));
            }
            if parts.len() >= 6 {
                let (p5a, p5b) = parts[5];
                let (fa, fb) = if parts.len() > 6 {
                    parts[6]
                } else {
                    (0, 0)
                };
                proof {
                    let fields = log_fields(line);
                    assert(fields[5] == v@.subrange(p5a as int, p5b as int));
                    assert(full_description(fields) =~= v@.subrange(fa as int, fb as int));
                }
                let n = utf8_len_of(&v, p5a, p5b);
                let (ba, bb) = body_range(&v, fa, fb, n);
                let title = string_of_range(&v, p5a, p5b);
                let commit_type = CommitType::infer(title.as_str());
                let commit = JjCommit {
                    change_id: string_of_range(&v, parts[0].0, parts[0].1),
                    commit_id: string_of_range(&v, parts[1].0, parts[1].1),
                    parent_change_id: string_of_range(&v, parts[2].0, parts[2].1),
                    author: string_of_range(&v, parts[3].0, parts[3].1),
                    ts: string_of_range(&v, parts[4].0, parts[4].1),
                    commit_type,
                    title,
                    body: string_of_range(&v, ba, bb),
                };
                proof {
                    let fields = log_fields(line);
                    assert(fields[0] == v@.subrange(parts@[0].0 as int, parts@[0].1 as int));
                    assert(fields[1] == v@.subrange(parts@[1].0 as int, parts@[1].1 as int));
                    assert(fields[2] == v@.subrange(parts@[2].0 as int, parts@[2].1 as int));
                    assert(fields[3] == v@.subrange(parts@[3].0 as int, parts@[3].1 as int));
                    assert(fields[4] == v@.subrange(parts@[4].0 as int, parts@[4].1 as int));
                    assert(commit_of_line(line) == Some(commit@));
                }
                out.push(commit);
                proof {
                    assert(commit_views(out@) =~= commit_views(before).push(commit@));
                }
            }
        }
        i = i + 1;
    }
    proof {
        assert(all.take(ls@.len() as int) =~= all);
    }
    out
}

} // verus!

verus! {

/// The number of UTF-8 bytes of `v`, when it fits in a `usize`.
fn utf8_len_checked(v: &[char]) -> (r: Option<usize>)
    ensures
        match r {
            Some(n) => n == utf8_len(v@),
            None => utf8_len(v@) > usize::MAX,
        },
{
    let mut n: usize = 0;
    let mut i: usize = 0;
    while i < v.len()
        invariant
            i <= v@.len(),
            n == utf8_len(v@.take(i as int)),
        decreases v@.len() - i,
    {
        let w = utf8_width_of(v[i]);
        proof {
            assert(v@.take(i + 1).drop_last() =~= v@.take(i as int));
        }
        if n > usize::MAX - w {
            proof {
                lemma_utf8_len_subrange(v@, 0, i + 1);
                assert(v@.subrange(0, i + 1) =~= v@.take(i + 1));
            }
            return None;
        }
        n = n + w;
        i = i + 1;
    }
    assert(v@.take(v@.len() as int) =~= v@);
    Some(n)
}

/// Whether `parse_commit_log` can parse `stdout`: its byte length fits in a
/// `usize`, and no line cuts its full description inside a character.
pub fn commit_log_is_parsable(stdout: &str) -> (r: bool)
    ensures
        r == commit_log_ok(stdout@),
{
    let v = chars_of(stdout);
    if utf8_len_checked(&v).is_none() {
        return false;
    }
    let ls = line_ranges(&v);
    let ghost all = lines(v@);
    let mut i: usize = 0;
    while i < ls.len()
        invariant
            v@ == stdout@,
            all == lines(v@),
            utf8_len(v@) <= usize::MAX,
            ranges_text(v@, ls@) == all,
            forall|k: int| 0 <= k < ls@.len() ==> (#[trigger] ls@[k]).0 <= ls@[k].1 <= v@.len(),
            i <= ls@.len(),
            forall|k: int| 0 <= k < i ==> commit_line_ok(#[trigger] all[k]),
        decreases ls@.len() - i,
    {
        let (la, lb) = ls[i];
        let ghost line = v@.subrange(la as int, lb as int);
        assert(line == all[i as int]);
        let (a, b) = trim_range(&v, la, lb);
        if a < b {
            let parts = split_n_ranges(&v, a, b, 7, '|');
            assert(log_fields(line) == ranges_text(v@, parts@));
            if parts.len() >= 6 {
                let (p5a, p5b) = parts[5];
                let (fa, fb) = if parts.len() > 6 {
                    parts[6]
                } else {
                    (0, 0)
                };
                proof {
                    let fields = log_fields(line);
                    assert(fields[5] == v@.subrange(p5a as int, p5b as int));
                    assert(full_description(fields) =~= v@.subrange(fa as int, fb as int));
                }
                let n = utf8_len_of(&v, p5a, p5b);
                let total = utf8_len_of(&v, fa, fb);
                if total > n {
                    if char_index_at_byte(&v, fa, fb, n).is_none() {
                        return false;
                    }
                    proof {
                        let k = choose|k: usize|
                            fa <= k <= fb && utf8_len(v@.subrange(fa as int, k as int)) == n;
                        let full = v@.subrange(fa as int, fb as int);
                        assert(full.take(k - fa) =~= v@.subrange(fa as int, k as int));
                    }
                }
            }
        }
        i = i + 1;
    }
    true
}

} // verus!

verus! {

/// What a file diff holds, as mathematical text.
pub struct DiffRecord {
    pub change_id: Seq<char>,
    pub file_path: Seq<char>,
    pub diff_content: Seq<char>,
}

/// A file diff from a jj change.
#[derive(Debug, Clone)]
pub struct JjDiff {
    pub change_id: String,
    pub file_path: String,
    pub diff_content: String,
}

impl View for JjDiff {
    type V = DiffRecord;

    open spec fn view(&self) -> DiffRecord {
        DiffRecord {
            change_id: self.change_id@,
            file_path: self.file_path@,
            diff_content: self.diff_content@,
        }
    }
}

/// The state of the scan over the lines of a git-format diff: the path and
/// text of the file section being read, and the sections finished so far.
pub struct DiffScan {
    pub path: Seq<char>,
    pub content: Seq<char>,
    pub done: Seq<(Seq<char>, Seq<char>)>,
}

/// The path a `diff --git a/<path> b/<path>` header names: the text after
/// `diff --git a/` up to the first ` b/`; empty for any other header.
pub open spec fn header_path(line: Seq<char>) -> Seq<char> {
    if starts_with(line, "diff --git a/"@) {
        let rest = line.skip("diff --git a/"@.len() as int);
        let k = find_seq(rest, " b/"@);
        if k < 0 {
            rest
        } else {
            rest.take(k)
        }
    } else {
        seq![]
    }
}

/// One line of the scan: a header line closes the current section (kept
/// when its path is not empty) and opens a new one; any other line is added
/// to the current section.
pub open spec fn diff_step(st: DiffScan, line: Seq<char>) -> DiffScan {
    if starts_with(line, "diff --git "@) {
        DiffScan {
            path: header_path(line),
            content: line.push('\n'),
            done: if st.path.len() > 0 {
                st.done.push((st.path, st.content))
            } else {
                st.done
            },
        }
    } else {
        DiffScan { path: st.path, content: st.content + line.push('\n'), done: st.done }
    }
}

/// The scan over all the lines.
pub open spec fn diff_scan(ls: Seq<Seq<char>>) -> DiffScan
    decreases ls.len(),
{
    if ls.len() == 0 {
        DiffScan { path: seq![], content: seq![], done: seq![] }
    } else {
        diff_step(diff_scan(ls.drop_last()), ls.last())
    }
}

/// The (path, text) of every file section of a git-format diff whose path
/// is not empty, in order.
pub open spec fn file_diffs(stdout: Seq<char>) -> Seq<(Seq<char>, Seq<char>)> {
    let st = diff_scan(lines(stdout));
    if st.path.len() > 0 {
        st.done.push((st.path, st.content))
    } else {
        st.done
    }
}

/// The file diffs of change `change_id` that `jj diff --git` printed.
pub open spec fn diffs_of(change_id: Seq<char>, stdout: Seq<char>) -> Seq<DiffRecord> {
    file_diffs(stdout).map_values(
        |d: (Seq<char>, Seq<char>)|
            DiffRecord { change_id: change_id, file_path: d.0, diff_content: d.1 },
    )
}

/// The views of a list of diffs.
pub open spec fn diff_views(v: Seq<JjDiff>) -> Seq<DiffRecord> {
    v.map_values(|d: JjDiff| d@)
}

/// The range of the path a header line `v[a..b]` names.
fn header_path_range(v: &[char], a: usize, b: usize, long: &[char], sep: &[char]) -> (r: (
    usize,
    usize,
))
    requires
        a <= b <= v@.len(),
        long@ == "diff --git a/"@,
        sep@ == " b/"@,
    ensures
        r.0 <= r.1 <= v@.len(),
        v@.subrange(r.0 as int, r.1 as int) == header_path(v@.subrange(a as int, b as int)),
{
    let ghost line = v@.subrange(a as int, b as int);
    if starts_with_at(v, a, b, long) {
        let s = a + long.len();
        proof {
            assert(line.skip(long@.len() as int) =~= v@.subrange(s as int, b as int));
        }
        match find_seq_at(v, s, b, sep) {
            Some(k) => {
                assert(v@.subrange(s as int, b as int).take(k - s) =~= v@.subrange(
                    s as int,
                    k as int,
                ));
                (s, k)
            },
            None => (s, b),
        }
    } else {
        (0, 0)
    }
}

/// Splits the output of `jj diff --git` for change `change_id` into one diff
/// per file section.
pub fn parse_diff(change_id: &str, stdout: &str) -> (r: Vec<JjDiff>)
    ensures
        diff_views(r@) == diffs_of(change_id@, stdout@),
{
    let v = chars_of(stdout);
    let header = chars_of("diff --git ");
    let long = chars_of("diff --git a/");
    let sep = chars_of(" b/");
    let ls = line_ranges(&v);
    let ghost all = lines(v@);
    let mut out: Vec<JjDiff> = Vec::new();
    let mut path: (usize, usize) = (0, 0);
    let mut content: Vec<char> = Vec::new();
    let mut i: usize = 0;
    proof {
        assert(all.take(0) =~= Seq::<Seq<char>>::empty());
        assert(diff_views(out@) =~= Seq::<DiffRecord>::empty());
        assert(v@.subrange(0, 0) =~= Seq::<char>::empty());
    }
    while i < ls.len()
        invariant
            v@ == stdout@,
            header@ == "diff --git "@,
            long@ == "diff --git a/"@,
            sep@ == " b/"@,
            all == lines(v@),
            ranges_text(v@, ls@) == all,
            forall|k: int| 0 <= k < ls@.len() ==> (#[trigger] ls@[k]).0 <= ls@[k].1 <= v@.len(),
            i <= ls@.len(),
            path.0 <= path.1 <= v@.len(),
            diff_scan(all.take(i as int)) == (DiffScan {
                path: v@.subrange(path.0 as int, path.1 as int),
                content: content@,
                done: diff_scan(all.take(i as int)).done,
            }),
            diff_views(out@) == diff_scan(all.take(i as int)).done.map_values(
                |d: (Seq<char>, Seq<char>)|
                    DiffRecord { change_id: change_id@, file_path: d.0, diff_content: d.1 },
            ),
        decreases ls@.len() - i,
    {
        let (la, lb) = ls[i];
        let ghost line = v@.subrange(la as int, lb as int);
        let ghost prev = diff_scan(all.take(i as int));
        let ghost before = out@;
        proof {
            assert(line == all[i as int]);
            assert(all.take(i + 1).drop_last() =~= all.take(i as int));
            assert(all.take(i + 1).last() == line);
        }
        if starts_with_at(&v, la, lb, &header) {
            if path.0 < path.1 {
                let d = JjDiff {
                    change_id: string_of(&chars_of(change_id)),
                    file_path: string_of_range(&v, path.0, path.1),
                    diff_content: string_of(&content),
                };
                out.push(d);
                proof {
                    assert(diff_views(out@) =~= diff_views(before).push(d@));
                }
            }
            path = header_path_range(&v, la, lb, &long, &sep);
            content = Vec::new();
            push_range(&mut content, &v, la, lb);
            content.push('\n');
        } else {
            push_range(&mut content, &v, la, lb);
            content.push('\n');
            proof {
                assert(content@ =~= prev.content + line.push('\n'));
            }
        }
        i = i + 1;
    }
    proof {
        assert(all.take(ls@.len() as int) =~= all);
    }
    if path.0 < path.1 {
        let ghost before = out@;
        let d = JjDiff {
            change_id: string_of(&chars_of(change_id)),
            file_path: string_of_range(&v, path.0, path.1),
            diff_content: string_of(&content),
        };
        out.push(d);
        proof {
            assert(diff_views(out@) =~= diff_views(before).push(d@));
        }
    }
    proof {
        assert(diff_views(out@) =~= diffs_of(change_id@, stdout@));
    }
    out
}

} // verus!

verus! {

/// The text before the values of a stored commit.
pub open spec fn commit_put_head() -> Seq<char> {
    "?[change_id, commit_id, parent_change_id, author, ts, commit_type, title, body, live] <- [[\n            "@
}

/// The text after the quoted values of a stored commit.
pub open spec fn commit_put_tail() -> Seq<char> {
    "true\n        ]]\n        :put commit { change_id => commit_id, parent_change_id, author, ts, commit_type, title, body, live }"@
}

/// The script that stores a commit in the `commit` relation; title and body
/// are escaped, the other values are written as they are.
pub open spec fn commit_put_script(c: CommitRecord) -> Seq<char> {
    commit_put_head() + "\""@ + c.change_id + "\", \""@ + c.commit_id + "\", \""@
        + c.parent_change_id + "\", \""@ + c.author + "\", \""@ + c.ts + "\", \""@
        + c.commit_type.name() + "\", \""@ + escaped(c.title) + "\", \""@ + escaped(c.body)
        + "\", "@ + commit_put_tail()
}

/// The script that writes `commit` into the `commit` relation.
pub fn commit_script(commit: &JjCommit) -> (r: String)
    ensures
        r@ == commit_put_script(commit@),
{
    let mut out: Vec<char> = Vec::new();
    push_str(
        &mut out,
        "?[change_id, commit_id, parent_change_id, author, ts, commit_type, title, body, live] <- [[\n            ",
    );
    push_str(&mut out, "\"");
    push_str(&mut out, commit.change_id.as_str());
    push_str(&mut out, "\", \"");
    push_str(&mut out, commit.commit_id.as_str());
    push_str(&mut out, "\", \"");
    push_str(&mut out, commit.parent_change_id.as_str());
    push_str(&mut out, "\", \"");
    push_str(&mut out, commit.author.as_str());
    push_str(&mut out, "\", \"");
    push_str(&mut out, commit.ts.as_str());
    push_str(&mut out, "\", \"");
    push_str(&mut out, commit.commit_type.as_str());
    push_str(&mut out, "\", \"");
    push_escaped(&mut out, commit.title.as_str());
    push_str(&mut out, "\", \"");
    push_escaped(&mut out, commit.body.as_str());
    push_str(&mut out, "\", ");
    push_str(
        &mut out,
        "true\n        ]]\n        :put commit { change_id => commit_id, parent_change_id, author, ts, commit_type, title, body, live }",
    );
    assert(out@ =~= commit_put_script(commit@));
    string_of(&out)
}

/// The text before the values of a stored diff.
pub open spec fn diff_put_head() -> Seq<char> {
    "?[change_id, file_path, diff_content, diff_bytes] <- [[\n            "@
}

/// The text after the byte count of a stored diff.
pub open spec fn diff_put_tail() -> Seq<char> {
    "\n        ]]\n        :put commit_diff { change_id, file_path => diff_content, diff_bytes }"@
}

/// The script that stores a file diff in the `commit_diff` relation; the
/// diff text is escaped, and the last field is its byte length.
pub open spec fn diff_put_script(d: DiffRecord) -> Seq<char> {
    diff_put_head() + "\""@ + d.change_id + "\", \""@ + d.file_path + "\", \""@
        + escaped(d.diff_content) + "\", "@ + decimal(utf8_len(d.diff_content)) + diff_put_tail()
}

/// The script that writes `diff` into the `commit_diff` relation.
pub fn diff_script(diff: &JjDiff) -> (r: String)
    ensures
        r@ == diff_put_script(diff@),
{
    let content = chars_of(diff.diff_content.as_str());
    let byte_count = utf8_len_wide(&content);
    let mut out: Vec<char> = Vec::new();
    push_str(&mut out, "?[change_id, file_path, diff_content, diff_bytes] <- [[\n            ");
    push_str(&mut out, "\"");
    push_str(&mut out, diff.change_id.as_str());
    push_str(&mut out, "\", \"");
    push_str(&mut out, diff.file_path.as_str());
    push_str(&mut out, "\", \"");
    push_escaped(&mut out, diff.diff_content.as_str());
    push_str(&mut out, "\", ");
    push_decimal(&mut out, byte_count);
    push_str(
        &mut out,
        "\n        ]]\n        :put commit_diff { change_id, file_path => diff_content, diff_bytes }",
    );
    assert(out@ =~= diff_put_script(diff@));
    string_of(&out)
}

/// What each commit type stands for in the `commit_type_vocab` relation.
pub open spec fn vocab_description(t: CommitType) -> Seq<char> {
    match t {
        CommitType::Draft => "Incomplete or exploratory change"@,
        CommitType::Proposal => "Suggested change for review"@,
        CommitType::Implementation => "Feature or capability implementation"@,
        CommitType::Testing => "Test additions or modifications"@,
        CommitType::Plan => "Architectural or implementation plan"@,
        CommitType::Review => "Code review feedback or response"@,
        CommitType::Refactor => "Structural improvement without behavior change"@,
        CommitType::Fix => "Bug fix or correction"@,
        CommitType::Session => "Session synthesis commit (aggregated intents)"@,
        CommitType::Intent => "Atomic single-intent change"@,
        CommitType::Release => "Release or version tag commit"@,
        CommitType::Merge => "Branch merge or integration"@,
    }
}

/// The script that records one commit type in `commit_type_vocab`.
pub open spec fn vocab_put_script(t: CommitType) -> Seq<char> {
    "?[name, description] <- [[\""@ + t.name() + "\",\""@ + vocab_description(t)
        + "\"]]\n               :put commit_type_vocab { name => description }"@
}

/// The description of `t` in `commit_type_vocab`.
fn vocab_description_of(t: CommitType) -> (r: &'static str)
    ensures
        r@ == vocab_description(t),
{
    match t {
        CommitType::Draft => "Incomplete or exploratory change",
        CommitType::Proposal => "Suggested change for review",
        CommitType::Implementation => "Feature or capability implementation",
        CommitType::Testing => "Test additions or modifications",
        CommitType::Plan => "Architectural or implementation plan",
        CommitType::Review => "Code review feedback or response",
        CommitType::Refactor => "Structural improvement without behavior change",
        CommitType::Fix => "Bug fix or correction",
        CommitType::Session => "Session synthesis commit (aggregated intents)",
        CommitType::Intent => "Atomic single-intent change",
        CommitType::Release => "Release or version tag commit",
        CommitType::Merge => "Branch merge or integration",
    }
}

/// The scripts that seed `commit_type_vocab` with every commit type, in the
/// order of `CommitType::all`.
pub fn commit_type_vocab_scripts() -> (r: Vec<String>)
    ensures
        r@.len() == 12,
        forall|i: int| 0 <= i < 12 ==> (#[trigger] r@[i])@ == vocab_put_script(all_commit_types()[i]),
{
    let types = [
        CommitType::Draft,
        CommitType::Proposal,
        CommitType::Implementation,
        CommitType::Testing,
        CommitType::Plan,
        CommitType::Review,
        CommitType::Refactor,
        CommitType::Fix,
        CommitType::Session,
        CommitType::Intent,
        CommitType::Release,
        CommitType::Merge,
    ];
    assert(types@ =~= all_commit_types());
    let mut r: Vec<String> = Vec::new();
    let mut i: usize = 0;
    while i < 12
        invariant
            i <= 12,
            types@ == all_commit_types(),
            r@.len() == i,
            forall|j: int| 0 <= j < i ==> (#[trigger] r@[j])@ == vocab_put_script(all_commit_types()[j]),
        decreases 12 - i,
    {
        let t = types[i];
        let mut out: Vec<char> = Vec::new();
        push_str(&mut out, "?[name, description] <- [[\"");
        push_str(&mut out, t.as_str());
        push_str(&mut out, "\",\"");
        push_str(&mut out, vocab_description_of(t));
        push_str(&mut out, "\"]]\n               :put commit_type_vocab { name => description }");
        assert(out@ =~= vocab_put_script(t));
        r.push(string_of(&out));
        i = i + 1;
    }
    r
}

} // verus!

verus! {

/// A finished file section: it names a file and its text starts with the
/// `diff --git ` header.
pub open spec fn section_well_formed(d: (Seq<char>, Seq<char>)) -> bool {
    d.0.len() > 0 && starts_with(d.1, "diff --git "@)
}

/// Every section the scan finishes is well formed, and so is the open one
/// once it names a file.
proof fn lemma_diff_scan_well_formed(ls: Seq<Seq<char>>)
    ensures
        forall|i: int|
            0 <= i < diff_scan(ls).done.len() ==> section_well_formed(
                #[trigger] diff_scan(ls).done[i],
            ),
        diff_scan(ls).path.len() > 0 ==> starts_with(diff_scan(ls).content, "diff --git "@),
    decreases ls.len(),
{
    if ls.len() > 0 {
        lemma_diff_scan_well_formed(ls.drop_last());
        let st = diff_scan(ls.drop_last());
        let line = ls.last();
        let h = "diff --git "@;
        if starts_with(line, h) {
            assert(line.push('\n').take(h.len() as int) =~= line.take(h.len() as int));
        } else if st.path.len() > 0 {
            assert((st.content + line.push('\n')).take(h.len() as int) =~= st.content.take(
                h.len() as int,
            ));
        }
    }
}

/// Every diff that `parse_diff` returns names a file, belongs to the change
/// asked for, and its text starts with its `diff --git ` header.
pub proof fn lemma_diffs_well_formed(change_id: Seq<char>, stdout: Seq<char>)
    ensures
        forall|i: int|
            0 <= i < diffs_of(change_id, stdout).len() ==> {
                let d = #[trigger] diffs_of(change_id, stdout)[i];
                &&& d.change_id == change_id
                &&& d.file_path.len() > 0
                &&& starts_with(d.diff_content, "diff --git "@)
            },
{
    lemma_diff_scan_well_formed(lines(stdout));
    let st = diff_scan(lines(stdout));
    assert forall|i: int| 0 <= i < file_diffs(stdout).len() implies section_well_formed(
        #[trigger] file_diffs(stdout)[i],
    ) by {
        if i < st.done.len() {
            assert(file_diffs(stdout)[i] == st.done[i]);
        }
    }
}

/// Every parsed commit's type is the one its title announces.
pub proof fn lemma_commit_types_inferred(ls: Seq<Seq<char>>)
    ensures
        forall|i: int|
            0 <= i < commits_of_lines(ls).len() ==> (#[trigger] commits_of_lines(ls)[i]).commit_type
                == CommitType::inferred(commits_of_lines(ls)[i].title),
    decreases ls.len(),
{
    if ls.len() > 0 {
        lemma_commit_types_inferred(ls.drop_last());
    }
}

} // verus!

verus! {

/// Calls `String::from_utf8` and keeps the text on success. Claimed, as its
/// documentation says: it succeeds exactly on valid UTF-8, and the text it
/// returns is what those bytes encode.
#[verifier::external_body]
fn string_from_utf8(bytes: Vec<u8>) -> (r: Option<String>)
    ensures
        r is Some <==> vstd::utf8::valid_utf8(bytes@),
        r matches Some(s) ==> s@ == vstd::utf8::decode_utf8(bytes@),
{
    String::from_utf8(bytes).ok()
}

/// Why the output of `jj` could not be read.
#[derive(Debug, Clone, Copy, PartialEq, Eq, Structural)]
pub enum OutputError {
    /// The output is not valid UTF-8.
    InvalidUtf8,
}

/// The text of the output of a `jj` command.
pub fn decode_output(stdout: Vec<u8>) -> (r: Result<String, OutputError>)
    ensures
        match r {
            Ok(s) => vstd::utf8::valid_utf8(stdout@) && s@ == vstd::utf8::decode_utf8(stdout@),
            Err(e) => !vstd::utf8::valid_utf8(stdout@) && e == OutputError::InvalidUtf8,
        },
{
    match string_from_utf8(stdout) {
        Some(s) => Ok(s),
        None => Err(OutputError::InvalidUtf8),
    }
}

} // verus!

verus! {

/// Text that can stand between double quotes unescaped: no `"` and no
/// backslash.
pub open spec fn plain_text(s: Seq<char>) -> bool {
    !s.contains('"') && !s.contains('\\')
}

/// The values a commit is stored with, in the order of the `commit` relation.
pub open spec fn commit_fields(c: CommitRecord) -> Seq<Seq<char>> {
    seq![
        c.change_id,
        c.commit_id,
        c.parent_change_id,
        c.author,
        c.ts,
        c.commit_type.name(),
        c.title,
        c.body,
    ]
}

/// The stored name of a commit type needs no escaping.
proof fn lemma_name_plain(t: CommitType)
    ensures
        plain_text(t.name()),
{
    let n = t.name();
    match t {
        CommitType::Draft => reveal_strlit("draft"),
        CommitType::Proposal => reveal_strlit("proposal"),
        CommitType::Implementation => reveal_strlit("implementation"),
        CommitType::Testing => reveal_strlit("testing"),
        CommitType::Plan => reveal_strlit("plan"),
        CommitType::Review => reveal_strlit("review"),
        CommitType::Refactor => reveal_strlit("refactor"),
        CommitType::Fix => reveal_strlit("fix"),
        CommitType::Session => reveal_strlit("session"),
        CommitType::Intent => reveal_strlit("intent"),
        CommitType::Release => reveal_strlit("release"),
        CommitType::Merge => reveal_strlit("merge"),
    }
    assert forall|i: int| 0 <= i < n.len() implies 'a' <= #[trigger] n[i] && n[i] <= 'z' by {
        match t {
            CommitType::Draft => reveal_strlit("draft"),
            CommitType::Proposal => reveal_strlit("proposal"),
            CommitType::Implementation => reveal_strlit("implementation"),
            CommitType::Testing => reveal_strlit("testing"),
            CommitType::Plan => reveal_strlit("plan"),
            CommitType::Review => reveal_strlit("review"),
            CommitType::Refactor => reveal_strlit("refactor"),
            CommitType::Fix => reveal_strlit("fix"),
            CommitType::Session => reveal_strlit("session"),
            CommitType::Intent => reveal_strlit("intent"),
            CommitType::Release => reveal_strlit("release"),
            CommitType::Merge => reveal_strlit("merge"),
        }
    }
}

/// `escaped` is the escaping for double-quoted literals.
proof fn lemma_escaped_is_escape_for(s: Seq<char>)
    ensures
        escaped(s) == crate::text::escape_for(s, '"'),
{
    reveal_strlit("\\\\");
    reveal_strlit("\\\"");
    assert("\\\\"@ =~= seq!['\\', '\\']);
    assert("\\\""@ =~= seq!['\\', '"']);
}

/// A stored commit reads back as given: after the script's head, its
/// double-quoted values read back as the commit's fields (title and body
/// whatever they hold), each literal closing where it should, and the rest
/// of the script follows. The identifiers and the timestamp are written
/// unescaped, so they must need no escaping.
pub proof fn lemma_commit_script_reads_back(c: CommitRecord)
    requires
        plain_text(c.change_id),
        plain_text(c.commit_id),
        plain_text(c.parent_change_id),
        plain_text(c.author),
        plain_text(c.ts),
    ensures
        starts_with(commit_put_script(c), commit_put_head()),
        crate::text::read_row(
            commit_put_script(c).skip(commit_put_head().len() as int),
            8,
            '"',
        ) == Some((commit_fields(c), commit_put_tail())),
{
    lemma_name_plain(c.commit_type);
    let q = '"';
    let t = commit_put_tail();
    let r7 = quoted_field(escaped(c.body), t);
    let r6 = quoted_field(escaped(c.title), r7);
    let r5 = quoted_field(c.commit_type.name(), r6);
    let r4 = quoted_field(c.ts, r5);
    let r3 = quoted_field(c.author, r4);
    let r2 = quoted_field(c.parent_change_id, r3);
    let r1 = quoted_field(c.commit_id, r2);
    let r0 = quoted_field(c.change_id, r1);
    let script = commit_put_script(c);
    let hl = commit_put_head().len() as int;
    lemma_commit_script_pieces(c);
    assert(script.take(hl) =~= commit_put_head());
    assert(script.skip(hl) =~= r0);
    let e = Seq::<Seq<char>>::empty();
    assert(crate::text::read_row(t, 0, q) == Some((e, t)));
    lemma_read_escaped_field(c.body, t, 0);
    let f7 = seq![c.body];
    assert(seq![c.body] + e =~= f7);
    lemma_read_escaped_field(c.title, r7, 1);
    let f6 = seq![c.title] + f7;
    lemma_read_plain_field(c.commit_type.name(), r6, 2);
    let f5 = seq![c.commit_type.name()] + f6;
    lemma_read_plain_field(c.ts, r5, 3);
    let f4 = seq![c.ts] + f5;
    lemma_read_plain_field(c.author, r4, 4);
    let f3 = seq![c.author] + f4;
    lemma_read_plain_field(c.parent_change_id, r3, 5);
    let f2 = seq![c.parent_change_id] + f3;
    lemma_read_plain_field(c.commit_id, r2, 6);
    let f1 = seq![c.commit_id] + f2;
    lemma_read_plain_field(c.change_id, r1, 7);
    let f0 = seq![c.change_id] + f1;
    assert(crate::text::read_row(r0, 8, q) == Some((f0, t)));
    assert(f0 =~= commit_fields(c));
}

/// Reading a row at a value written unescaped: text that needs no escaping
/// comes back as itself.
proof fn lemma_read_plain_field(v: Seq<char>, more: Seq<char>, n: nat)
    requires
        plain_text(v),
    ensures
        crate::text::read_row(quoted_field(v, more), n + 1, '"') == (match crate::text::read_row(
            more,
            n,
            '"',
        ) {
            Some(r) => Some((seq![v] + r.0, r.1)),
            None => None,
        }),
{
    crate::text::lemma_escape_for_plain(v, '"');
    crate::text::lemma_read_row_field(v, more, n, '"');
    assert(quoted_field(v, more) =~= seq!['"'] + crate::text::escape_for(v, '"') + seq!['"', ',', ' ']
        + more);
}

/// Reading a row at an escaped value: the value comes back as it was.
proof fn lemma_read_escaped_field(v: Seq<char>, more: Seq<char>, n: nat)
    ensures
        crate::text::read_row(quoted_field(escaped(v), more), n + 1, '"') == (
        match crate::text::read_row(more, n, '"') {
            Some(r) => Some((seq![v] + r.0, r.1)),
            None => None,
        }),
{
    lemma_escaped_is_escape_for(v);
    crate::text::lemma_read_row_field(v, more, n, '"');
    assert(quoted_field(escaped(v), more) =~= seq!['"'] + crate::text::escape_for(v, '"') + seq![
        '"',
        ',',
        ' ',
    ] + more);
}

/// A stored diff reads back as given: after the script's head, its
/// double-quoted values read back as the change id, the path and the diff
/// text (whatever it holds), followed by the byte count and the rest of the
/// script. The change id and the path are written unescaped, so they must
/// need no escaping.
pub proof fn lemma_diff_script_reads_back(d: DiffRecord)
    requires
        plain_text(d.change_id),
        plain_text(d.file_path),
    ensures
        starts_with(diff_put_script(d), diff_put_head()),
        crate::text::read_row(diff_put_script(d).skip(diff_put_head().len() as int), 3, '"')
            == Some((
            seq![d.change_id, d.file_path, d.diff_content],
            decimal(utf8_len(d.diff_content)) + diff_put_tail(),
        )),
{
    use_escape_pieces();
    crate::text::lemma_escape_for_plain(d.change_id, '"');
    crate::text::lemma_escape_for_plain(d.file_path, '"');
    lemma_escaped_is_escape_for(d.diff_content);
    let q = '"';
    let sep = seq![q, ',', ' '];
    let r3 = decimal(utf8_len(d.diff_content)) + diff_put_tail();
    let r2 = seq![q] + crate::text::escape_for(d.diff_content, q) + sep + r3;
    let r1 = seq![q] + crate::text::escape_for(d.file_path, q) + sep + r2;
    let r0 = seq![q] + crate::text::escape_for(d.change_id, q) + sep + r1;
    let script = diff_put_script(d);
    let hl = diff_put_head().len() as int;
    assert(script =~= diff_put_head() + r0);
    assert(script.take(hl) =~= diff_put_head());
    assert(script.skip(hl) =~= r0);
    crate::text::lemma_read_row_field(d.diff_content, r3, 0, q);
    crate::text::lemma_read_row_field(d.file_path, r2, 1, q);
    crate::text::lemma_read_row_field(d.change_id, r1, 2, q);
    assert(crate::text::read_row(r3, 0, q) == Some((Seq::<Seq<char>>::empty(), r3)));
    assert(crate::text::read_row(r0, 3, q).unwrap().0 =~= seq![
        d.change_id,
        d.file_path,
        d.diff_content,
    ]);
}

/// A value written between double quotes and followed by `, `, then `more`.
pub open spec fn quoted_field(v: Seq<char>, more: Seq<char>) -> Seq<char> {
    seq!['"'] + v + seq!['"', ',', ' '] + more
}

/// The commit script cut at its quotes, field by field.
#[verifier::spinoff_prover]
#[verifier::rlimit(50)]
proof fn lemma_commit_script_pieces(c: CommitRecord)
    ensures
        commit_put_script(c) =~= commit_put_head() + quoted_field(
            c.change_id,
            quoted_field(
                c.commit_id,
                quoted_field(
                    c.parent_change_id,
                    quoted_field(
                        c.author,
                        quoted_field(
                            c.ts,
                            quoted_field(
                                c.commit_type.name(),
                                quoted_field(
                                    escaped(c.title),
                                    quoted_field(escaped(c.body), commit_put_tail()),
                                ),
                            ),
                        ),
                    ),
                ),
            ),
        ),
{
    use_escape_pieces();
    let h = commit_put_head();
    let t = commit_put_tail();
    let q1 = seq!['"'];
    let q3 = seq!['"', ',', ' '];
    let q4 = seq!['"', ',', ' ', '"'];
    assert(q3 + q1 =~= q4);
    let v0 = c.change_id;
    let v1 = c.commit_id;
    let v2 = c.parent_change_id;
    let v3 = c.author;
    let v4 = c.ts;
    let v5 = c.commit_type.name();
    let v6 = escaped(c.title);
    let v7 = escaped(c.body);
    let m0 = h + q1 + v0;
    let m1 = m0 + q4 + v1;
    let m2 = m1 + q4 + v2;
    let m3 = m2 + q4 + v3;
    let m4 = m3 + q4 + v4;
    let m5 = m4 + q4 + v5;
    let m6 = m5 + q4 + v6;
    let m7 = m6 + q4 + v7;
    let r7 = quoted_field(v7, t);
    let r6 = quoted_field(v6, r7);
    let r5 = quoted_field(v5, r6);
    let r4 = quoted_field(v4, r5);
    let r3 = quoted_field(v3, r4);
    let r2 = quoted_field(v2, r3);
    let r1 = quoted_field(v1, r2);
    let r0 = quoted_field(v0, r1);
    assert(commit_put_script(c) == m7 + q3 + t);
    assert(m7 + q3 + t =~= m6 + q3 + r7);
    assert(m6 + q3 + r7 =~= m5 + q3 + r6);
    assert(m5 + q3 + r6 =~= m4 + q3 + r5);
    assert(m4 + q3 + r5 =~= m3 + q3 + r4);
    assert(m3 + q3 + r4 =~= m2 + q3 + r3);
    assert(m2 + q3 + r3 =~= m1 + q3 + r2);
    assert(m1 + q3 + r2 =~= m0 + q3 + r1);
    assert(m0 + q3 + r1 =~= h + r0);
}

/// The separators of the store scripts, character by character.
proof fn use_escape_pieces()
    ensures
        "\""@ == seq!['"'],
        "\", \""@ == seq!['"', ',', ' ', '"'],
        "\", "@ == seq!['"', ',', ' '],
{
    reveal_strlit("\"");
    reveal_strlit("\", \"");
    reveal_strlit("\", ");
    assert("\""@ =~= seq!['"']);
    assert("\", \""@ =~= seq!['"', ',', ' ', '"']);
    assert("\", "@ =~= seq!['"', ',', ' ']);
}

} // verus!

verus! {

/// Inferring a commit type ignores the ASCII case of the description and
/// any whitespace before it.
pub proof fn lemma_infer_ignores_case_and_leading_space(description: Seq<char>, lead: Seq<char>)
    requires
        forall|i: int| 0 <= i < lead.len() ==> crate::text::is_whitespace(#[trigger] lead[i]),
    ensures
        CommitType::inferred(crate::text::ascii_uppercase(description)) == CommitType::inferred(
            description,
        ),
        CommitType::inferred(lead + description) == CommitType::inferred(description),
{
    let lower = ascii_lowercase(trim(description));
    assert(ascii_lowercase(trim(crate::text::ascii_uppercase(description))) == lower) by {
        crate::text::lemma_trim_uppercase(description);
        crate::text::lemma_lowercase_of_uppercase(trim(description));
    }
    assert(ascii_lowercase(trim(lead + description)) == lower) by {
        crate::text::lemma_trim_leading_whitespace(lead, description);
    }
}

} // verus!

verus! {

/// A `jj log` line that describes a commit: not blank, and its trimmed text
/// cut at `|` (at most seven pieces) has at least six fields, whatever they
/// hold.
pub open spec fn is_commit_line(line: Seq<char>) -> bool {
    trim(line).len() > 0 && split_n(trim(line), 7, '|').len() >= 6
}

/// `parse_commit_log` yields exactly one commit per line that describes a
/// commit, in the order of the lines, and no other: the returned indices
/// name those lines, each commit's ids, parent, author, timestamp and title
/// are that line's fields in order, its type is the one the title
/// announces, and every line that describes a commit is among them.
pub proof fn lemma_commit_lines(ls: Seq<Seq<char>>) -> (idx: Seq<int>)
    ensures
        idx.len() == commits_of_lines(ls).len(),
        forall|i: int, j: int| 0 <= i < j < idx.len() ==> idx[i] < idx[j],
        forall|i: int|
            0 <= i < idx.len() ==> {
                let k = #[trigger] idx[i];
                let p = split_n(trim(ls[k]), 7, '|');
                let c = commits_of_lines(ls)[i];
                &&& 0 <= k < ls.len()
                &&& is_commit_line(ls[k])
                &&& c.change_id == p[0]
                &&& c.commit_id == p[1]
                &&& c.parent_change_id == p[2]
                &&& c.author == p[3]
                &&& c.ts == p[4]
                &&& c.title == p[5]
                &&& c.commit_type == CommitType::inferred(p[5])
            },
        forall|k: int|
            0 <= k < ls.len() && is_commit_line(#[trigger] ls[k]) ==> exists|i: int|
                0 <= i < idx.len() && idx[i] == k,
    decreases ls.len(),
{
    if ls.len() == 0 {
        seq![]
    } else {
        let init = ls.drop_last();
        let idx0 = lemma_commit_lines(init);
        let n = ls.len() - 1;
        let line = ls.last();
        assert(ls[n] == line);
        assert forall|k: int| 0 <= k < n implies ls[k] == init[k] by {}
        let idx = if is_commit_line(line) {
            idx0.push(n)
        } else {
            idx0
        };
        let cs = commits_of_lines(ls);
        let cs0 = commits_of_lines(init);
        assert forall|i: int| 0 <= i < idx.len() implies {
            let k = #[trigger] idx[i];
            let p = split_n(trim(ls[k]), 7, '|');
            let c = commits_of_lines(ls)[i];
            &&& 0 <= k < ls.len()
            &&& is_commit_line(ls[k])
            &&& c.change_id == p[0]
            &&& c.commit_id == p[1]
            &&& c.parent_change_id == p[2]
            &&& c.author == p[3]
            &&& c.ts == p[4]
            &&& c.title == p[5]
            &&& c.commit_type == CommitType::inferred(p[5])
        } by {
            if i < idx0.len() {
                assert(idx[i] == idx0[i]);
                assert(cs[i] == cs0[i]);
                assert(ls[idx0[i]] == init[idx0[i]]);
            }
        }
        assert forall|k: int| 0 <= k < ls.len() && is_commit_line(#[trigger] ls[k]) implies exists|i: int|
            0 <= i < idx.len() && idx[i] == k by {
            if k < n {
                assert(init[k] == ls[k]);
                let i = choose|i: int| 0 <= i < idx0.len() && idx0[i] == k;
                assert(idx[i] == k);
            } else {
                assert(idx[idx.len() - 1] == k);
            }
        }
        idx
    }
}

/// The same for the whole output of `jj log`.
pub proof fn lemma_commit_log_lines(stdout: Seq<char>) -> (idx: Seq<int>)
    ensures
        idx.len() == commits_of(stdout).len(),
        forall|i: int, j: int| 0 <= i < j < idx.len() ==> idx[i] < idx[j],
        forall|i: int|
            0 <= i < idx.len() ==> {
                let k = #[trigger] idx[i];
                let p = split_n(trim(lines(stdout)[k]), 7, '|');
                let c = commits_of(stdout)[i];
                &&& 0 <= k < lines(stdout).len()
                &&& is_commit_line(lines(stdout)[k])
                &&& c.change_id == p[0]
                &&& c.commit_id == p[1]
                &&& c.parent_change_id == p[2]
                &&& c.author == p[3]
                &&& c.ts == p[4]
                &&& c.title == p[5]
                &&& c.commit_type == CommitType::inferred(p[5])
            },
        forall|k: int|
            0 <= k < lines(stdout).len() && is_commit_line(#[trigger] lines(stdout)[k]) ==> exists|
                i: int,
            |
                0 <= i < idx.len() && idx[i] == k,
{
    lemma_commit_lines(lines(stdout))
}

} // verus!

verus! {

/// A line that opens a file section of a git-format diff.
pub open spec fn is_diff_header(line: Seq<char>) -> bool {
    starts_with(line, "diff --git "@)
}

/// Lines written out as text, each followed by a newline.
pub open spec fn lines_text(ls: Seq<Seq<char>>) -> Seq<char>
    decreases ls.len(),
{
    if ls.len() == 0 {
        seq![]
    } else {
        lines_text(ls.drop_last()) + ls.last().push('\n')
    }
}

/// The file section of `ls` from the header at `s` up to `e`: `e` is the
/// next header after `s`, or the end.
pub open spec fn is_section(ls: Seq<Seq<char>>, s: int, e: int) -> bool {
    &&& 0 <= s < e <= ls.len()
    &&& is_diff_header(ls[s])
    &&& (e == ls.len() || is_diff_header(ls[e]))
    &&& forall|k: int| s < k < e ==> !is_diff_header(#[trigger] ls[k])
}

/// The state of the scan over `ls`, told in terms of the lines: the finished
/// sections are the sections from `starts[i]` to `ends[i]`, in order, each
/// naming a file and holding its lines verbatim; the open one starts at the
/// last header `open` (or there is none, `-1`, and no path); every header
/// naming a file before the open one starts a finished section.
spec fn scan_told(ls: Seq<Seq<char>>, starts: Seq<int>, ends: Seq<int>, open: int) -> bool {
    let st = diff_scan(ls);
    &&& open >= -1
    &&& open == -1 ==> st.path.len() == 0 && st.done.len() == 0 && forall|k: int|
        0 <= k < ls.len() ==> !is_diff_header(#[trigger] ls[k])
    &&& open >= 0 ==> {
        &&& is_section(ls, open, ls.len() as int)
        &&& st.path == header_path(ls[open])
        &&& st.content == lines_text(ls.subrange(open, ls.len() as int))
    }
    &&& starts.len() == st.done.len()
    &&& ends.len() == st.done.len()
    &&& forall|i: int|
        0 <= i < starts.len() ==> {
            &&& is_section(ls, #[trigger] starts[i], ends[i])
            &&& ends[i] <= open
            &&& header_path(ls[starts[i]]).len() > 0
            &&& st.done[i] == (header_path(ls[starts[i]]), lines_text(
                ls.subrange(starts[i], ends[i]),
            ))
        }
    &&& forall|i: int, j: int| 0 <= i < j < starts.len() ==> starts[i] < starts[j]
    &&& forall|k: int|
        0 <= k < ls.len() && k != open && is_diff_header(#[trigger] ls[k]) && header_path(
            ls[k],
        ).len() > 0 ==> exists|i: int| 0 <= i < starts.len() && starts[i] == k
}

/// The scan, told in terms of the lines.
proof fn lemma_scan_told(ls: Seq<Seq<char>>) -> (r: (Seq<int>, Seq<int>, int))
    ensures
        scan_told(ls, r.0, r.1, r.2),
    decreases ls.len(),
{
    if ls.len() == 0 {
        (seq![], seq![], -1)
    } else {
        let init = ls.drop_last();
        let (s0, e0, o0) = lemma_scan_told(init);
        let n = ls.len() - 1;
        let line = ls.last();
        assert(ls[n] == line);
        assert forall|k: int| 0 <= k < n implies ls[k] == init[k] by {}
        let st0 = diff_scan(init);
        let st = diff_scan(ls);
        assert(st == diff_step(st0, line));
        assert(scan_told(init, s0, e0, o0));
        assert(o0 == -1 ==> st0.path.len() == 0);
        assert(st0.done.len() == s0.len());
        assert(e0.len() == s0.len());
        if is_diff_header(line) {
            let (s1, e1) = if o0 >= 0 && st0.path.len() > 0 {
                (s0.push(o0), e0.push(n))
            } else {
                (s0, e0)
            };
            assert(ls.subrange(n, n + 1) =~= seq![line]);
            assert(seq![line].drop_last() =~= Seq::<Seq<char>>::empty());
            assert(seq![line].last() == line);
            assert(lines_text(Seq::<Seq<char>>::empty()) =~= Seq::<char>::empty());
            assert(lines_text(seq![line]) == lines_text(Seq::<Seq<char>>::empty()) + line.push('\n'));
            assert(lines_text(seq![line]) =~= line.push('\n'));
            assert(init.subrange(0, 0) =~= Seq::<Seq<char>>::empty());
            if o0 >= 0 {
                assert(ls.subrange(o0, n) =~= init.subrange(o0, n));
            }
            assert forall|i: int| 0 <= i < s1.len() implies {
                &&& is_section(ls, #[trigger] s1[i], e1[i])
                &&& e1[i] <= n
                &&& header_path(ls[s1[i]]).len() > 0
                &&& st.done[i] == (header_path(ls[s1[i]]), lines_text(ls.subrange(s1[i], e1[i])))
            } by {
                if i < s0.len() {
                    assert(s1[i] == s0[i]);
                    assert(e1[i] == e0[i]);
                    assert(st.done[i] == st0.done[i]);
                    assert(ls.subrange(s0[i], e0[i]) =~= init.subrange(s0[i], e0[i]));
                    assert(is_section(init, s0[i], e0[i]));
                    assert(e0[i] < init.len() ==> ls[e0[i]] == init[e0[i]]);
                    assert(e0[i] == init.len() ==> ls[e0[i]] == line);
                } else {
                    assert(s1[i] == o0);
                    assert(e1[i] == n);
                }
            }
            assert forall|k: int|
                0 <= k < ls.len() && k != n && is_diff_header(#[trigger] ls[k]) && header_path(
                    ls[k],
                ).len() > 0 implies exists|i: int| 0 <= i < s1.len() && s1[i] == k by {
                assert(init[k] == ls[k]);
                if k == o0 {
                    assert(s1[s1.len() - 1] == k);
                } else {
                    let i = choose|i: int| 0 <= i < s0.len() && s0[i] == k;
                    assert(s1[i] == k);
                }
            }
            assert(st.path == header_path(line));
            assert(st.content == lines_text(ls.subrange(n, ls.len() as int)));
            assert(is_section(ls, n, ls.len() as int));
            assert(st.done.len() == s1.len());
            assert forall|i: int, j: int| 0 <= i < j < s1.len() implies s1[i] < s1[j] by {
                if j < s0.len() {
                    assert(s1[i] == s0[i] && s1[j] == s0[j]);
                } else {
                    assert(s1[j] == o0);
                    assert(s1[i] == s0[i]);
                    assert(e0[i] <= o0);
                }
            }
            assert(scan_told(ls, s1, e1, n));
            (s1, e1, n)
        } else {
            if o0 >= 0 {
                let sub = ls.subrange(o0, ls.len() as int);
                assert(sub.drop_last() =~= init.subrange(o0, n));
                assert(sub.last() == line);
            }
            assert forall|i: int| 0 <= i < s0.len() implies {
                &&& is_section(ls, #[trigger] s0[i], e0[i])
                &&& e0[i] <= o0
                &&& header_path(ls[s0[i]]).len() > 0
                &&& st.done[i] == (header_path(ls[s0[i]]), lines_text(ls.subrange(s0[i], e0[i])))
            } by {
                assert(ls.subrange(s0[i], e0[i]) =~= init.subrange(s0[i], e0[i]));
                assert(is_section(init, s0[i], e0[i]));
            }
            assert forall|k: int|
                0 <= k < ls.len() && k != o0 && is_diff_header(#[trigger] ls[k]) && header_path(
                    ls[k],
                ).len() > 0 implies exists|i: int| 0 <= i < s0.len() && s0[i] == k by {
                assert(init[k] == ls[k]);
            }
            assert(scan_told(ls, s0, e0, o0));
            (s0, e0, o0)
        }
    }
}

/// `parse_diff` returns one diff per file section of the output, in order:
/// section `i` runs from the header line `starts[i]` up to the next header
/// (or the end), `ends[i]`; the diff names the change asked for and the path
/// of its header, and its text is the section's lines exactly as printed,
/// each followed by a newline. Every header that names a file starts one of
/// these sections; text before the first header and sections that name no
/// file give no diff.
pub proof fn lemma_diffs_are_sections(change_id: Seq<char>, stdout: Seq<char>) -> (r: (
    Seq<int>,
    Seq<int>,
))
    ensures
        ({
            let ls = lines(stdout);
            let d = diffs_of(change_id, stdout);
            let (starts, ends) = r;
            &&& starts.len() == d.len()
            &&& ends.len() == d.len()
            &&& forall|i: int|
                0 <= i < d.len() ==> {
                    &&& is_section(ls, #[trigger] starts[i], ends[i])
                    &&& d[i].change_id == change_id
                    &&& d[i].file_path == header_path(ls[starts[i]])
                    &&& d[i].file_path.len() > 0
                    &&& d[i].diff_content == lines_text(ls.subrange(starts[i], ends[i]))
                }
            &&& forall|i: int, j: int| 0 <= i < j < d.len() ==> starts[i] < starts[j]
            &&& forall|k: int|
                0 <= k < ls.len() && is_diff_header(#[trigger] ls[k]) && header_path(ls[k]).len()
                    > 0 ==> exists|i: int| 0 <= i < d.len() && starts[i] == k
        }),
{
    let ls = lines(stdout);
    let (s0, e0, o0) = lemma_scan_told(ls);
    let st = diff_scan(ls);
    let fd = file_diffs(stdout);
    let d = diffs_of(change_id, stdout);
    let (starts, ends) = if st.path.len() > 0 {
        (s0.push(o0), e0.push(ls.len() as int))
    } else {
        (s0, e0)
    };
    assert(d.len() == fd.len());
    assert(fd.len() == starts.len());
    assert forall|i: int, j: int| 0 <= i < j < d.len() implies starts[i] < starts[j] by {
        if j < s0.len() {
            assert(starts[i] == s0[i] && starts[j] == s0[j]);
        } else {
            assert(starts[i] == s0[i]);
            assert(e0[i] <= o0);
        }
    }
    assert forall|i: int| 0 <= i < d.len() implies {
        &&& is_section(ls, #[trigger] starts[i], ends[i])
        &&& d[i].change_id == change_id
        &&& d[i].file_path == header_path(ls[starts[i]])
        &&& d[i].file_path.len() > 0
        &&& d[i].diff_content == lines_text(ls.subrange(starts[i], ends[i]))
    } by {
        assert(d[i].file_path == fd[i].0);
        assert(d[i].diff_content == fd[i].1);
        assert(d[i].change_id == change_id);
        if i < s0.len() {
            assert(starts[i] == s0[i]);
            assert(ends[i] == e0[i]);
            assert(fd[i] == st.done[i]);
        } else {
            assert(o0 >= 0);
            assert(starts[i] == o0);
            assert(ends[i] == ls.len());
            assert(fd[i] == (st.path, st.content));
        }
    }
    assert forall|k: int|
        0 <= k < ls.len() && is_diff_header(#[trigger] ls[k]) && header_path(ls[k]).len() > 0 implies exists|
        i: int,
    | 0 <= i < d.len() && starts[i] == k by {
        if k == o0 {
            assert(starts[starts.len() - 1] == k);
        } else {
            let i = choose|i: int| 0 <= i < s0.len() && s0[i] == k;
            assert(starts[i] == k);
        }
    }
    (starts, ends)
}

} // verus!
