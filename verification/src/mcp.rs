//! The thought tools of the stdio (MCP) interface: their parameters, and
//! the scripts and replies they produce.
use vstd::prelude::*;

use crate::digest::{blake3_hex, blake3_hex_of};
use crate::text::{chars_of, join, push_all, push_range, push_replaced, push_str, replace_char, string_of};

verus! {

/// The parameters of `assert_thought`.
#[derive(Debug, Clone)]
pub struct AssertThoughtParams {
    /// Kind (Thought domain variant): user, feedback, project, reference, observation
    pub kind: String,
    /// Scope: repo name or "global"
    pub scope: String,
    /// Status: draft, proposed, approved
    pub status: String,
    /// Short title; a hash of it becomes part of the composite key
    pub title: String,
    /// Full body text
    pub body: String,
    /// Phase: becoming (staged), manifest (current), retired (archived)
    pub phase: String,
    /// Dignity: eternal, proven, seen, uncertain, delusion
    pub dignity: String,
    /// Optional tags for indexing
    pub tags: Vec<String>,
}

/// The parameters of `query_thoughts`.
#[derive(Debug, Clone)]
pub struct QueryThoughtsParams {
    /// Filter by kind (user, feedback, project, reference, observation)
    pub kind: Option<String>,
    /// Filter by scope (repo name or "global")
    pub scope: Option<String>,
    /// Filter by tag
    pub tag: Option<String>,
    /// Filter by phase (becoming, manifest, retired). Default: exclude retired.
    pub phase: Option<String>,
}

/// The phase a thought gets when none is given: `becoming`.
pub fn default_phase() -> (r: String)
    ensures
        r@ == "becoming"@,
{
    string_of(&chars_of("becoming"))
}

/// The dignity a thought gets when none is given: `seen`.
pub fn default_dignity() -> (r: String)
    ensures
        r@ == "seen"@,
{
    string_of(&chars_of("seen"))
}

/// Text escaped for a double-quoted CozoScript string the way the thought
/// tools do it: every `"` becomes `\"` (backslashes are left as they are).
pub open spec fn quote_escaped(s: Seq<char>) -> Seq<char> {
    replace_char(s, '"', "\\\""@)
}

/// Appends `quote_escaped(s)` to `out`.
fn push_quote_escaped(out: &mut Vec<char>, s: &str)
    ensures
        final(out)@ == old(out)@ + quote_escaped(s@),
{
    let v = chars_of(s);
    let quote = chars_of("\\\"");
    push_replaced(out, &v, 0, v.len(), '"', &quote);
    assert(v@.subrange(0, v@.len() as int) =~= v@);
}

/// The key hash of a thought: the first 16 characters of the lowercase
/// hexadecimal BLAKE3 hash of its title.
pub open spec fn short_title_hash(title: Seq<char>) -> Seq<char> {
    blake3_hex_of(title).take(16)
}

/// The key hash of a thought with title `title`.
pub fn title_hash(title: &str) -> (r: String)
    ensures
        r@ == short_title_hash(title@),
        r@.len() == 16,
{
    let full = blake3_hex(title);
    let v = chars_of(full.as_str());
    let mut out: Vec<char> = Vec::new();
    push_range(&mut out, &v, 0, 16);
    assert(out@ =~= v@.take(16));
    string_of(&out)
}

/// The script that stores a thought under `title_hash`, stamped `now`.
pub open spec fn thought_put(p: AssertThoughtParams, title_hash: Seq<char>, now: Seq<char>) -> Seq<
    char,
> {
    "?[kind, scope, title_hash, status, title, body, created_ts, updated_ts, phase, dignity] <- [[\n                    \""@
        + quote_escaped(p.kind@) + "\", \""@ + quote_escaped(p.scope@) + "\", \""@ + title_hash
        + "\", \""@ + quote_escaped(p.status@) + "\", \""@ + quote_escaped(p.title@) + "\", \""@
        + quote_escaped(p.body@) + "\", \""@ + quote_escaped(now) + "\", \""@ + quote_escaped(now)
        + "\", \""@ + quote_escaped(p.phase@) + "\", \""@ + quote_escaped(p.dignity@)
        + "\"\n                ]]\n                :put thought { kind, scope, title_hash => status, title, body, created_ts, updated_ts, phase, dignity }"@
}

/// The script that stores a thought under `title_hash`, stamped `now`.
pub fn thought_put_script(params: &AssertThoughtParams, title_hash: &str, now: &str) -> (r: String)
    ensures
        r@ == thought_put(*params, title_hash@, now@),
{
    let mut out: Vec<char> = Vec::new();
    push_str(
        &mut out,
        "?[kind, scope, title_hash, status, title, body, created_ts, updated_ts, phase, dignity] <- [[\n                    \"",
    );
    push_quote_escaped(&mut out, params.kind.as_str());
    push_str(&mut out, "\", \"");
    push_quote_escaped(&mut out, params.scope.as_str());
    push_str(&mut out, "\", \"");
    push_str(&mut out, title_hash);
    push_str(&mut out, "\", \"");
    push_quote_escaped(&mut out, params.status.as_str());
    push_str(&mut out, "\", \"");
    push_quote_escaped(&mut out, params.title.as_str());
    push_str(&mut out, "\", \"");
    push_quote_escaped(&mut out, params.body.as_str());
    push_str(&mut out, "\", \"");
    push_quote_escaped(&mut out, now);
    push_str(&mut out, "\", \"");
    push_quote_escaped(&mut out, now);
    push_str(&mut out, "\", \"");
    push_quote_escaped(&mut out, params.phase.as_str());
    push_str(&mut out, "\", \"");
    push_quote_escaped(&mut out, params.dignity.as_str());
    push_str(
        &mut out,
        "\"\n                ]]\n                :put thought { kind, scope, title_hash => status, title, body, created_ts, updated_ts, phase, dignity }",
    );
    assert(out@ =~= thought_put(*params, title_hash@, now@));
    string_of(&out)
}

/// The script that attaches `tag` to the thought keyed by `title_hash`.
pub open spec fn thought_tag_put(p: AssertThoughtParams, title_hash: Seq<char>, tag: Seq<char>) -> Seq<
    char,
> {
    "?[kind, scope, title_hash, tag] <- [[\""@ + quote_escaped(p.kind@) + "\",\""@
        + quote_escaped(p.scope@) + "\",\""@ + title_hash + "\",\""@ + quote_escaped(tag)
        + "\"]]\n                    :put thought_tag { kind, scope, title_hash, tag }"@
}

/// The script that attaches `tag` to the thought keyed by `title_hash`.
pub fn thought_tag_script(params: &AssertThoughtParams, title_hash: &str, tag: &str) -> (r: String)
    ensures
        r@ == thought_tag_put(*params, title_hash@, tag@),
{
    let mut out: Vec<char> = Vec::new();
    push_str(&mut out, "?[kind, scope, title_hash, tag] <- [[\"");
    push_quote_escaped(&mut out, params.kind.as_str());
    push_str(&mut out, "\",\"");
    push_quote_escaped(&mut out, params.scope.as_str());
    push_str(&mut out, "\",\"");
    push_str(&mut out, title_hash);
    push_str(&mut out, "\",\"");
    push_quote_escaped(&mut out, tag);
    push_str(&mut out, "\"]]\n                    :put thought_tag { kind, scope, title_hash, tag }");
    assert(out@ =~= thought_tag_put(*params, title_hash@, tag@));
    string_of(&out)
}

/// The scripts `assert_thought` runs, in order, given the key hash of the
/// thought: the thought itself, then one per tag.
pub open spec fn thought_scripts(p: AssertThoughtParams, title_hash: Seq<char>, now: Seq<char>) -> Seq<
    Seq<char>,
> {
    seq![thought_put(p, title_hash, now)] + p.tags@.map_values(
        |t: String| thought_tag_put(p, title_hash, t@),
    )
}

/// The scripts that store a thought and its tags, keyed by `title_hash`.
pub fn thought_scripts_with_hash(params: &AssertThoughtParams, title_hash: &str, now: &str) -> (r:
    Vec<String>)
    ensures
        r@.len() == 1 + params.tags@.len(),
        forall|i: int|
            0 <= i < r@.len() ==> (#[trigger] r@[i])@ == thought_scripts(*params, title_hash@, now@)[i],
{
    let mut r: Vec<String> = Vec::new();
    r.push(thought_put_script(params, title_hash, now));
    let mut i: usize = 0;
    while i < params.tags.len()
        invariant
            i <= params.tags@.len(),
            r@.len() == 1 + i,
            forall|j: int|
                0 <= j < r@.len() ==> (#[trigger] r@[j])@ == thought_scripts(
                    *params,
                    title_hash@,
                    now@,
                )[j],
        decreases params.tags@.len() - i,
    {
        r.push(thought_tag_script(params, title_hash, params.tags[i].as_str()));
        i = i + 1;
    }
    r
}

/// The scripts that store a thought and its tags, keyed by the short hash
/// of its title and stamped `now`.
pub fn assert_thought_scripts(params: &AssertThoughtParams, now: &str) -> (r: Vec<String>)
    ensures
        r@.len() == 1 + params.tags@.len(),
        forall|i: int|
            0 <= i < r@.len() ==> (#[trigger] r@[i])@ == thought_scripts(
                *params,
                short_title_hash(params.title@),
                now@,
            )[i],
{
    let hash = title_hash(params.title.as_str());
    thought_scripts_with_hash(params, hash.as_str(), now)
}

/// The reply of `assert_thought` once its scripts have run.
pub open spec fn asserted_message(p: AssertThoughtParams) -> Seq<char> {
    "Thought '"@ + p.title@ + "' asserted with phase '"@ + p.phase@ + "', dignity '"@ + p.dignity@
        + "'"@
}

/// The reply of `assert_thought` once its scripts have run.
pub fn assert_thought_message(params: &AssertThoughtParams) -> (r: String)
    ensures
        r@ == asserted_message(*params),
{
    let mut out: Vec<char> = Vec::new();
    push_str(&mut out, "Thought '");
    push_str(&mut out, params.title.as_str());
    push_str(&mut out, "' asserted with phase '");
    push_str(&mut out, params.phase.as_str());
    push_str(&mut out, "', dignity '");
    push_str(&mut out, params.dignity.as_str());
    push_str(&mut out, "'");
    assert(out@ =~= asserted_message(*params));
    string_of(&out)
}

/// The reply to a tool whose script failed with `detail`.
pub fn error_reply(detail: &str) -> (r: String)
    ensures
        r@ == "error: "@ + detail@,
{
    let mut out: Vec<char> = Vec::new();
    push_str(&mut out, "error: ");
    push_str(&mut out, detail);
    string_of(&out)
}

/// The reply of `assert_thought` when its worker task could not be joined.
pub fn assert_join_failure_reply(detail: &str) -> (r: String)
    ensures
        r@ == "{\"error\": \"task join failed: "@ + detail@ + "\"}"@,
{
    let mut out: Vec<char> = Vec::new();
    push_str(&mut out, "{\"error\": \"task join failed: ");
    push_str(&mut out, detail);
    push_str(&mut out, "\"}");
    assert(out@ =~= "{\"error\": \"task join failed: "@ + detail@ + "\"}"@);
    string_of(&out)
}

/// The reply of `query_thoughts` when its worker task could not be joined.
pub fn query_join_failure_reply(detail: &str) -> (r: String)
    ensures
        r@ == "error: task join failed: "@ + detail@,
{
    let mut out: Vec<char> = Vec::new();
    push_str(&mut out, "error: task join failed: ");
    push_str(&mut out, detail);
    string_of(&out)
}

/// The phase condition of a thought query: the given phase, or, when none
/// is given, any phase but `retired`.
pub open spec fn phase_condition(phase: Option<String>) -> Seq<char> {
    match phase {
        Some(ph) => "phase == \""@ + quote_escaped(ph@) + "\""@,
        None => "phase != \"retired\""@,
    }
}

/// The filter conditions of a thought query: the phase condition, then the
/// kind and the scope when given.
pub open spec fn query_conditions(p: QueryThoughtsParams) -> Seq<Seq<char>> {
    let c0 = seq![phase_condition(p.phase)];
    let c1 = match p.kind {
        Some(k) => c0.push("kind = \""@ + quote_escaped(k@) + "\""@),
        None => c0,
    };
    match p.scope {
        Some(s) => c1.push("scope = \""@ + quote_escaped(s@) + "\""@),
        None => c1,
    }
}

/// The query of `query_thoughts`; with a tag, only thoughts carrying it.
pub open spec fn thoughts_query(p: QueryThoughtsParams) -> Seq<char> {
    let conditions = join(query_conditions(p), ", "@);
    match p.tag {
        Some(t) => "?[kind, scope, status, title, body, phase, dignity] := *thought{kind, scope, title_hash, status, title, body, phase, dignity}, *thought_tag{kind, scope, title_hash, tag: \""@
            + quote_escaped(t@) + "\"}, "@ + conditions,
        None => "?[kind, scope, status, title, body, phase, dignity] := *thought{kind, scope, title_hash: _, status, title, body, phase, dignity}, "@
            + conditions,
    }
}

/// The query of `query_thoughts`.
pub fn query_thoughts_script(params: &QueryThoughtsParams) -> (r: String)
    ensures
        r@ == thoughts_query(*params),
{
    let mut conds: Vec<char> = Vec::new();
    match &params.phase {
        Some(ph) => {
            push_str(&mut conds, "phase == \"");
            push_quote_escaped(&mut conds, ph.as_str());
            push_str(&mut conds, "\"");
        },
        None => {
            push_str(&mut conds, "phase != \"retired\"");
        },
    }
    let ghost mut list = seq![phase_condition(params.phase)];
    assert(conds@ =~= join(list, ", "@));
    match &params.kind {
        Some(k) => {
            proof {
                crate::text::lemma_join_push(list, "kind = \""@ + quote_escaped(k@) + "\""@, ", "@);
                list = list.push("kind = \""@ + quote_escaped(k@) + "\""@);
            }
            push_str(&mut conds, ", ");
            push_str(&mut conds, "kind = \"");
            push_quote_escaped(&mut conds, k.as_str());
            push_str(&mut conds, "\"");
            assert(conds@ =~= join(list, ", "@));
        },
        None => {},
    }
    match &params.scope {
        Some(s) => {
            proof {
                crate::text::lemma_join_push(list, "scope = \""@ + quote_escaped(s@) + "\""@, ", "@);
                list = list.push("scope = \""@ + quote_escaped(s@) + "\""@);
            }
            push_str(&mut conds, ", ");
            push_str(&mut conds, "scope = \"");
            push_quote_escaped(&mut conds, s.as_str());
            push_str(&mut conds, "\"");
            assert(conds@ =~= join(list, ", "@));
        },
        None => {},
    }
    assert(list == query_conditions(*params));
    let mut out: Vec<char> = Vec::new();
    match &params.tag {
        Some(t) => {
            push_str(
                &mut out,
                "?[kind, scope, status, title, body, phase, dignity] := *thought{kind, scope, title_hash, status, title, body, phase, dignity}, *thought_tag{kind, scope, title_hash, tag: \"",
            );
            push_quote_escaped(&mut out, t.as_str());
            push_str(&mut out, "\"}, ");
        },
        None => {
            push_str(
                &mut out,
                "?[kind, scope, status, title, body, phase, dignity] := *thought{kind, scope, title_hash: _, status, title, body, phase, dignity}, ",
            );
        },
    }
    push_all(&mut out, &conds);
    assert(out@ =~= thoughts_query(*params));
    string_of(&out)
}

} // verus!

verus! {

/// For text without backslashes, the quote escaping of the thought tools
/// reads back as the escaped text itself.
pub proof fn lemma_quote_escaped_reads_back(s: Seq<char>)
    requires
        !s.contains('\\'),
    ensures
        crate::text::unescape(quote_escaped(s)) == s,
{
    reveal_strlit("\\\"");
    assert("\\\""@ =~= seq!['\\', '"']);
    crate::text::lemma_replace_char_absent(s, '\\', seq!['\\', '\\']);
    crate::text::lemma_unescape_escaped(s, '"');
}

} // verus!

verus! {

/// `query_thoughts` filters by phase: its query holds the condition that
/// the phase is the one asked for, or, when none is asked for, the
/// condition that it is not `retired`.
pub proof fn lemma_query_filters_phase(p: QueryThoughtsParams)
    ensures
        crate::text::contains_seq(thoughts_query(p), phase_condition(p.phase)),
        p.phase is None ==> crate::text::contains_seq(thoughts_query(p), "phase != \"retired\""@),
        p.phase matches Some(ph) ==> crate::text::contains_seq(
            thoughts_query(p),
            "phase == \""@ + quote_escaped(ph@) + "\""@,
        ),
{
    let conds = query_conditions(p);
    assert(conds[0] == phase_condition(p.phase));
    crate::text::lemma_join_starts_with_first(conds, ", "@);
    let j = join(conds, ", "@);
    let q = thoughts_query(p);
    let prefix = match p.tag {
        Some(t) => "?[kind, scope, status, title, body, phase, dignity] := *thought{kind, scope, title_hash, status, title, body, phase, dignity}, *thought_tag{kind, scope, title_hash, tag: \""@
            + quote_escaped(t@) + "\"}, "@,
        None => "?[kind, scope, status, title, body, phase, dignity] := *thought{kind, scope, title_hash: _, status, title, body, phase, dignity}, "@,
    };
    assert(q =~= prefix + j);
    assert(q.skip(prefix.len() as int) =~= j);
    crate::text::lemma_contains_at(q, phase_condition(p.phase), prefix.len() as int);
}

} // verus!

verus! {

/// What `assert_thought` does next: run one of its scripts, or reply.
#[derive(Debug)]
pub enum ThoughtStep {
    /// Run the script at this position of `assert_thought_scripts`.
    RunScript(usize),
    /// Stop and answer with this text.
    Reply(String),
}

/// The next step of `assert_thought`, once the first `done` of its `count`
/// scripts have run: a failed script ends the run with its error; otherwise
/// the scripts run in order, and after the last one the tool replies with
/// the asserted message.
pub fn assert_thought_step(
    params: &AssertThoughtParams,
    count: usize,
    done: usize,
    failure: Option<&str>,
) -> (r: ThoughtStep)
    ensures
        match failure {
            Some(e) => r matches ThoughtStep::Reply(m) && m@ == "error: "@ + e@,
            None => if done < count {
                r == ThoughtStep::RunScript(done)
            } else {
                r matches ThoughtStep::Reply(m) && m@ == asserted_message(*params)
            },
        },
{
    match failure {
        Some(e) => ThoughtStep::Reply(error_reply(e)),
        None => if done < count {
            ThoughtStep::RunScript(done)
        } else {
            ThoughtStep::Reply(assert_thought_message(params))
        },
    }
}

} // verus!

verus! {

/// `query_thoughts` filters by every kind and scope it is given: its query
/// holds `kind = "<kind>"` and `scope = "<scope>"` (quotes escaped) whenever
/// they are given, whatever else is asked.
pub proof fn lemma_query_filters_kind_and_scope(p: QueryThoughtsParams)
    ensures
        p.kind matches Some(k) ==> crate::text::contains_seq(
            thoughts_query(p),
            "kind = \""@ + quote_escaped(k@) + "\""@,
        ),
        p.scope matches Some(s) ==> crate::text::contains_seq(
            thoughts_query(p),
            "scope = \""@ + quote_escaped(s@) + "\""@,
        ),
{
    let conds = query_conditions(p);
    let j = join(conds, ", "@);
    let q = thoughts_query(p);
    let prefix = match p.tag {
        Some(t) => "?[kind, scope, status, title, body, phase, dignity] := *thought{kind, scope, title_hash, status, title, body, phase, dignity}, *thought_tag{kind, scope, title_hash, tag: \""@
            + quote_escaped(t@) + "\"}, "@,
        None => "?[kind, scope, status, title, body, phase, dignity] := *thought{kind, scope, title_hash: _, status, title, body, phase, dignity}, "@,
    };
    assert(q =~= prefix + j);
    if let Some(k) = p.kind {
        let c = "kind = \""@ + quote_escaped(k@) + "\""@;
        assert(conds[1] == c);
        crate::text::lemma_join_contains(conds, ", "@, 1);
        crate::text::lemma_contains_suffix(prefix, j, c);
    }
    if let Some(s) = p.scope {
        let c = "scope = \""@ + quote_escaped(s@) + "\""@;
        let i = conds.len() - 1;
        assert(conds[i] == c);
        crate::text::lemma_join_contains(conds, ", "@, i);
        crate::text::lemma_contains_suffix(prefix, j, c);
    }
}

} // verus!
