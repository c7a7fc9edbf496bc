//! The scripts behind the binary (capnp) interface: text taken from raw
//! bytes, escaping for single-quoted CozoScript strings, and the queries
//! each request runs.
use vstd::prelude::*;
use vstd::utf8::{decode_utf8, valid_utf8};

use crate::digest::{blake3_hex, blake3_hex_of};
use crate::text::{chars_of, join, push_all, push_replaced, push_str, replace_char, string_of};

verus! {

/// Calls `std::str::from_utf8` and keeps the text on success. Claimed, as
/// its documentation says: it succeeds exactly on valid UTF-8, and the text
/// it returns is what those bytes encode.
#[verifier::external_body]
fn str_from_utf8(b: &[u8]) -> (r: Option<&str>)
    ensures
        r is Some <==> valid_utf8(b@),
        r matches Some(s) ==> s@ == decode_utf8(b@),
{
    std::str::from_utf8(b).ok()
}

/// The text that `b` encodes in UTF-8, or the empty text when `b` is not
/// valid UTF-8.
pub open spec fn text_of_bytes(b: Seq<u8>) -> Seq<char> {
    if valid_utf8(b) {
        decode_utf8(b)
    } else {
        seq![]
    }
}

/// Reads `b` as UTF-8 text; invalid UTF-8 reads as the empty text.
pub fn bytes_to_str(b: &[u8]) -> (r: &str)
    ensures
        r@ == text_of_bytes(b@),
{
    match str_from_utf8(b) {
        Some(s) => s,
        None => {
            proof {
                reveal_strlit("");
            }
            ""
        },
    }
}

/// Text escaped for a single-quoted CozoScript string: every backslash is
/// doubled, then every `'` becomes `\'`.
pub open spec fn cozo_escaped(s: Seq<char>) -> Seq<char> {
    replace_char(replace_char(s, '\\', "\\\\"@), '\'', "\\'"@)
}

/// Appends `cozo_escaped(s)` to `out`.
fn push_cozo_escaped(out: &mut Vec<char>, s: &str)
    ensures
        final(out)@ == old(out)@ + cozo_escaped(s@),
{
    let v = chars_of(s);
    let mut tmp: Vec<char> = Vec::new();
    let two = chars_of("\\\\");
    push_replaced(&mut tmp, &v, 0, v.len(), '\\', &two);
    let quote = chars_of("\\'");
    push_replaced(out, &tmp, 0, tmp.len(), '\'', &quote);
    assert(v@.subrange(0, v@.len() as int) =~= v@);
    assert(tmp@.subrange(0, tmp@.len() as int) =~= tmp@);
}

/// Escapes `s` for a single-quoted CozoScript string.
pub fn escape_cozo(s: &str) -> (r: String)
    ensures
        r@ == cozo_escaped(s@),
{
    let mut out: Vec<char> = Vec::new();
    push_cozo_escaped(&mut out, s);
    assert(out@ =~= cozo_escaped(s@));
    string_of(&out)
}

/// The query that shows the columns of relation `name`.
pub open spec fn describe_relation_query(name: Seq<char>) -> Seq<char> {
    "::columns "@ + name
}

/// The query that shows the columns of relation `name`.
pub fn describe_relation_script(name: &str) -> (r: String)
    ensures
        r@ == describe_relation_query(name@),
{
    let mut out: Vec<char> = Vec::new();
    push_str(&mut out, "::columns ");
    push_str(&mut out, name);
    string_of(&out)
}

/// The script that stores a new thought (phase `becoming`, dignity `seen`,
/// no timestamps) under the given title hash.
pub open spec fn rpc_thought_put(
    kind: Seq<char>,
    scope: Seq<char>,
    status: Seq<char>,
    title: Seq<char>,
    body: Seq<char>,
    title_hash: Seq<char>,
) -> Seq<char> {
    "?[kind, scope, title_hash, status, title, body, created_ts, updated_ts, phase, dignity] <- [['"@
        + cozo_escaped(kind) + "', '"@ + cozo_escaped(scope) + "', '"@ + title_hash + "', '"@
        + cozo_escaped(status) + "', '"@ + cozo_escaped(title) + "', '"@ + cozo_escaped(body)
        + "', '', '', 'becoming', 'seen']] :put thought { kind, scope, title_hash => status, title, body, created_ts, updated_ts, phase, dignity }"@
}

/// The script that stores a new thought under the title hash `title_hash`.
pub fn thought_put_script(
    kind: &str,
    scope: &str,
    status: &str,
    title: &str,
    body: &str,
    title_hash: &str,
) -> (r: String)
    ensures
        r@ == rpc_thought_put(kind@, scope@, status@, title@, body@, title_hash@),
{
    let mut out: Vec<char> = Vec::new();
    push_str(
        &mut out,
        "?[kind, scope, title_hash, status, title, body, created_ts, updated_ts, phase, dignity] <- [['",
    );
    push_cozo_escaped(&mut out, kind);
    push_str(&mut out, "', '");
    push_cozo_escaped(&mut out, scope);
    push_str(&mut out, "', '");
    push_str(&mut out, title_hash);
    push_str(&mut out, "', '");
    push_cozo_escaped(&mut out, status);
    push_str(&mut out, "', '");
    push_cozo_escaped(&mut out, title);
    push_str(&mut out, "', '");
    push_cozo_escaped(&mut out, body);
    push_str(
        &mut out,
        "', '', '', 'becoming', 'seen']] :put thought { kind, scope, title_hash => status, title, body, created_ts, updated_ts, phase, dignity }",
    );
    assert(out@ =~= rpc_thought_put(kind@, scope@, status@, title@, body@, title_hash@));
    string_of(&out)
}

/// A thought to store, and the full hash of its title that the request answers.
pub struct ThoughtInsert {
    pub script: String,
    pub title_hash: String,
}

/// The script for a new thought keyed by the full BLAKE3 hash of its title,
/// and that hash.
pub fn assert_thought_insert(
    kind: &str,
    scope: &str,
    status: &str,
    title: &str,
    body: &str,
) -> (r: ThoughtInsert)
    ensures
        r.title_hash@ == blake3_hex_of(title@),
        r.script@ == rpc_thought_put(kind@, scope@, status@, title@, body@, blake3_hex_of(title@)),
{
    let title_hash = blake3_hex(title);
    let script = thought_put_script(kind, scope, status, title, body, title_hash.as_str());
    ThoughtInsert { script, title_hash }
}

/// The filter conditions of a thought query: never the retired phase, and
/// each non-empty field of the request as an equality.
pub open spec fn rpc_thought_conditions(
    kind: Seq<char>,
    scope: Seq<char>,
    phase: Seq<char>,
) -> Seq<Seq<char>> {
    let c0 = seq!["phase != 'retired'"@];
    let c1 = if kind.len() > 0 {
        c0.push("kind == '"@ + cozo_escaped(kind) + "'"@)
    } else {
        c0
    };
    let c2 = if scope.len() > 0 {
        c1.push("scope == '"@ + cozo_escaped(scope) + "'"@)
    } else {
        c1
    };
    if phase.len() > 0 {
        c2.push("phase == '"@ + cozo_escaped(phase) + "'"@)
    } else {
        c2
    }
}

/// The query for thoughts matching the request; with a non-empty `tag`,
/// only thoughts carrying that tag.
pub open spec fn rpc_thought_query(
    kind: Seq<char>,
    scope: Seq<char>,
    tag: Seq<char>,
    phase: Seq<char>,
) -> Seq<char> {
    let filter = join(rpc_thought_conditions(kind, scope, phase), ", "@);
    if tag.len() == 0 {
        "?[kind, scope, title, body, phase, dignity] := *thought{kind, scope, title_hash, status, title, body, created_ts, updated_ts, phase, dignity}, "@
            + filter
    } else {
        "?[kind, scope, title, body, phase, dignity] := *thought{kind, scope, title_hash, status, title, body, created_ts, updated_ts, phase, dignity}, *thought_tag{kind, scope, title_hash, tag}, tag == '"@
            + cozo_escaped(tag) + "', "@ + filter
    }
}

/// The query for thoughts matching the request.
pub fn query_thoughts_script(kind: &str, scope: &str, tag: &str, phase: &str) -> (r: String)
    ensures
        r@ == rpc_thought_query(kind@, scope@, tag@, phase@),
{
    let mut filter: Vec<char> = Vec::new();
    push_str(&mut filter, "phase != 'retired'");
    let ghost mut conds = seq!["phase != 'retired'"@];
    assert(join(conds, ", "@) == conds[0]);
    assert(filter@ =~= join(conds, ", "@));
    if !kind.is_empty() {
        proof {
            crate::text::lemma_join_push(conds, "kind == '"@ + cozo_escaped(kind@) + "'"@, ", "@);
            conds = conds.push("kind == '"@ + cozo_escaped(kind@) + "'"@);
        }
        push_str(&mut filter, ", ");
        push_str(&mut filter, "kind == '");
        push_cozo_escaped(&mut filter, kind);
        push_str(&mut filter, "'");
        assert(filter@ =~= join(conds, ", "@));
    }
    if !scope.is_empty() {
        proof {
            crate::text::lemma_join_push(conds, "scope == '"@ + cozo_escaped(scope@) + "'"@, ", "@);
            conds = conds.push("scope == '"@ + cozo_escaped(scope@) + "'"@);
        }
        push_str(&mut filter, ", ");
        push_str(&mut filter, "scope == '");
        push_cozo_escaped(&mut filter, scope);
        push_str(&mut filter, "'");
        assert(filter@ =~= join(conds, ", "@));
    }
    if !phase.is_empty() {
        proof {
            crate::text::lemma_join_push(conds, "phase == '"@ + cozo_escaped(phase@) + "'"@, ", "@);
            conds = conds.push("phase == '"@ + cozo_escaped(phase@) + "'"@);
        }
        push_str(&mut filter, ", ");
        push_str(&mut filter, "phase == '");
        push_cozo_escaped(&mut filter, phase);
        push_str(&mut filter, "'");
        assert(filter@ =~= join(conds, ", "@));
    }
    assert(conds == rpc_thought_conditions(kind@, scope@, phase@));
    assert(filter@ =~= join(conds, ", "@));
    let mut out: Vec<char> = Vec::new();
    if tag.is_empty() {
        push_str(
            &mut out,
            "?[kind, scope, title, body, phase, dignity] := *thought{kind, scope, title_hash, status, title, body, created_ts, updated_ts, phase, dignity}, ",
        );
    } else {
        push_str(
            &mut out,
            "?[kind, scope, title, body, phase, dignity] := *thought{kind, scope, title_hash, status, title, body, created_ts, updated_ts, phase, dignity}, *thought_tag{kind, scope, title_hash, tag}, tag == '",
        );
        push_cozo_escaped(&mut out, tag);
        push_str(&mut out, "', ");
    }
    push_all(&mut out, &filter);
    assert(out@ =~= rpc_thought_query(kind@, scope@, tag@, phase@));
    string_of(&out)
}

} // verus!

verus! {

/// Escaped text reads back as itself: `escape_cozo` embeds any text
/// in a single-quoted CozoScript string faithfully, and the string closes at
/// the quote written after it, whatever follows.
pub proof fn lemma_cozo_escaped_reads_back(s: Seq<char>, rest: Seq<char>)
    ensures
        crate::text::unescape(cozo_escaped(s)) == s,
        crate::text::read_quoted(cozo_escaped(s) + seq!['\''] + rest, '\'') == Some((s, rest)),
{
    reveal_strlit("\\\\");
    reveal_strlit("\\'");
    assert("\\\\"@ =~= seq!['\\', '\\']);
    assert("\\'"@ =~= seq!['\\', '\'']);
    crate::text::lemma_unescape_escaped(s, '\'');
    crate::text::lemma_read_quoted_escaped(s, '\'', rest);
}

} // verus!

verus! {

/// A thought query never returns retired thoughts: it always holds the
/// condition `phase != 'retired'`.
pub proof fn lemma_rpc_query_excludes_retired(
    kind: Seq<char>,
    scope: Seq<char>,
    tag: Seq<char>,
    phase: Seq<char>,
)
    ensures
        crate::text::contains_seq(rpc_thought_query(kind, scope, tag, phase), "phase != 'retired'"@),
{
    let conds = rpc_thought_conditions(kind, scope, phase);
    assert(conds[0] == "phase != 'retired'"@);
    crate::text::lemma_join_starts_with_first(conds, ", "@);
    let j = join(conds, ", "@);
    let q = rpc_thought_query(kind, scope, tag, phase);
    let prefix = if tag.len() == 0 {
        "?[kind, scope, title, body, phase, dignity] := *thought{kind, scope, title_hash, status, title, body, created_ts, updated_ts, phase, dignity}, "@
    } else {
        "?[kind, scope, title, body, phase, dignity] := *thought{kind, scope, title_hash, status, title, body, created_ts, updated_ts, phase, dignity}, *thought_tag{kind, scope, title_hash, tag}, tag == '"@
            + cozo_escaped(tag) + "', "@
    };
    assert(q =~= prefix + j);
    assert(q.skip(prefix.len() as int) =~= j);
    crate::text::lemma_contains_at(q, "phase != 'retired'"@, prefix.len() as int);
}

} // verus!
