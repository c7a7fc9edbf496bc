//! The versioned world: which relations are versioned, how values and
//! column lists are written back as CozoScript.
use vstd::prelude::*;

use crate::json::{as_boolean, as_elements, as_int, as_text, get, json_get, Json, JsonNumber};
use crate::text::{
    chars_of, join, push_joined, push_replaced, push_signed_decimal, push_str, replace_char,
    signed_decimal, str_eq, string_of, string_views,
};

verus! {

/// Relations that participate in the world hash (versioned state).
pub const VERSIONED_RELATIONS: [&'static str; 20] = [
    "Aspect",
    "Dignity",
    "Element",
    "Enum",
    "Measure",
    "Modality",
    "Phase",
    "Planet",
    "Sign",
    "agent",
    "agent_session",
    "latina",
    "principle",
    "repo",
    "repo_state",
    "samskrta",
    "thought",
    "thought_link",
    "thought_tag",
    "trust_review",
];

/// Number of commits between full snapshots.
pub const SNAPSHOT_INTERVAL: u32 = 10;

/// The names of the versioned relations.
pub open spec fn versioned_relations() -> Seq<Seq<char>> {
    seq![
        "Aspect"@,
        "Dignity"@,
        "Element"@,
        "Enum"@,
        "Measure"@,
        "Modality"@,
        "Phase"@,
        "Planet"@,
        "Sign"@,
        "agent"@,
        "agent_session"@,
        "latina"@,
        "principle"@,
        "repo"@,
        "repo_state"@,
        "samskrta"@,
        "thought"@,
        "thought_link"@,
        "thought_tag"@,
        "trust_review"@,
    ]
}

/// The relations that have a `phase` column.
pub open spec fn phase_relation(rel: Seq<char>) -> bool {
    ||| rel == "thought"@
    ||| rel == "agent"@
    ||| rel == "agent_session"@
    ||| rel == "repo"@
    ||| rel == "repo_state"@
    ||| rel == "principle"@
    ||| rel == "Sign"@
    ||| rel == "Planet"@
    ||| rel == "Measure"@
}

/// Relations that have a `phase` column (and should filter to manifest-phase only).
pub fn has_phase_column(rel: &str) -> (r: bool)
    ensures
        r == phase_relation(rel@),
{
    str_eq(rel, "thought") || str_eq(rel, "agent") || str_eq(rel, "agent_session") || str_eq(
        rel,
        "repo",
    ) || str_eq(rel, "repo_state") || str_eq(rel, "principle") || str_eq(rel, "Sign") || str_eq(
        rel,
        "Planet",
    ) || str_eq(rel, "Measure")
}

/// Every relation with a `phase` column is versioned.
pub proof fn lemma_phase_relations_are_versioned(rel: Seq<char>)
    requires
        phase_relation(rel),
    ensures
        versioned_relations().contains(rel),
{
    let v = versioned_relations();
    if rel == "thought"@ {
        assert(v[16] == rel);
    } else if rel == "agent"@ {
        assert(v[9] == rel);
    } else if rel == "agent_session"@ {
        assert(v[10] == rel);
    } else if rel == "repo"@ {
        assert(v[13] == rel);
    } else if rel == "repo_state"@ {
        assert(v[14] == rel);
    } else if rel == "principle"@ {
        assert(v[12] == rel);
    } else if rel == "Sign"@ {
        assert(v[8] == rel);
    } else if rel == "Planet"@ {
        assert(v[7] == rel);
    } else {
        assert(v[4] == rel);
    }
}

/// Text escaped for a double-quoted CozoScript string: every backslash is
/// doubled, then every `"` becomes `\"`.
pub open spec fn escaped(s: Seq<char>) -> Seq<char> {
    replace_char(replace_char(s, '\\', "\\\\"@), '"', "\\\""@)
}

/// Appends `escaped(s)` to `out`.
pub(crate) fn push_escaped(out: &mut Vec<char>, s: &str)
    ensures
        final(out)@ == old(out)@ + escaped(s@),
{
    let v = chars_of(s);
    let mut tmp: Vec<char> = Vec::new();
    let two = chars_of("\\\\");
    push_replaced(&mut tmp, &v, 0, v.len(), '\\', &two);
    let quote = chars_of("\\\"");
    push_replaced(out, &tmp, 0, tmp.len(), '"', &quote);
    assert(v@.subrange(0, v@.len() as int) =~= v@);
    assert(tmp@.subrange(0, tmp@.len() as int) =~= tmp@);
}

/// Escapes a string for embedding in CozoScript.
pub fn esc(s: &str) -> (r: String)
    ensures
        r@ == escaped(s@),
{
    let mut out: Vec<char> = Vec::new();
    push_escaped(&mut out, s);
    assert(out@ =~= escaped(s@));
    string_of(&out)
}

/// The `:put`/`:rm` clause of a relation: the first `key_count` columns as
/// keys, the rest (when their joined text is not empty) as values.
pub open spec fn kv_clause_text(cols: Seq<Seq<char>>, key_count: int) -> Seq<char> {
    let key_part = join(cols.take(key_count), ", "@);
    let val_part = join(cols.skip(key_count), ", "@);
    if val_part.len() == 0 {
        "{"@ + key_part + "}"@
    } else {
        "{"@ + key_part + " => "@ + val_part + "}"@
    }
}

/// Builds the `:put`/`:rm` clause with key=>value separation.
pub fn kv_clause(col_names: &[String], key_count: usize) -> (r: String)
    requires
        key_count <= col_names@.len(),
    ensures
        r@ == kv_clause_text(string_views(col_names@), key_count as int),
{
    let ghost cols = string_views(col_names@);
    assert(string_views(col_names@.subrange(0, key_count as int)) =~= cols.take(key_count as int));
    assert(string_views(col_names@.subrange(key_count as int, col_names@.len() as int))
        =~= cols.skip(key_count as int));
    let mut vals: Vec<char> = Vec::new();
    push_joined(&mut vals, col_names, key_count, col_names.len(), ", ");
    let mut out: Vec<char> = Vec::new();
    push_str(&mut out, "{");
    push_joined(&mut out, col_names, 0, key_count, ", ");
    if vals.len() == 0 {
        push_str(&mut out, "}");
    } else {
        push_str(&mut out, " => ");
        let mut k: usize = 0;
        let ghost before = out@;
        while k < vals.len()
            invariant
                k <= vals@.len(),
                out@ == before + vals@.take(k as int),
            decreases vals@.len() - k,
        {
            out.push(vals[k]);
            k = k + 1;
            assert(out@ =~= before + vals@.take(k as int));
        }
        assert(vals@.take(vals@.len() as int) =~= vals@);
        push_str(&mut out, "}");
    }
    assert(out@ =~= kv_clause_text(cols, key_count as int));
    string_of(&out)
}

} // verus!

verus! {

/// The text under `key` of an object, when it is a string.
pub open spec fn field_text(v: Json, key: Seq<char>) -> Option<Seq<char>> {
    match get(v, key) {
        Some(x) => as_text(x),
        None => None,
    }
}

/// The boolean under `key` of an object.
pub open spec fn field_bool(v: Json, key: Seq<char>) -> Option<bool> {
    match get(v, key) {
        Some(x) => as_boolean(x),
        None => None,
    }
}

/// The `i64` under `key` of an object.
pub open spec fn field_int(v: Json, key: Seq<char>) -> Option<i64> {
    match get(v, key) {
        Some(x) => as_int(x),
        None => None,
    }
}

/// The number under `key` of an object.
pub open spec fn field_number(v: Json, key: Seq<char>) -> Option<JsonNumber> {
    match get(v, key) {
        Some(Json::Number(n)) => Some(n),
        _ => None,
    }
}

/// A double-quoted, escaped CozoScript string literal.
pub open spec fn string_literal(s: Seq<char>) -> Seq<char> {
    "\""@ + escaped(s) + "\""@
}

/// `true` or `false`.
pub open spec fn bool_literal(b: bool) -> Seq<char> {
    if b {
        "true"@
    } else {
        "false"@
    }
}

/// The CozoScript literal of a database value, given as the tagged JSON the
/// database reports (`{"Str": ..}`, `{"Bool": ..}`, `{"Num": {"Int": ..}}`,
/// `{"Num": {"Float": ..}}`) or as plain JSON; `null` for anything else.
pub open spec fn cozo_literal(v: Json) -> Seq<char> {
    if field_text(v, "Str"@) is Some {
        string_literal(field_text(v, "Str"@)->0)
    } else if field_bool(v, "Bool"@) is Some {
        bool_literal(field_bool(v, "Bool"@)->0)
    } else if get(v, "Num"@) is Some && field_int(get(v, "Num"@)->0, "Int"@) is Some {
        signed_decimal(field_int(get(v, "Num"@)->0, "Int"@)->0 as int)
    } else if get(v, "Num"@) is Some && field_number(get(v, "Num"@)->0, "Float"@) is Some {
        (field_number(get(v, "Num"@)->0, "Float"@)->0).float_text@
    } else {
        match v {
            Json::Str(s) => string_literal(s@),
            Json::Bool(b) => bool_literal(b),
            Json::Number(n) => match n.int {
                Some(i) => signed_decimal(i as int),
                None => n.float_text@,
            },
            _ => "null"@,
        }
    }
}

/// The text of a JSON string.
fn text_of(v: &Json) -> (r: Option<&str>)
    ensures
        match r {
            Some(s) => as_text(*v) == Some(s@),
            None => as_text(*v) is None,
        },
{
    match v {
        Json::Str(s) => Some(s.as_str()),
        _ => None,
    }
}

/// The value of a JSON boolean.
fn bool_of(v: &Json) -> (r: Option<bool>)
    ensures
        r == as_boolean(*v),
{
    match v {
        Json::Bool(b) => Some(*b),
        _ => None,
    }
}

/// The `i64` value of a JSON number.
fn int_of(v: &Json) -> (r: Option<i64>)
    ensures
        r == as_int(*v),
{
    match v {
        Json::Number(n) => n.int,
        _ => None,
    }
}

/// Appends `string_literal(s)` to `out`.
fn push_string_literal(out: &mut Vec<char>, s: &str)
    ensures
        final(out)@ == old(out)@ + string_literal(s@),
{
    push_str(out, "\"");
    push_escaped(out, s);
    push_str(out, "\"");
    assert(out@ =~= old(out)@ + string_literal(s@));
}

/// Appends `bool_literal(b)` to `out`.
fn push_bool_literal(out: &mut Vec<char>, b: bool)
    ensures
        final(out)@ == old(out)@ + bool_literal(b),
{
    if b {
        push_str(out, "true");
    } else {
        push_str(out, "false");
    }
}

/// Converts a database value (as JSON) to a CozoScript literal.
pub fn datavalue_to_cozo_literal(v: &Json) -> (r: String)
    ensures
        r@ == cozo_literal(*v),
{
    let mut out: Vec<char> = Vec::new();
    if let Some(x) = json_get(v, "Str") {
        if let Some(s) = text_of(x) {
            push_string_literal(&mut out, s);
            return string_of(&out);
        }
    }
    if let Some(x) = json_get(v, "Bool") {
        if let Some(b) = bool_of(x) {
            push_bool_literal(&mut out, b);
            return string_of(&out);
        }
    }
    if let Some(num) = json_get(v, "Num") {
        if let Some(i) = json_get(num, "Int") {
            if let Some(n) = int_of(i) {
                push_signed_decimal(&mut out, n);
                return string_of(&out);
            }
        }
        if let Some(f) = json_get(num, "Float") {
            if let Json::Number(n) = f {
                push_str(&mut out, n.float_text.as_str());
                return string_of(&out);
            }
        }
    }
    match v {
        Json::Str(s) => push_string_literal(&mut out, s.as_str()),
        Json::Bool(b) => push_bool_literal(&mut out, *b),
        Json::Number(n) => match n.int {
            Some(i) => push_signed_decimal(&mut out, i),
            None => push_str(&mut out, n.float_text.as_str()),
        },
        _ => push_str(&mut out, "null"),
    }
    string_of(&out)
}

} // verus!

verus! {

/// Errors of the versioned-world operations.
#[derive(Debug)]
pub enum Error {
    /// The database answered something the operation cannot use.
    Db { detail: String },
}

/// The name in a cell of a `::columns` row: a tagged `{"Str": ..}` or a plain string.
pub open spec fn cell_name(cell: Json) -> Option<Seq<char>> {
    match field_text(cell, "Str"@) {
        Some(s) => Some(s),
        None => as_text(cell),
    }
}

/// The flag in a cell of a `::columns` row: a tagged `{"Bool": ..}` or a plain boolean.
pub open spec fn cell_flag(cell: Json) -> Option<bool> {
    match field_bool(cell, "Bool"@) {
        Some(b) => Some(b),
        None => as_boolean(cell),
    }
}

/// The rows of a query result.
pub open spec fn result_rows(result: Json) -> Option<Seq<Json>> {
    match get(result, "rows"@) {
        Some(x) => as_elements(x),
        None => None,
    }
}

/// Column names and key count read from `::columns` rows, in order; the
/// first row that is not an array, or has no name in its first cell, stops
/// the reading with an error. A row is a key column when its second cell
/// says `true`.
pub open spec fn scan_columns(rows: Seq<Json>) -> Result<(Seq<Seq<char>>, nat), Seq<char>>
    decreases rows.len(),
{
    if rows.len() == 0 {
        Ok((seq![], 0))
    } else {
        match scan_columns(rows.drop_last()) {
            Err(e) => Err(e),
            Ok((names, k)) => match as_elements(rows.last()) {
                None => Err("bad column row"@),
                Some(arr) => {
                    let name = if arr.len() > 0 {
                        cell_name(arr[0])
                    } else {
                        None
                    };
                    match name {
                        None => Err("missing column name"@),
                        Some(n) => {
                            let is_key = arr.len() > 1 && cell_flag(arr[1]) == Some(true);
                            Ok((names.push(n), if is_key {
                                k + 1
                            } else {
                                k
                            }))
                        },
                    }
                },
            },
        }
    }
}

/// Once reading the rows has failed, reading more rows fails the same way.
proof fn lemma_scan_columns_error_sticks(rows: Seq<Json>, j: int, k: int)
    requires
        0 <= j <= k <= rows.len(),
        scan_columns(rows.take(j)) is Err,
    ensures
        scan_columns(rows.take(k)) == scan_columns(rows.take(j)),
    decreases k - j,
{
    if k > j {
        lemma_scan_columns_error_sticks(rows, j, k - 1);
        assert(rows.take(k).drop_last() =~= rows.take(k - 1));
    }
}

/// The columns of relation `rel_name` read from its `::columns` result.
pub open spec fn columns_of(rel_name: Seq<char>, result: Json) -> Result<
    (Seq<Seq<char>>, nat),
    Seq<char>,
> {
    match result_rows(result) {
        None => Err("no columns for "@ + rel_name),
        Some(rows) => scan_columns(rows),
    }
}

/// The elements of a JSON array.
pub fn elements_of(v: &Json) -> (r: Option<&Vec<Json>>)
    ensures
        match r {
            Some(a) => as_elements(*v) == Some(a@),
            None => as_elements(*v) is None,
        },
{
    match v {
        Json::Array(a) => Some(a),
        _ => None,
    }
}

/// The rows of a query result.
pub fn rows_of(result: &Json) -> (r: Option<&Vec<Json>>)
    ensures
        match r {
            Some(a) => result_rows(*result) == Some(a@),
            None => result_rows(*result) is None,
        },
{
    match json_get(result, "rows") {
        Some(x) => elements_of(x),
        None => None,
    }
}

/// The name in a cell of a `::columns` row.
pub fn cell_name_of(cell: &Json) -> (r: Option<&str>)
    ensures
        match r {
            Some(s) => cell_name(*cell) == Some(s@),
            None => cell_name(*cell) is None,
        },
{
    if let Some(x) = json_get(cell, "Str") {
        if let Some(s) = text_of(x) {
            return Some(s);
        }
    }
    text_of(cell)
}

/// The flag in a cell of a `::columns` row.
pub fn cell_flag_of(cell: &Json) -> (r: Option<bool>)
    ensures
        r == cell_flag(*cell),
{
    if let Some(x) = json_get(cell, "Bool") {
        if let Some(b) = bool_of(x) {
            return Some(b);
        }
    }
    bool_of(cell)
}

/// Gets column names and key count of relation `rel_name` from its
/// `::columns` result.
pub fn columns_from_result(rel_name: &str, result: &Json) -> (r: Result<(Vec<String>, usize), Error>)
    ensures
        match r {
            Ok((names, k)) => columns_of(rel_name@, *result) == Ok::<
                (Seq<Seq<char>>, nat),
                Seq<char>,
            >((string_views(names@), k as nat)),
            Err(Error::Db { detail }) => columns_of(rel_name@, *result) == Err::<
                (Seq<Seq<char>>, nat),
                Seq<char>,
            >(detail@),
        },
{
    let rows = match rows_of(result) {
        Some(rows) => rows,
        None => {
            let mut out: Vec<char> = Vec::new();
            push_str(&mut out, "no columns for ");
            push_str(&mut out, rel_name);
            return Err(Error::Db { detail: string_of(&out) });
        },
    };
    let mut names: Vec<String> = Vec::new();
    let mut key_count: usize = 0;
    let mut i: usize = 0;
    assert(rows@.take(0) =~= Seq::<Json>::empty());
    assert(string_views(names@) =~= Seq::<Seq<char>>::empty());
    while i < rows.len()
        invariant
            i <= rows@.len(),
            key_count <= i,
            result_rows(*result) == Some(rows@),
            scan_columns(rows@.take(i as int)) == Ok::<(Seq<Seq<char>>, nat), Seq<char>>(
                (string_views(names@), key_count as nat),
            ),
        decreases rows@.len() - i,
    {
        proof {
            assert(rows@.take(i + 1).drop_last() =~= rows@.take(i as int));
            assert(rows@.take(i + 1).last() == rows@[i as int]);
        }
        let arr = match elements_of(&rows[i]) {
            Some(arr) => arr,
            None => {
                proof {
                    lemma_scan_columns_error_sticks(rows@, i + 1, rows@.len() as int);
                    assert(rows@.take(rows@.len() as int) =~= rows@);
                }
                return Err(Error::Db { detail: string_of(&chars_of("bad column row")) });
            },
        };
        let name = if arr.len() > 0 {
            cell_name_of(&arr[0])
        } else {
            None
        };
        let name = match name {
            Some(n) => n,
            None => {
                proof {
                    lemma_scan_columns_error_sticks(rows@, i + 1, rows@.len() as int);
                    assert(rows@.take(rows@.len() as int) =~= rows@);
                }
                return Err(Error::Db { detail: string_of(&chars_of("missing column name")) });
            },
        };
        let is_key = arr.len() > 1 && match cell_flag_of(&arr[1]) {
            Some(b) => b,
            None => false,
        };
        let ghost before = names@;
        names.push(string_of(&chars_of(name)));
        assert(string_views(names@) =~= string_views(before).push(name@));
        if is_key {
            key_count = key_count + 1;
        }
        i = i + 1;
    }
    assert(rows@.take(rows@.len() as int) =~= rows@);
    Ok((names, key_count))
}

} // verus!

verus! {

/// Escaped text reads back as itself: `esc` embeds any text in a
/// double-quoted CozoScript string faithfully, and the string closes at the
/// quote written after it, whatever follows.
pub proof fn lemma_escaped_reads_back(s: Seq<char>, rest: Seq<char>)
    ensures
        crate::text::unescape(escaped(s)) == s,
        crate::text::read_quoted(escaped(s) + seq!['"'] + rest, '"') == Some((s, rest)),
{
    reveal_strlit("\\\\");
    reveal_strlit("\\\"");
    assert("\\\\"@ =~= seq!['\\', '\\']);
    assert("\\\""@ =~= seq!['\\', '"']);
    crate::text::lemma_unescape_escaped(s, '"');
    crate::text::lemma_read_quoted_escaped(s, '"', rest);
}

} // verus!

verus! {

/// A string becomes a CozoScript literal that reads back as itself: the
/// literal opens with a double quote, and reading it from there gives the
/// string, closing exactly at the literal's end whatever follows. A plain
/// JSON string and the tagged `{"Str": ..}` of the same string give the
/// same literal.
pub proof fn lemma_string_literal_reads_back(s: String, tagged: Json, rest: Seq<char>)
    requires
        tagged matches Json::Object(e) && e@.len() == 1 && e@[0].key@ == "Str"@ && e@[0].value
            == Json::Str(s),
    ensures
        cozo_literal(Json::Str(s)) == cozo_literal(tagged),
        cozo_literal(Json::Str(s)).len() > 0,
        cozo_literal(Json::Str(s))[0] == '"',
        crate::text::read_quoted(cozo_literal(Json::Str(s)).drop_first() + rest, '"') == Some(
            (s@, rest),
        ),
{
    reveal_strlit("\"");
    assert("\""@ =~= seq!['"']);
    let lit = cozo_literal(Json::Str(s));
    assert(lit == string_literal(s@));
    if let Json::Object(e) = tagged {
        assert(crate::json::entry_value(e@, "Str"@) == Some(Json::Str(s)));
    }
    assert(cozo_literal(tagged) == string_literal(s@));
    lemma_escaped_reads_back(s@, rest);
    assert(lit.drop_first() + rest =~= escaped(s@) + seq!['"'] + rest);
}

} // verus!
