//! Booting the world database: which statements of a script run, how a
//! relation's `:create` statement is rebuilt from its columns, and how each
//! relation is recorded in `world_schema`.
use vstd::prelude::*;

use crate::json::{as_elements, Json};
use crate::text::{
    chars_of, join, line_ranges, lines, push_joined, push_str, ranges_text,
    starts_with, starts_with_at, str_eq, string_of, string_of_range, string_views, trim,
    trim_range,
};
use crate::vcs::{cell_flag, cell_flag_of, cell_name, cell_name_of, elements_of, escaped, result_rows, rows_of};

verus! {

/// A line of CozoScript that holds no statement: blank, a `#` comment, or
/// a `//` section separator.
pub open spec fn is_comment_line(line: Seq<char>) -> bool {
    let t = trim(line);
    t.len() == 0 || starts_with(t, "#"@) || t == "//"@
}

/// Every line of `stmt` is a comment line.
pub open spec fn comment_only(stmt: Seq<char>) -> bool {
    forall|i: int| 0 <= i < lines(stmt).len() ==> is_comment_line(#[trigger] lines(stmt)[i])
}

/// Returns true if the statement is only comments (no executable CozoScript).
/// Handles `#` comments and `//` section separators.
pub fn is_comment_only(stmt: &str) -> (r: bool)
    ensures
        r == comment_only(stmt@),
{
    let v = chars_of(stmt);
    let hash = chars_of("#");
    let sep = chars_of("//");
    let ls = line_ranges(&v);
    let mut i: usize = 0;
    while i < ls.len()
        invariant
            v@ == stmt@,
            hash@ == "#"@,
            sep@ == "//"@,
            ranges_text(v@, ls@) == lines(v@),
            forall|k: int| 0 <= k < ls@.len() ==> (#[trigger] ls@[k]).0 <= ls@[k].1 <= v@.len(),
            i <= ls@.len(),
            forall|k: int| 0 <= k < i ==> is_comment_line(#[trigger] lines(v@)[k]),
        decreases ls@.len() - i,
    {
        let (la, lb) = ls[i];
        assert(v@.subrange(la as int, lb as int) == lines(v@)[i as int]);
        let (a, b) = trim_range(&v, la, lb);
        let blank = a == b;
        let comment = starts_with_at(&v, a, b, &hash);
        let separator = b - a == 2 && starts_with_at(&v, a, b, &sep);
        proof {
            reveal_strlit("//");
            let t = v@.subrange(a as int, b as int);
            assert(trim(lines(v@)[i as int]) == t);
            if b - a == 2 && starts_with(t, sep@) {
                assert(t =~= t.take(2));
            }
            if t == "//"@ {
                assert(t.len() == 2);
                assert(t.take(2) =~= t);
            }
            assert(separator == (t == "//"@));
            assert(is_comment_line(lines(v@)[i as int]) == (blank || comment || separator));
        }
        if !(blank || comment || separator) {
            return false;
        }
        i = i + 1;
    }
    true
}

/// The statement that runs for a block of a script: the block trimmed,
/// unless it is empty or only comments.
pub open spec fn executable(stmt: Seq<char>) -> Option<Seq<char>> {
    let t = trim(stmt);
    if t.len() == 0 || comment_only(t) {
        None
    } else {
        Some(t)
    }
}

/// The statement to run for a block of a script, if any: the block trimmed,
/// when it is not empty and not only comments.
pub fn executable_statement(stmt: &str) -> (r: Option<String>)
    ensures
        match r {
            Some(s) => executable(stmt@) == Some(s@),
            None => executable(stmt@) is None,
        },
{
    let v = chars_of(stmt);
    let (a, b) = trim_range(&v, 0, v.len());
    assert(v@.subrange(0, v@.len() as int) =~= v@);
    if a == b {
        return None;
    }
    let t = string_of_range(&v, a, b);
    if is_comment_only(t.as_str()) {
        None
    } else {
        Some(t)
    }
}

} // verus!

verus! {

/// Why a relation's schema could not be read.
#[derive(Debug, Clone, Copy, PartialEq, Eq, Structural)]
pub enum SchemaError {
    NoColumnsRows,
    BadColumnRow,
    NoColumnName,
    NoColumnType,
    NoRelationsRows,
    NoRelationName,
}

impl SchemaError {
    /// The message of the error.
    pub open spec fn text(self) -> Seq<char> {
        match self {
            SchemaError::NoColumnsRows => "no columns rows"@,
            SchemaError::BadColumnRow => "bad column row"@,
            SchemaError::NoColumnName => "no column name"@,
            SchemaError::NoColumnType => "no column type"@,
            SchemaError::NoRelationsRows => "no relations rows"@,
            SchemaError::NoRelationName => "no relation name"@,
        }
    }

    /// The message of the error.
    pub fn message(&self) -> (r: &'static str)
        ensures
            r@ == self.text(),
    {
        match self {
            SchemaError::NoColumnsRows => "no columns rows",
            SchemaError::BadColumnRow => "bad column row",
            SchemaError::NoColumnName => "no column name",
            SchemaError::NoColumnType => "no column type",
            SchemaError::NoRelationsRows => "no relations rows",
            SchemaError::NoRelationName => "no relation name",
        }
    }
}

/// A column definition: `name: type`.
pub open spec fn column_def(name: Seq<char>, ty: Seq<char>) -> Seq<char> {
    name + ": "@ + ty
}

/// Key and value column definitions read from `::columns` rows (name in
/// the first cell, key flag in the second, type in the fourth), in order;
/// the first bad row stops the reading with its error.
pub open spec fn scan_column_defs(rows: Seq<Json>) -> Result<
    (Seq<Seq<char>>, Seq<Seq<char>>),
    SchemaError,
>
    decreases rows.len(),
{
    if rows.len() == 0 {
        Ok((seq![], seq![]))
    } else {
        match scan_column_defs(rows.drop_last()) {
            Err(e) => Err(e),
            Ok((keys, vals)) => match as_elements(rows.last()) {
                None => Err(SchemaError::BadColumnRow),
                Some(arr) => match cell_name(arr[0]) {
                    None => Err(SchemaError::NoColumnName),
                    Some(name) => match cell_name(arr[3]) {
                        None => Err(SchemaError::NoColumnType),
                        Some(ty) => if cell_flag(arr[1]) == Some(true) {
                            Ok((keys.push(column_def(name, ty)), vals))
                        } else {
                            Ok((keys, vals.push(column_def(name, ty))))
                        },
                    },
                },
            },
        }
    }
}

/// A row can be read without indexing past its end: the first cell is read
/// from every array row, and the second and fourth once the name was found.
pub open spec fn column_row_readable(row: Json) -> bool {
    match as_elements(row) {
        None => true,
        Some(arr) => arr.len() >= 1 && (cell_name(arr[0]) is None || arr.len() >= 4),
    }
}

/// Every row that the reading reaches is readable.
pub open spec fn column_rows_readable(rows: Seq<Json>) -> bool
    decreases rows.len(),
{
    if rows.len() == 0 {
        true
    } else {
        column_rows_readable(rows.drop_last()) && (scan_column_defs(rows.drop_last()) is Err
            || column_row_readable(rows.last()))
    }
}

/// A `:create` statement with the given key and value column definitions.
pub open spec fn create_statement(rel: Seq<char>, keys: Seq<Seq<char>>, vals: Seq<Seq<char>>) -> Seq<
    char,
> {
    let body = if vals.len() == 0 {
        join(keys, ", "@)
    } else {
        join(keys, ", "@) + " => "@ + join(vals, ", "@)
    };
    ":create "@ + rel + " { "@ + body + " }"@
}

/// The `:create` statement of relation `rel`, rebuilt from its `::columns`
/// result.
pub open spec fn create_script_of(rel: Seq<char>, result: Json) -> Result<Seq<char>, SchemaError> {
    match result_rows(result) {
        None => Err(SchemaError::NoColumnsRows),
        Some(rows) => match scan_column_defs(rows) {
            Err(e) => Err(e),
            Ok((keys, vals)) => Ok(create_statement(rel, keys, vals)),
        },
    }
}

/// The `::columns` result can be read without indexing past a row's end.
pub open spec fn columns_result_readable(result: Json) -> bool {
    match result_rows(result) {
        None => true,
        Some(rows) => column_rows_readable(rows),
    }
}

/// Once reading the rows has failed, reading more rows fails the same way.
proof fn lemma_scan_defs_error_sticks(rows: Seq<Json>, j: int, k: int)
    requires
        0 <= j <= k <= rows.len(),
        scan_column_defs(rows.take(j)) is Err,
    ensures
        scan_column_defs(rows.take(k)) == scan_column_defs(rows.take(j)),
    decreases k - j,
{
    if k > j {
        lemma_scan_defs_error_sticks(rows, j, k - 1);
        assert(rows.take(k).drop_last() =~= rows.take(k - 1));
    }
}

/// Readability of all rows holds of every prefix.
proof fn lemma_readable_prefix(rows: Seq<Json>, k: int)
    requires
        0 <= k <= rows.len(),
        column_rows_readable(rows),
    ensures
        column_rows_readable(rows.take(k)),
    decreases rows.len() - k,
{
    if k < rows.len() {
        assert(rows.drop_last() =~= rows.take(rows.len() - 1));
        if k < rows.len() - 1 {
            lemma_readable_prefix(rows.drop_last(), k);
            assert(rows.drop_last().take(k) =~= rows.take(k));
        } else {
            assert(rows.take(k) =~= rows.drop_last());
        }
    } else {
        assert(rows.take(k) =~= rows);
    }
}

/// Reconstructs the `:create` statement of relation `rel` from its
/// `::columns` result.
pub fn create_script_from_columns(rel: &str, result: &Json) -> (r: Result<String, SchemaError>)
    requires
        columns_result_readable(*result),
    ensures
        match r {
            Ok(s) => create_script_of(rel@, *result) == Ok::<Seq<char>, SchemaError>(s@),
            Err(e) => create_script_of(rel@, *result) == Err::<Seq<char>, SchemaError>(e),
        },
{
    let rows = match rows_of(result) {
        Some(rows) => rows,
        None => {
            return Err(SchemaError::NoColumnsRows);
        },
    };
    let mut keys: Vec<String> = Vec::new();
    let mut vals: Vec<String> = Vec::new();
    let mut i: usize = 0;
    assert(rows@.take(0) =~= Seq::<Json>::empty());
    assert(string_views(keys@) =~= Seq::<Seq<char>>::empty());
    assert(string_views(vals@) =~= Seq::<Seq<char>>::empty());
    while i < rows.len()
        invariant
            i <= rows@.len(),
            result_rows(*result) == Some(rows@),
            column_rows_readable(rows@),
            scan_column_defs(rows@.take(i as int)) == Ok::<
                (Seq<Seq<char>>, Seq<Seq<char>>),
                SchemaError,
            >((string_views(keys@), string_views(vals@))),
        decreases rows@.len() - i,
    {
        proof {
            assert(rows@.take(i + 1).drop_last() =~= rows@.take(i as int));
            assert(rows@.take(i + 1).last() == rows@[i as int]);
            lemma_readable_prefix(rows@, i + 1);
        }
        let arr = match elements_of(&rows[i]) {
            Some(arr) => arr,
            None => {
                proof {
                    lemma_scan_defs_error_sticks(rows@, i + 1, rows@.len() as int);
                    assert(rows@.take(rows@.len() as int) =~= rows@);
                }
                return Err(SchemaError::BadColumnRow);
            },
        };
        let name = match cell_name_of(&arr[0]) {
            Some(n) => n,
            None => {
                proof {
                    lemma_scan_defs_error_sticks(rows@, i + 1, rows@.len() as int);
                    assert(rows@.take(rows@.len() as int) =~= rows@);
                }
                return Err(SchemaError::NoColumnName);
            },
        };
        let is_key = match cell_flag_of(&arr[1]) {
            Some(b) => b,
            None => false,
        };
        let ty = match cell_name_of(&arr[3]) {
            Some(t) => t,
            None => {
                proof {
                    lemma_scan_defs_error_sticks(rows@, i + 1, rows@.len() as int);
                    assert(rows@.take(rows@.len() as int) =~= rows@);
                }
                return Err(SchemaError::NoColumnType);
            },
        };
        let mut def: Vec<char> = Vec::new();
        push_str(&mut def, name);
        push_str(&mut def, ": ");
        push_str(&mut def, ty);
        let def = string_of(&def);
        if is_key {
            let ghost before = keys@;
            keys.push(def);
            assert(string_views(keys@) =~= string_views(before).push(column_def(name@, ty@)));
        } else {
            let ghost before = vals@;
            vals.push(def);
            assert(string_views(vals@) =~= string_views(before).push(column_def(name@, ty@)));
        }
        i = i + 1;
    }
    assert(rows@.take(rows@.len() as int) =~= rows@);
    assert(keys@.subrange(0, keys@.len() as int) =~= keys@);
    assert(vals@.subrange(0, vals@.len() as int) =~= vals@);
    let mut out: Vec<char> = Vec::new();
    push_str(&mut out, ":create ");
    push_str(&mut out, rel);
    push_str(&mut out, " { ");
    push_joined(&mut out, &keys, 0, keys.len(), ", ");
    if vals.len() > 0 {
        push_str(&mut out, " => ");
        push_joined(&mut out, &vals, 0, vals.len(), ", ");
    }
    push_str(&mut out, " }");
    assert(out@ =~= create_statement(rel@, string_views(keys@), string_views(vals@)));
    Ok(string_of(&out))
}

} // verus!

verus! {

/// Whether `create_script_from_columns` can read `result` (no row is read
/// past its end).
pub fn columns_result_is_readable(result: &Json) -> (r: bool)
    ensures
        r == columns_result_readable(*result),
{
    let rows = match rows_of(result) {
        Some(rows) => rows,
        None => {
            return true;
        },
    };
    let mut i: usize = 0;
    let mut stopped = false;
    assert(rows@.take(0) =~= Seq::<Json>::empty());
    while i < rows.len()
        invariant
            i <= rows@.len(),
            result_rows(*result) == Some(rows@),
            column_rows_readable(rows@.take(i as int)),
            stopped == scan_column_defs(rows@.take(i as int)) is Err,
        decreases rows@.len() - i,
    {
        proof {
            assert(rows@.take(i + 1).drop_last() =~= rows@.take(i as int));
            assert(rows@.take(i + 1).last() == rows@[i as int]);
        }
        if !stopped {
            match elements_of(&rows[i]) {
                None => {
                    stopped = true;
                },
                Some(arr) => {
                    if arr.len() == 0 {
                        proof {
                            assert(!column_rows_readable(rows@.take(i + 1)));
                            if column_rows_readable(rows@) {
                                lemma_readable_prefix(rows@, i + 1);
                            }
                        }
                        return false;
                    }
                    match cell_name_of(&arr[0]) {
                        None => {
                            stopped = true;
                        },
                        Some(_) => {
                            if arr.len() < 4 {
                                proof {
                                    assert(!column_rows_readable(rows@.take(i + 1)));
                                    if column_rows_readable(rows@) {
                                        lemma_readable_prefix(rows@, i + 1);
                                    }
                                }
                                return false;
                            }
                            if cell_name_of(&arr[3]).is_none() {
                                stopped = true;
                            }
                        },
                    }
                },
            }
        } else {
            proof {
                lemma_scan_defs_error_sticks(rows@, i as int, i + 1);
            }
        }
        i = i + 1;
    }
    assert(rows@.take(rows@.len() as int) =~= rows@);
    true
}

/// The rows of the `::relations` result.
pub fn relations_rows(result: &Json) -> (r: Result<&Vec<Json>, SchemaError>)
    ensures
        match r {
            Ok(rows) => result_rows(*result) == Some(rows@),
            Err(e) => result_rows(*result) is None && e == SchemaError::NoRelationsRows,
        },
{
    match rows_of(result) {
        Some(rows) => Ok(rows),
        None => Err(SchemaError::NoRelationsRows),
    }
}

/// The relation name in a row of the `::relations` result.
pub open spec fn relation_row_name(row: Json) -> Option<Seq<char>> {
    match as_elements(row) {
        Some(a) => cell_name(a[0]),
        None => None,
    }
}

/// The name of the relation a `::relations` row describes.
pub fn relation_name(row: &Json) -> (r: Result<String, SchemaError>)
    requires
        as_elements(*row) matches Some(a) ==> a.len() > 0,
    ensures
        match r {
            Ok(s) => relation_row_name(*row) == Some(s@),
            Err(e) => relation_row_name(*row) is None && e == SchemaError::NoRelationName,
        },
{
    match elements_of(row) {
        Some(a) => match cell_name_of(&a[0]) {
            Some(n) => Ok(string_of(&chars_of(n))),
            None => Err(SchemaError::NoRelationName),
        },
        None => Err(SchemaError::NoRelationName),
    }
}

/// Whether a relation is recorded in `world_schema`: every relation but
/// `world_schema` itself.
pub fn recorded_in_world_schema(name: &str) -> (r: bool)
    ensures
        r == (name@ != "world_schema"@),
{
    !str_eq(name, "world_schema")
}

/// Ontological bedrock: these relations are of eternal dignity.
pub const ETERNAL_RELATIONS: [&'static str; 9] = [
    "Aspect",
    "Dignity",
    "Element",
    "Enum",
    "Measure",
    "Modality",
    "Phase",
    "Planet",
    "Sign",
];

/// The relations of eternal dignity.
pub open spec fn eternal_relation(name: Seq<char>) -> bool {
    ||| name == "Aspect"@
    ||| name == "Dignity"@
    ||| name == "Element"@
    ||| name == "Enum"@
    ||| name == "Measure"@
    ||| name == "Modality"@
    ||| name == "Phase"@
    ||| name == "Planet"@
    ||| name == "Sign"@
}

/// The relations that come from the Samskara-Lojix contract.
pub open spec fn contract_relation(name: Seq<char>) -> bool {
    ||| name == "transpiler_version"@
    ||| name == "eval_request"@
    ||| name == "eval_result"@
}

/// The dignity `world_schema` records for a relation.
pub open spec fn schema_dignity(name: Seq<char>) -> Seq<char> {
    if eternal_relation(name) {
        "eternal"@
    } else {
        "proven"@
    }
}

/// The origin `world_schema` records for a relation.
pub open spec fn schema_origin(name: Seq<char>) -> Seq<char> {
    if contract_relation(name) {
        "contract"@
    } else {
        "genesis"@
    }
}

/// The dignity `world_schema` records for relation `name`.
pub fn relation_dignity(name: &str) -> (r: &'static str)
    ensures
        r@ == schema_dignity(name@),
{
    let mut i: usize = 0;
    while i < 9
        invariant
            i <= 9,
            forall|j: int| 0 <= j < i ==> ETERNAL_RELATIONS@[j]@ != name@,
        decreases 9 - i,
    {
        if str_eq(ETERNAL_RELATIONS[i], name) {
            return "eternal";
        }
        i = i + 1;
    }
    "proven"
}

/// The origin `world_schema` records for relation `name`.
pub fn relation_origin(name: &str) -> (r: &'static str)
    ensures
        r@ == schema_origin(name@),
{
    if str_eq(name, "transpiler_version") || str_eq(name, "eval_request") || str_eq(
        name,
        "eval_result",
    ) {
        "contract"
    } else {
        "genesis"
    }
}

/// The script that records relation `name` and its `:create` statement in
/// `world_schema`, in the `manifest` phase.
pub open spec fn world_schema_put(name: Seq<char>, create_script: Seq<char>) -> Seq<char> {
    "?[relation_name, create_script, origin, phase, dignity] <- [[\n                \""@
        + escaped(name) + "\", \""@ + escaped(create_script) + "\", \""@ + schema_origin(name)
        + "\", \"manifest\", \""@ + schema_dignity(name)
        + "\"\n            ]]\n            :put world_schema { relation_name => create_script, origin, phase, dignity }"@
}

/// The script that records relation `name` in `world_schema`.
pub fn world_schema_put_script(name: &str, create_script: &str) -> (r: String)
    ensures
        r@ == world_schema_put(name@, create_script@),
{
    let mut out: Vec<char> = Vec::new();
    push_str(
        &mut out,
        "?[relation_name, create_script, origin, phase, dignity] <- [[\n                \"",
    );
    out.append(&mut chars_of(crate::vcs::esc(name).as_str()));
    push_str(&mut out, "\", \"");
    out.append(&mut chars_of(crate::vcs::esc(create_script).as_str()));
    push_str(&mut out, "\", \"");
    push_str(&mut out, relation_origin(name));
    push_str(&mut out, "\", \"manifest\", \"");
    push_str(&mut out, relation_dignity(name));
    push_str(
        &mut out,
        "\"\n            ]]\n            :put world_schema { relation_name => create_script, origin, phase, dignity }",
    );
    assert(out@ =~= world_schema_put(name@, create_script@));
    string_of(&out)
}

} // verus!

verus! {

/// Whether a text is comment-only is read line by line.
proof fn lemma_comment_only_cons(x: Seq<char>, l: Seq<char>, y: Seq<char>)
    requires
        lines(x) == seq![l] + lines(y),
    ensures
        comment_only(x) == (is_comment_line(l) && comment_only(y)),
{
    if comment_only(x) {
        assert(lines(x)[0] == l);
        assert forall|i: int| 0 <= i < lines(y).len() implies is_comment_line(
            #[trigger] lines(y)[i],
        ) by {
            assert(lines(x)[i + 1] == lines(y)[i]);
        }
    }
    if is_comment_line(l) && comment_only(y) {
        assert forall|i: int| 0 <= i < lines(x).len() implies is_comment_line(
            #[trigger] lines(x)[i],
        ) by {
            if i > 0 {
                assert(lines(x)[i] == lines(y)[i - 1]);
            }
        }
    }
}

proof fn lemma_comment_only_newline(a: Seq<char>, b: Seq<char>)
    ensures
        comment_only(a + seq!['\n'] + b) == (comment_only(a) && comment_only(b)),
    decreases a.len(),
{
    let s = a + seq!['\n'] + b;
    let k = crate::text::find_char(a, '\n');
    crate::text::lemma_find_char(a, '\n');
    crate::text::lemma_lines_split(a, b);
    if k < 0 {
        crate::text::lemma_trim_strip_cr(a);
        lemma_comment_only_cons(s, crate::text::strip_cr(a), b);
        if a.len() == 0 {
            assert(lines(a).len() == 0);
            reveal_strlit("#");
            assert(trim(crate::text::strip_cr(a)) =~= Seq::<char>::empty());
        } else {
            assert(lines(a) == seq![a]);
            assert(lines(a)[0] == a);
            if is_comment_line(a) {
                assert forall|i: int| 0 <= i < lines(a).len() implies is_comment_line(
                    #[trigger] lines(a)[i],
                ) by {}
            }
        }
    } else {
        let line = crate::text::strip_cr(a.take(k));
        let ra = a.skip(k + 1);
        lemma_comment_only_newline(ra, b);
        lemma_comment_only_cons(s, line, ra + seq!['\n'] + b);
        lemma_comment_only_cons(a, line, ra);
    }
}

/// A text joined from two by a newline is comment-only exactly when both
/// parts are.
pub proof fn lemma_comment_only_joined(a: Seq<char>, b: Seq<char>)
    ensures
        comment_only(a + "\n"@ + b) == (comment_only(a) && comment_only(b)),
{
    reveal_strlit("\n");
    assert("\n"@ =~= seq!['\n']);
    lemma_comment_only_newline(a, b);
}

} // verus!

verus! {

/// A relation's dignity is `eternal` exactly when its name is one of
/// `ETERNAL_RELATIONS`, and `proven` otherwise.
pub proof fn lemma_dignity_eternal_exactly_for_listed(name: Seq<char>)
    ensures
        (exists|j: int| 0 <= j < 9 && #[trigger] ETERNAL_RELATIONS@[j]@ == name) ==> schema_dignity(
            name,
        ) == "eternal"@,
        !(exists|j: int| 0 <= j < 9 && #[trigger] ETERNAL_RELATIONS@[j]@ == name) ==> schema_dignity(
            name,
        ) == "proven"@,
{
    let a = ETERNAL_RELATIONS@;
    assert(a[0]@ == "Aspect"@);
    assert(a[1]@ == "Dignity"@);
    assert(a[2]@ == "Element"@);
    assert(a[3]@ == "Enum"@);
    assert(a[4]@ == "Measure"@);
    assert(a[5]@ == "Modality"@);
    assert(a[6]@ == "Phase"@);
    assert(a[7]@ == "Planet"@);
    assert(a[8]@ == "Sign"@);
    if eternal_relation(name) {
        if name == "Aspect"@ {
            assert(a[0]@ == name);
        } else if name == "Dignity"@ {
            assert(a[1]@ == name);
        } else if name == "Element"@ {
            assert(a[2]@ == name);
        } else if name == "Enum"@ {
            assert(a[3]@ == name);
        } else if name == "Measure"@ {
            assert(a[4]@ == name);
        } else if name == "Modality"@ {
            assert(a[5]@ == name);
        } else if name == "Phase"@ {
            assert(a[6]@ == name);
        } else if name == "Planet"@ {
            assert(a[7]@ == name);
        } else {
            assert(a[8]@ == name);
        }
    }
}

} // verus!
