//! Refinement of a commit message handed to the editor bridge.
use vstd::prelude::*;

use crate::text::{
    chars_of, find_seq_at, join, line_ranges, lines, push_range, push_str, ranges_text,
    starts_with, starts_with_at, string_of, trim, trim_range, contains_seq, trim_start, trim_end,
    is_whitespace,
};

verus! {

/// The sections appended to a message that lacks them.
pub open spec fn context_trailer() -> Seq<char> {
    "\n\n## Prompt\n[SYTHESIZED BY SA\u{1e42}SK\u{100}RA]\n\n## Context\n[SYTHESIZED BY SA\u{1e42}SK\u{100}RA]\n\n## Summary\n[SYTHESIZED BY SA\u{1e42}SK\u{100}RA]"@
}

/// The lines that are kept: those not starting with `JJ:`.
pub open spec fn kept_lines(ls: Seq<Seq<char>>) -> Seq<Seq<char>>
    decreases ls.len(),
{
    if ls.len() == 0 {
        seq![]
    } else if starts_with(ls.last(), "JJ:"@) {
        kept_lines(ls.drop_last())
    } else {
        kept_lines(ls.drop_last()).push(ls.last())
    }
}

/// The refined message: the lines not starting with `JJ:` joined with
/// newlines and trimmed, with the context sections appended when the text
/// has no `## Prompt` section.
pub open spec fn refined_message(input: Seq<char>) -> Seq<char> {
    let refined = trim(join(kept_lines(lines(input)), "\n"@));
    if contains_seq(refined, "## Prompt"@) {
        refined
    } else {
        refined + context_trailer()
    }
}

/// Strips `JJ:` lines and ensures the mandatory context sections.
pub fn refine_message_local_stub(input: &str) -> (r: String)
    ensures
        r@ == refined_message(input@),
{
    let v = chars_of(input);
    let jj = chars_of("JJ:");
    let ls = line_ranges(&v);
    let ghost all = lines(v@);
    let mut joined: Vec<char> = Vec::new();
    let mut any = false;
    let mut i: usize = 0;
    assert(all.take(0) =~= Seq::<Seq<char>>::empty());
    while i < ls.len()
        invariant
            v@ == input@,
            jj@ == "JJ:"@,
            all == lines(v@),
            ranges_text(v@, ls@) == all,
            forall|k: int| 0 <= k < ls@.len() ==> (#[trigger] ls@[k]).0 <= ls@[k].1 <= v@.len(),
            i <= ls@.len(),
            any == (kept_lines(all.take(i as int)).len() > 0),
            joined@ == join(kept_lines(all.take(i as int)), "\n"@),
        decreases ls@.len() - i,
    {
        let (la, lb) = ls[i];
        let ghost line = v@.subrange(la as int, lb as int);
        let ghost prev = kept_lines(all.take(i as int));
        proof {
            assert(line == all[i as int]);
            assert(all.take(i + 1).drop_last() =~= all.take(i as int));
            assert(all.take(i + 1).last() == line);
        }
        if !starts_with_at(&v, la, lb, &jj) {
            if any {
                proof {
                    crate::text::lemma_join_push(prev, line, "\n"@);
                }
                push_str(&mut joined, "\n");
            } else {
                assert(prev.push(line).len() == 1);
            }
            push_range(&mut joined, &v, la, lb);
            any = true;
            assert(joined@ =~= join(kept_lines(all.take(i + 1)), "\n"@));
        }
        i = i + 1;
    }
    assert(all.take(ls@.len() as int) =~= all);
    let (a, b) = trim_range(&joined, 0, joined.len());
    assert(joined@.subrange(0, joined@.len() as int) =~= joined@);
    let prompt = chars_of("## Prompt");
    let mut out: Vec<char> = Vec::new();
    push_range(&mut out, &joined, a, b);
    if find_seq_at(&joined, a, b, &prompt).is_none() {
        push_str(
            &mut out,
            "\n\n## Prompt\n[SYTHESIZED BY SA\u{1e42}SK\u{100}RA]\n\n## Context\n[SYTHESIZED BY SA\u{1e42}SK\u{100}RA]\n\n## Summary\n[SYTHESIZED BY SA\u{1e42}SK\u{100}RA]",
        );
    }
    string_of(&out)
}

} // verus!

verus! {

/// A refined message always has a `## Prompt` section.
pub proof fn lemma_refined_has_prompt(input: Seq<char>)
    ensures
        contains_seq(refined_message(input), "## Prompt"@),
{
    let refined = trim(join(kept_lines(lines(input)), "\n"@));
    if !contains_seq(refined, "## Prompt"@) {
        reveal_strlit("## Prompt");
        reveal_strlit(
            "\n\n## Prompt\n[SYTHESIZED BY SA\u{1e42}SK\u{100}RA]\n\n## Context\n[SYTHESIZED BY SA\u{1e42}SK\u{100}RA]\n\n## Summary\n[SYTHESIZED BY SA\u{1e42}SK\u{100}RA]",
        );
        let t = refined + context_trailer();
        let j: int = refined.len() as int + 2;
        assert(t.skip(j).take(9) =~= "## Prompt"@);
        crate::text::lemma_contains_at(t, "## Prompt"@, j);
    }
}

} // verus!

verus! {

/// A line that a refined message can hold as it is: no line break, no
/// carriage return, not a `JJ:` line.
pub open spec fn settled_line(l: Seq<char>) -> bool {
    !l.contains('\n') && !l.contains('\r') && !starts_with(l, "JJ:"@)
}

/// Lines that make a refined message as they stand: settled lines, the
/// first starting and the last ending with a character that is not
/// whitespace.
pub open spec fn settled_lines(m: Seq<Seq<char>>) -> bool {
    &&& m.len() > 0
    &&& forall|i: int| 0 <= i < m.len() ==> settled_line(#[trigger] m[i])
    &&& m[0].len() > 0
    &&& !is_whitespace(m[0][0])
    &&& m.last().len() > 0
    &&& !is_whitespace(m.last().last())
}

/// Keeping lines that are no `JJ:` lines keeps them all.
proof fn lemma_kept_all(ls: Seq<Seq<char>>)
    requires
        forall|i: int| 0 <= i < ls.len() ==> !starts_with(#[trigger] ls[i], "JJ:"@),
    ensures
        kept_lines(ls) == ls,
    decreases ls.len(),
{
    if ls.len() > 0 {
        assert(ls.last() == ls[ls.len() - 1]);
        lemma_kept_all(ls.drop_last());
        assert(ls.drop_last().push(ls.last()) =~= ls);
    }
}

/// The kept lines are lines of the list that are no `JJ:` lines, and each
/// line that is no `JJ:` line is kept.
proof fn lemma_kept_lines(ls: Seq<Seq<char>>)
    ensures
        forall|i: int|
            0 <= i < kept_lines(ls).len() ==> exists|j: int|
                0 <= j < ls.len() && #[trigger] kept_lines(ls)[i] == #[trigger] ls[j],
        forall|i: int|
            0 <= i < kept_lines(ls).len() ==> !starts_with(#[trigger] kept_lines(ls)[i], "JJ:"@),
        forall|j: int|
            0 <= j < ls.len() && !starts_with(#[trigger] ls[j], "JJ:"@) ==> exists|i: int|
                0 <= i < kept_lines(ls).len() && kept_lines(ls)[i] == ls[j],
    decreases ls.len(),
{
    if ls.len() > 0 {
        let init = ls.drop_last();
        lemma_kept_lines(init);
        let k0 = kept_lines(init);
        let k = kept_lines(ls);
        assert forall|i: int| 0 <= i < k.len() implies exists|j: int|
            0 <= j < ls.len() && #[trigger] k[i] == #[trigger] ls[j] by {
            if i < k0.len() {
                let j = choose|j: int| 0 <= j < init.len() && k0[i] == init[j];
                assert(k[i] == k0[i]);
                assert(ls[j] == init[j]);
            } else {
                assert(k[i] == ls[ls.len() - 1]);
            }
        }
        assert forall|i: int| 0 <= i < k.len() implies !starts_with(#[trigger] k[i], "JJ:"@) by {
            if i < k0.len() {
                assert(k[i] == k0[i]);
            }
        }
        assert forall|j: int| 0 <= j < ls.len() && !starts_with(#[trigger] ls[j], "JJ:"@) implies exists|i: int|
            0 <= i < k.len() && k[i] == ls[j] by {
            if j < init.len() {
                assert(init[j] == ls[j]);
                let i = choose|i: int| 0 <= i < k0.len() && k0[i] == init[j];
                assert(k[i] == k0[i]);
            } else {
                assert(ls[j] == ls.last());
                assert(k[k.len() - 1] == ls[j]);
            }
        }
    }
}

/// A prefix of a settled line is settled.
proof fn lemma_settled_prefix(x: Seq<char>, n: int)
    requires
        settled_line(x),
        0 <= n <= x.len(),
    ensures
        settled_line(x.take(n)),
{
    let y = x.take(n);
    if y.contains('\n') {
        let j = choose|j: int| 0 <= j < y.len() && y[j] == '\n';
        assert(x[j] == '\n');
    }
    if y.contains('\r') {
        let j = choose|j: int| 0 <= j < y.len() && y[j] == '\r';
        assert(x[j] == '\r');
    }
    if starts_with(y, "JJ:"@) {
        assert(x.take("JJ:"@.len() as int) =~= y.take("JJ:"@.len() as int));
    }
}

/// The lines after trimming the start of the text: their first line
/// starts with a character that is not whitespace, and all are settled.
proof fn lemma_trim_lines_start_settled(k: Seq<Seq<char>>)
    requires
        forall|i: int|
            0 <= i < k.len() ==> settled_line(#[trigger] k[i]) && !starts_with(
                trim_start(k[i]),
                "JJ:"@,
            ),
        exists|i: int| 0 <= i < k.len() && (#[trigger] trim_start(k[i])).len() > 0,
    ensures
        ({
            let s = crate::text::trim_lines_start(k);
            &&& s.len() > 0
            &&& forall|i: int| 0 <= i < s.len() ==> settled_line(#[trigger] s[i])
            &&& s[0].len() > 0
            &&& !is_whitespace(s[0][0])
        }),
    decreases k.len(),
{
    let x = k[0];
    let rest = k.drop_first();
    assert(settled_line(k[0]));
    crate::text::lemma_trim_start_shape(x);
    if trim_start(x).len() == 0 {
        let w = choose|i: int| 0 <= i < k.len() && (#[trigger] trim_start(k[i])).len() > 0;
        assert(w > 0);
        assert(rest[w - 1] == k[w]);
        assert forall|i: int| 0 <= i < rest.len() implies settled_line(#[trigger] rest[i])
            && !starts_with(trim_start(rest[i]), "JJ:"@) by {
            assert(rest[i] == k[i + 1]);
        }
        lemma_trim_lines_start_settled(rest);
    } else {
        let t = trim_start(x);
        let s = crate::text::trim_lines_start(k);
        assert(s == seq![t] + rest);
        assert(settled_line(t)) by {
            let d = x.len() - t.len();
            if t.contains('\n') {
                let j = choose|j: int| 0 <= j < t.len() && t[j] == '\n';
                assert(x[d + j] == '\n');
            }
            if t.contains('\r') {
                let j = choose|j: int| 0 <= j < t.len() && t[j] == '\r';
                assert(x[d + j] == '\r');
            }
        }
        assert forall|i: int| 0 <= i < s.len() implies settled_line(#[trigger] s[i]) by {
            if i > 0 {
                assert(s[i] == k[i]);
            }
        }
    }
}

/// The lines after trimming the end of the text are settled lines that
/// form a refined message.
proof fn lemma_trim_lines_end_settled(s: Seq<Seq<char>>)
    requires
        s.len() > 0,
        forall|i: int| 0 <= i < s.len() ==> settled_line(#[trigger] s[i]),
        s[0].len() > 0,
        !is_whitespace(s[0][0]),
    ensures
        settled_lines(crate::text::trim_lines_end(s)),
    decreases s.len(),
{
    let x = s.last();
    let init = s.drop_last();
    assert(settled_line(s[s.len() - 1]));
    crate::text::lemma_trim_end_shape(x);
    let t = trim_end(x);
    if s.len() == 1 {
        assert(x == s[0]);
        if t.len() == 0 {
            assert(x.skip(0) =~= x);
            assert(x.skip(0)[0] == x[0]);
        }
        lemma_settled_prefix(x, t.len() as int);
        let m = crate::text::trim_lines_end(s);
        assert(m =~= seq![t]);
        assert(t[0] == x.take(t.len() as int)[0]);
    } else if t.len() == 0 {
        assert(init[0] == s[0]);
        assert forall|i: int| 0 <= i < init.len() implies settled_line(#[trigger] init[i]) by {
            assert(init[i] == s[i]);
        }
        lemma_trim_lines_end_settled(init);
    } else {
        lemma_settled_prefix(x, t.len() as int);
        let m = crate::text::trim_lines_end(s);
        assert(m == init.push(t));
        assert(m[0] == s[0]);
        assert forall|i: int| 0 <= i < m.len() implies settled_line(#[trigger] m[i]) by {
            if i < init.len() {
                assert(m[i] == s[i]);
            }
        }
    }
}

} // verus!

verus! {

/// The last character of joined lines is that of the last line.
proof fn lemma_join_last(m: Seq<Seq<char>>)
    requires
        m.len() > 0,
        m.last().len() > 0,
    ensures
        join(m, seq!['\n']).len() > 0,
        join(m, seq!['\n']).last() == m.last().last(),
{
    if m.len() == 1 {
        assert(join(m, seq!['\n']) == m[0]);
    } else {
        let j = join(m.drop_last(), seq!['\n']);
        assert(join(m, seq!['\n']) == j + seq!['\n'] + m.last());
    }
}

/// Settled lines, joined, are a refined message already: refining the text
/// keeps or drops no line and trims nothing.
proof fn lemma_settled_refines_to_itself(m: Seq<Seq<char>>)
    requires
        settled_lines(m),
    ensures
        trim(join(kept_lines(lines(join(m, "\n"@))), "\n"@)) == join(m, "\n"@),
{
    reveal_strlit("\n");
    assert("\n"@ =~= seq!['\n']);
    assert forall|i: int| 0 <= i < m.len() implies !(#[trigger] m[i]).contains('\n') && !m[i].contains(
        '\r',
    ) by {
        assert(settled_line(m[i]));
    }
    assert(settled_line(m[m.len() - 1]));
    crate::text::lemma_lines_of_join(m);
    assert forall|i: int| 0 <= i < m.len() implies !starts_with(#[trigger] m[i], "JJ:"@) by {
        assert(settled_line(m[i]));
    }
    lemma_kept_all(m);
    crate::text::lemma_join_starts_with_first(m, seq!['\n']);
    lemma_join_last(m);
    let j = join(m, seq!['\n']);
    assert(j[0] == j.take(m[0].len() as int)[0]);
    crate::text::lemma_trim_settled(j);
}

/// The lines of the appended context sections.
pub open spec fn trailer_lines() -> Seq<Seq<char>> {
    seq![
        seq![],
        "## Prompt"@,
        "[SYTHESIZED BY SA\u{1e42}SK\u{100}RA]"@,
        seq![],
        "## Context"@,
        "[SYTHESIZED BY SA\u{1e42}SK\u{100}RA]"@,
        seq![],
        "## Summary"@,
        "[SYTHESIZED BY SA\u{1e42}SK\u{100}RA]"@,
    ]
}

/// The context sections are a line break and then their lines, every one of
/// them settled, the last ending in `]`.
#[verifier::spinoff_prover]
#[verifier::rlimit(60)]
proof fn lemma_trailer_lines()
    ensures
        context_trailer() == seq!['\n'] + join(trailer_lines(), seq!['\n']),
        forall|i: int| 0 <= i < trailer_lines().len() ==> settled_line(#[trigger] trailer_lines()[i]),
        trailer_lines().last().len() > 0,
        !is_whitespace(trailer_lines().last().last()),
{
    reveal_strlit("## Prompt");
    reveal_strlit("## Context");
    reveal_strlit("## Summary");
    reveal_strlit("[SYTHESIZED BY SA\u{1e42}SK\u{100}RA]");
    reveal_strlit("JJ:");
    reveal_strlit(
        "\n\n## Prompt\n[SYTHESIZED BY SA\u{1e42}SK\u{100}RA]\n\n## Context\n[SYTHESIZED BY SA\u{1e42}SK\u{100}RA]\n\n## Summary\n[SYTHESIZED BY SA\u{1e42}SK\u{100}RA]",
    );
    let tl = trailer_lines();
    reveal_with_fuel(join, 10);
    assert(context_trailer() =~= seq!['\n'] + join(tl, seq!['\n']));
    assert forall|i: int| 0 <= i < tl.len() implies settled_line(#[trigger] tl[i]) by {
        let l = tl[i];
        assert forall|j: int| 0 <= j < l.len() implies l[j] != '\n' && l[j] != '\r' by {}
        if l.len() > 0 {
            assert(l[0] != 'J');
            assert(l.take(3)[0] != "JJ:"@[0]);
        }
    }
}

/// Under the conditions of `lemma_refine_is_idempotent`, the trimmed text
/// of the kept lines is made of settled lines.
proof fn lemma_refined_lines(input: Seq<char>) -> (m: Seq<Seq<char>>)
    requires
        !input.contains('\r'),
        forall|i: int|
            0 <= i < lines(input).len() && !starts_with(#[trigger] lines(input)[i], "JJ:"@)
                ==> !starts_with(trim_start(lines(input)[i]), "JJ:"@),
        exists|i: int|
            0 <= i < lines(input).len() && !starts_with(#[trigger] lines(input)[i], "JJ:"@)
                && trim_start(lines(input)[i]).len() > 0,
    ensures
        settled_lines(m),
        trim(join(kept_lines(lines(input)), seq!['\n'])) == join(m, seq!['\n']),
{
    let ls = lines(input);
    let k = kept_lines(ls);
    crate::text::lemma_lines_chars(input);
    lemma_kept_lines(ls);
    assert forall|i: int| 0 <= i < k.len() implies settled_line(#[trigger] k[i]) && !starts_with(
        trim_start(k[i]),
        "JJ:"@,
    ) by {
        let j = choose|j: int| 0 <= j < ls.len() && #[trigger] k[i] == #[trigger] ls[j];
        assert(!starts_with(k[i], "JJ:"@));
    }
    let w = choose|i: int|
        0 <= i < ls.len() && !starts_with(#[trigger] ls[i], "JJ:"@) && trim_start(ls[i]).len() > 0;
    let wk = choose|i: int| 0 <= i < k.len() && k[i] == ls[w];
    assert(trim_start(k[wk]).len() > 0);
    lemma_trim_lines_start_settled(k);
    let s = crate::text::trim_lines_start(k);
    lemma_trim_lines_end_settled(s);
    crate::text::lemma_trim_start_join(k);
    crate::text::lemma_trim_end_join(s);
    crate::text::trim_lines_end(s)
}

/// Refining a refined message changes nothing, when no line of the message
/// hides a `JJ:` behind leading whitespace, there is no carriage return, and
/// some line that is kept is not blank.
#[verifier::spinoff_prover]
pub proof fn lemma_refine_is_idempotent(input: Seq<char>)
    requires
        !input.contains('\r'),
        forall|i: int|
            0 <= i < lines(input).len() && !starts_with(#[trigger] lines(input)[i], "JJ:"@)
                ==> !starts_with(trim_start(lines(input)[i]), "JJ:"@),
        exists|i: int|
            0 <= i < lines(input).len() && !starts_with(#[trigger] lines(input)[i], "JJ:"@)
                && trim_start(lines(input)[i]).len() > 0,
    ensures
        refined_message(refined_message(input)) == refined_message(input),
{
    reveal_strlit("\n");
    assert("\n"@ =~= seq!['\n']);
    let nl = seq!['\n'];
    let m = lemma_refined_lines(input);
    let refined = trim(join(kept_lines(lines(input)), nl));
    if contains_seq(refined, "## Prompt"@) {
        assert(refined_message(input) == join(m, "\n"@));
        lemma_settled_refines_to_itself(m);
    } else {
        lemma_trailer_lines();
        let m2 = m + trailer_lines();
        crate::text::lemma_join_append(m, trailer_lines(), nl);
        assert(join(m2, nl) =~= refined + context_trailer());
        assert(settled_lines(m2)) by {
            assert forall|i: int| 0 <= i < m2.len() implies settled_line(#[trigger] m2[i]) by {
                if i < m.len() {
                    assert(m2[i] == m[i]);
                } else {
                    assert(m2[i] == trailer_lines()[i - m.len()]);
                }
            }
            assert(m2[0] == m[0]);
            assert(m2.last() == trailer_lines().last());
        }
        lemma_settled_refines_to_itself(m2);
        lemma_refined_has_prompt(input);
    }
}

} // verus!
