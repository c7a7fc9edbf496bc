//! Character-level text operations with their mathematical meaning.
use vstd::prelude::*;
use vstd::std_specs::iter::IteratorSpec;

verus! {

broadcast use vstd::string::group_string_axioms;

/// `String::push` appends one character to the end of the string.
pub assume_specification[ std::string::String::push ](string: &mut std::string::String, ch: char)
    ensures
        final(string)@ == old(string)@.push(ch),
;

/// The characters of `s`, in order.
pub fn chars_of(s: &str) -> (v: Vec<char>)
    ensures
        v@ == s@,
{
    let mut v: Vec<char> = Vec::new();
    let mut it = s.chars();
    loop
        invariant
            v@ + it.remaining() == s@,
            it.decrease() is Some,
        ensures
            v@ == s@,
        decreases it.decrease()->0,
    {
        match it.next() {
            Some(c) => {
                v.push(c);
            },
            None => {
                break ;
            },
        }
    }
    v
}

/// A `String` holding exactly the characters of `v`.
pub fn string_of(v: &[char]) -> (s: String)
    ensures
        s@ == v@,
{
    let mut s = String::new();
    let mut i: usize = 0;
    while i < v.len()
        invariant
            i <= v@.len(),
            s@ == v@.take(i as int),
        decreases v@.len() - i,
    {
        s.push(v[i]);
        i = i + 1;
        assert(v@.take(i as int) =~= v@.take(i - 1).push(v@[i - 1]));
    }
    assert(v@.take(v@.len() as int) =~= v@);
    s
}

} // verus!

verus! {

// ---------------------------------------------------------------------
// Mathematical meaning of the text operations.
// ---------------------------------------------------------------------

/// Unicode `White_Space`: the characters that `char::is_whitespace` accepts.
pub open spec fn is_whitespace(c: char) -> bool {
    ||| ('\t' <= c && c <= '\r')
    ||| c == ' '
    ||| c == '\u{85}'
    ||| c == '\u{a0}'
    ||| c == '\u{1680}'
    ||| ('\u{2000}' <= c && c <= '\u{200a}')
    ||| c == '\u{2028}'
    ||| c == '\u{2029}'
    ||| c == '\u{202f}'
    ||| c == '\u{205f}'
    ||| c == '\u{3000}'
}

/// `s` without its leading whitespace.
pub open spec fn trim_start(s: Seq<char>) -> Seq<char>
    decreases s.len(),
{
    if s.len() > 0 && is_whitespace(s[0]) {
        trim_start(s.drop_first())
    } else {
        s
    }
}

/// `s` without its trailing whitespace.
pub open spec fn trim_end(s: Seq<char>) -> Seq<char>
    decreases s.len(),
{
    if s.len() > 0 && is_whitespace(s.last()) {
        trim_end(s.drop_last())
    } else {
        s
    }
}

/// `s` without leading and trailing whitespace (`str::trim`).
pub open spec fn trim(s: Seq<char>) -> Seq<char> {
    trim_end(trim_start(s))
}

/// `p` is a prefix of `s`.
pub open spec fn starts_with(s: Seq<char>, p: Seq<char>) -> bool {
    p.len() <= s.len() && s.take(p.len() as int) == p
}

/// The first position of `c` in `s`, or -1.
pub open spec fn find_char(s: Seq<char>, c: char) -> int
    decreases s.len(),
{
    if s.len() == 0 {
        -1
    } else if s[0] == c {
        0
    } else {
        let r = find_char(s.drop_first(), c);
        if r < 0 {
            -1
        } else {
            r + 1
        }
    }
}

/// The first position at which `p` occurs in `s`, or -1.
pub open spec fn find_seq(s: Seq<char>, p: Seq<char>) -> int
    decreases s.len(),
{
    if starts_with(s, p) {
        0
    } else if s.len() == 0 {
        -1
    } else {
        let r = find_seq(s.drop_first(), p);
        if r < 0 {
            -1
        } else {
            r + 1
        }
    }
}

/// `p` occurs somewhere in `s`.
pub open spec fn contains_seq(s: Seq<char>, p: Seq<char>) -> bool {
    find_seq(s, p) >= 0
}

/// A line without the carriage return that ends it, if any.
pub open spec fn strip_cr(line: Seq<char>) -> Seq<char> {
    if line.len() > 0 && line.last() == '\r' {
        line.drop_last()
    } else {
        line
    }
}

/// The lines of `s` as `str::lines` yields them: split at `\n`, a `\r` just
/// before the `\n` removed, no final empty line after a closing `\n`.
pub open spec fn lines(s: Seq<char>) -> Seq<Seq<char>>
    decreases s.len(),
{
    if s.len() == 0 {
        seq![]
    } else {
        let k = find_char(s, '\n');
        if k < 0 {
            seq![s]
        } else {
            proof {
                lemma_find_char(s, '\n');
            }
            seq![strip_cr(s.take(k))] + lines(s.skip(k + 1))
        }
    }
}

/// `s` with every occurrence of `c` replaced by `r`.
pub open spec fn replace_char(s: Seq<char>, c: char, r: Seq<char>) -> Seq<char>
    decreases s.len(),
{
    if s.len() == 0 {
        seq![]
    } else {
        replace_char(s.drop_last(), c, r) + (if s.last() == c {
            r
        } else {
            seq![s.last()]
        })
    }
}

/// The pieces of `list` joined with `sep` between them.
pub open spec fn join(list: Seq<Seq<char>>, sep: Seq<char>) -> Seq<char>
    decreases list.len(),
{
    if list.len() == 0 {
        seq![]
    } else if list.len() == 1 {
        list[0]
    } else {
        join(list.drop_last(), sep) + sep + list.last()
    }
}

/// The decimal digit for `d < 10`.
pub open spec fn digit(d: nat) -> char {
    if d == 0 {
        '0'
    } else if d == 1 {
        '1'
    } else if d == 2 {
        '2'
    } else if d == 3 {
        '3'
    } else if d == 4 {
        '4'
    } else if d == 5 {
        '5'
    } else if d == 6 {
        '6'
    } else if d == 7 {
        '7'
    } else if d == 8 {
        '8'
    } else {
        '9'
    }
}

/// The decimal notation of `n`, without leading zeros.
pub open spec fn decimal(n: nat) -> Seq<char>
    decreases n,
{
    if n < 10 {
        seq![digit(n)]
    } else {
        decimal(n / 10) + seq![digit(n % 10)]
    }
}

/// The decimal notation of a signed integer, with a leading `-` when negative.
pub open spec fn signed_decimal(n: int) -> Seq<char> {
    if n < 0 {
        seq!['-'] + decimal((-n) as nat)
    } else {
        decimal(n as nat)
    }
}

// ---------------------------------------------------------------------
// Lemmas.
// ---------------------------------------------------------------------

/// `find_char` is the first position of `c`.
pub proof fn lemma_find_char(s: Seq<char>, c: char)
    ensures
        -1 <= find_char(s, c) < s.len(),
        find_char(s, c) >= 0 ==> s[find_char(s, c)] == c,
        forall|j: int|
            0 <= j < (if find_char(s, c) < 0 {
                s.len() as int
            } else {
                find_char(s, c)
            }) ==> s[j] != c,
    decreases s.len(),
{
    if s.len() > 0 && s[0] != c {
        lemma_find_char(s.drop_first(), c);
        assert forall|j: int|
            0 <= j < (if find_char(s, c) < 0 {
                s.len() as int
            } else {
                find_char(s, c)
            }) implies s[j] != c by {
            if j > 0 {
                assert(s[j] == s.drop_first()[j - 1]);
            }
        }
    }
}

/// A position of `c` with no `c` before it is the first one.
pub proof fn lemma_find_char_at(s: Seq<char>, c: char, k: int)
    requires
        0 <= k <= s.len(),
        k < s.len() ==> s[k] == c,
        forall|j: int| 0 <= j < k ==> s[j] != c,
    ensures
        find_char(s, c) == (if k < s.len() {
            k
        } else {
            -1
        }),
{
    lemma_find_char(s, c);
}

/// `find_seq` is the first position of `p`.
pub proof fn lemma_find_seq(s: Seq<char>, p: Seq<char>)
    ensures
        -1 <= find_seq(s, p) <= s.len(),
        find_seq(s, p) >= 0 ==> starts_with(s.skip(find_seq(s, p)), p),
        forall|j: int|
            0 <= j <= s.len() && (find_seq(s, p) < 0 || j < find_seq(s, p)) ==> !starts_with(
                s.skip(j),
                p,
            ),
    decreases s.len(),
{
    assert(s.skip(0) =~= s);
    if !starts_with(s, p) && s.len() > 0 {
        lemma_find_seq(s.drop_first(), p);
        assert forall|j: int|
            0 <= j <= s.len() && (find_seq(s, p) < 0 || j < find_seq(s, p)) implies !starts_with(
                s.skip(j),
                p,
            ) by {
            if j > 0 {
                assert(s.skip(j) =~= s.drop_first().skip(j - 1));
            }
        }
        if find_seq(s, p) >= 0 {
            assert(s.skip(find_seq(s, p)) =~= s.drop_first().skip(find_seq(s, p) - 1));
        }
    }
}

} // verus!

verus! {

// ---------------------------------------------------------------------
// Executable text operations.
// ---------------------------------------------------------------------

/// `char::is_whitespace`.
pub fn is_whitespace_char(c: char) -> (r: bool)
    ensures
        r == is_whitespace(c),
{
    ('\t' <= c && c <= '\r') || c == ' ' || c == '\u{85}' || c == '\u{a0}' || c == '\u{1680}'
        || ('\u{2000}' <= c && c <= '\u{200a}') || c == '\u{2028}' || c == '\u{2029}' || c
        == '\u{202f}' || c == '\u{205f}' || c == '\u{3000}'
}

/// The bounds, inside `from..to`, of the trimmed text `s[from..to]`.
pub fn trim_range(s: &[char], from: usize, to: usize) -> (r: (usize, usize))
    requires
        from <= to <= s@.len(),
    ensures
        from <= r.0 <= r.1 <= to,
        s@.subrange(r.0 as int, r.1 as int) == trim(s@.subrange(from as int, to as int)),
{
    let mut i = from;
    while i < to && is_whitespace_char(s[i])
        invariant
            from <= i <= to <= s@.len(),
            trim_start(s@.subrange(from as int, to as int)) == trim_start(
                s@.subrange(i as int, to as int),
            ),
        decreases to - i,
    {
        proof {
            let t = s@.subrange(i as int, to as int);
            assert(t.drop_first() =~= s@.subrange(i + 1, to as int));
        }
        i = i + 1;
    }
    proof {
        let t = s@.subrange(i as int, to as int);
        if i < to {
            assert(t[0] == s@[i as int]);
        }
    }
    let mut j = to;
    while j > i && is_whitespace_char(s[j - 1])
        invariant
            from <= i <= j <= to <= s@.len(),
            trim(s@.subrange(from as int, to as int)) == trim_end(s@.subrange(i as int, j as int)),
        decreases j - i,
    {
        proof {
            let u = s@.subrange(i as int, j as int);
            assert(u.last() == s@[j - 1]);
            assert(u.drop_last() =~= s@.subrange(i as int, j - 1));
        }
        j = j - 1;
    }
    proof {
        let u = s@.subrange(i as int, j as int);
        if j > i {
            assert(u.last() == s@[j - 1]);
        }
    }
    (i, j)
}

/// Whether `s[from..to]` starts with `p`.
pub fn starts_with_at(s: &[char], from: usize, to: usize, p: &[char]) -> (r: bool)
    requires
        from <= to <= s@.len(),
    ensures
        r == starts_with(s@.subrange(from as int, to as int), p@),
{
    if p.len() > to - from {
        return false;
    }
    let mut k: usize = 0;
    while k < p.len()
        invariant
            p@.len() <= to - from,
            from <= to <= s@.len(),
            k <= p@.len(),
            forall|j: int| 0 <= j < k ==> s@[from + j] == p@[j],
        decreases p@.len() - k,
    {
        if s[from + k] != p[k] {
            proof {
                let t = s@.subrange(from as int, to as int);
                assert(t.take(p@.len() as int)[k as int] != p@[k as int]);
            }
            return false;
        }
        k = k + 1;
    }
    proof {
        let t = s@.subrange(from as int, to as int);
        assert(t.take(p@.len() as int) =~= p@);
    }
    true
}

/// The first position, inside `from..to`, at which `p` occurs in `s[from..to]`.
pub fn find_seq_at(s: &[char], from: usize, to: usize, p: &[char]) -> (r: Option<usize>)
    requires
        from <= to <= s@.len(),
    ensures
        match r {
            Some(k) => from <= k <= to && find_seq(s@.subrange(from as int, to as int), p@) == k
                - from,
            None => find_seq(s@.subrange(from as int, to as int), p@) < 0,
        },
{
    let mut i = from;
    loop
        invariant
            from <= i <= to <= s@.len(),
            find_seq(s@.subrange(from as int, to as int), p@) == (if find_seq(
                s@.subrange(i as int, to as int),
                p@,
            ) < 0 {
                -1
            } else {
                find_seq(s@.subrange(i as int, to as int), p@) + (i - from)
            }),
        decreases to - i,
    {
        if starts_with_at(s, i, to, p) {
            return Some(i);
        }
        if i == to {
            return None;
        }
        proof {
            let t = s@.subrange(i as int, to as int);
            assert(t.drop_first() =~= s@.subrange(i + 1, to as int));
        }
        i = i + 1;
    }
}

/// The text of each range of `r` in `s`.
pub open spec fn ranges_text(s: Seq<char>, r: Seq<(usize, usize)>) -> Seq<Seq<char>> {
    r.map_values(|p: (usize, usize)| s.subrange(p.0 as int, p.1 as int))
}

/// The ranges of the lines of `s`, as `str::lines` splits them.
pub fn line_ranges(s: &[char]) -> (r: Vec<(usize, usize)>)
    ensures
        forall|k: int| 0 <= k < r@.len() ==> (#[trigger] r@[k]).0 <= r@[k].1 <= s@.len(),
        ranges_text(s@, r@) == lines(s@),
{
    let mut r: Vec<(usize, usize)> = Vec::new();
    let mut start: usize = 0;
    let mut i: usize = 0;
    proof {
        assert(s@.skip(0) =~= s@);
        assert(ranges_text(s@, r@) + lines(s@) =~= lines(s@));
    }
    while i < s.len()
        invariant
            start <= i <= s@.len(),
            forall|k: int| 0 <= k < r@.len() ==> (#[trigger] r@[k]).0 <= r@[k].1 <= s@.len(),
            lines(s@) == ranges_text(s@, r@) + lines(s@.skip(start as int)),
            forall|j: int| start <= j < i ==> s@[j] != '\n',
        decreases s@.len() - i,
    {
        if s[i] == '\n' {
            let end = if i > start && s[i - 1] == '\r' {
                i - 1
            } else {
                i
            };
            proof {
                let t = s@.skip(start as int);
                assert forall|j: int| 0 <= j < i - start implies t[j] != '\n' by {
                    assert(t[j] == s@[start + j]);
                }
                lemma_find_char_at(t, '\n', i - start);
                assert(t.skip(i - start + 1) =~= s@.skip(i + 1));
                let line = t.take(i - start);
                assert(line =~= s@.subrange(start as int, i as int));
                if i > start && s@[i - 1] == '\r' {
                    assert(line.drop_last() =~= s@.subrange(start as int, end as int));
                }
                assert(strip_cr(line) =~= s@.subrange(start as int, end as int));
                assert(ranges_text(s@, r@.push((start, end))) =~= ranges_text(s@, r@).push(
                    s@.subrange(start as int, end as int),
                ));
                assert(lines(t) =~= seq![strip_cr(line)] + lines(s@.skip(i + 1)));
            }
            r.push((start, end));
            start = i + 1;
        }
        i = i + 1;
    }
    proof {
        let t = s@.skip(start as int);
        if t.len() > 0 {
            assert forall|j: int| 0 <= j < t.len() implies t[j] != '\n' by {
                assert(t[j] == s@[start + j]);
            }
            lemma_find_char_at(t, '\n', t.len() as int);
        }
    }
    if start < s.len() {
        proof {
            assert(s@.subrange(start as int, s@.len() as int) =~= s@.skip(start as int));
            assert(ranges_text(s@, r@.push((start, s.len()))) =~= ranges_text(s@, r@).push(
                s@.skip(start as int),
            ));
        }
        r.push((start, s.len()));
    } else {
        assert(ranges_text(s@, r@) + lines(s@.skip(start as int)) =~= ranges_text(s@, r@));
    }
    r
}

/// Appends `s[from..to]` to `out`.
pub fn push_range(out: &mut Vec<char>, s: &[char], from: usize, to: usize)
    requires
        from <= to <= s@.len(),
    ensures
        final(out)@ == old(out)@ + s@.subrange(from as int, to as int),
{
    let mut i = from;
    while i < to
        invariant
            from <= i <= to <= s@.len(),
            out@ == old(out)@ + s@.subrange(from as int, i as int),
        decreases to - i,
    {
        out.push(s[i]);
        i = i + 1;
        assert(s@.subrange(from as int, i as int) =~= s@.subrange(from as int, i - 1).push(
            s@[i - 1],
        ));
    }
}

/// Appends all of `s` to `out`.
pub fn push_all(out: &mut Vec<char>, s: &[char])
    ensures
        final(out)@ == old(out)@ + s@,
{
    push_range(out, s, 0, s.len());
    assert(s@.subrange(0, s@.len() as int) =~= s@);
}

/// Appends the characters of `s` to `out`.
pub fn push_str(out: &mut Vec<char>, s: &str)
    ensures
        final(out)@ == old(out)@ + s@,
{
    let v = chars_of(s);
    push_all(out, &v);
}

/// Appends `s[from..to]` to `out`, with every `c` replaced by `r`.
pub fn push_replaced(out: &mut Vec<char>, s: &[char], from: usize, to: usize, c: char, r: &[char])
    requires
        from <= to <= s@.len(),
    ensures
        final(out)@ == old(out)@ + replace_char(s@.subrange(from as int, to as int), c, r@),
{
    let mut i = from;
    while i < to
        invariant
            from <= i <= to <= s@.len(),
            out@ == old(out)@ + replace_char(s@.subrange(from as int, i as int), c, r@),
        decreases to - i,
    {
        let ghost before = out@;
        if s[i] == c {
            push_all(out, r);
        } else {
            out.push(s[i]);
        }
        i = i + 1;
        proof {
            let t = s@.subrange(from as int, i as int);
            assert(t.drop_last() =~= s@.subrange(from as int, i - 1));
            assert(t.last() == s@[i - 1]);
            assert(out@ =~= old(out)@ + replace_char(t, c, r@));
        }
    }
}

/// Appends the decimal notation of `n` to `out`.
pub fn push_decimal(out: &mut Vec<char>, n: u128)
    ensures
        final(out)@ == old(out)@ + decimal(n as nat),
    decreases n,
{
    if n >= 10 {
        push_decimal(out, n / 10);
    }
    let d = n % 10;
    let ch = if d == 0 {
        '0'
    } else if d == 1 {
        '1'
    } else if d == 2 {
        '2'
    } else if d == 3 {
        '3'
    } else if d == 4 {
        '4'
    } else if d == 5 {
        '5'
    } else if d == 6 {
        '6'
    } else if d == 7 {
        '7'
    } else if d == 8 {
        '8'
    } else {
        '9'
    };
    out.push(ch);
    proof {
        if n < 10 {
            assert(n % 10 == n);
        }
    }
    assert(out@ =~= old(out)@ + decimal(n as nat));
}

/// Appends the decimal notation of the signed `n` to `out`.
pub fn push_signed_decimal(out: &mut Vec<char>, n: i64)
    ensures
        final(out)@ == old(out)@ + signed_decimal(n as int),
{
    if n < 0 {
        out.push('-');
        let m: u128 = (0i128 - (n as i128)) as u128;
        push_decimal(out, m);
        assert(out@ =~= old(out)@ + signed_decimal(n as int));
    } else {
        push_decimal(out, n as u128);
    }
}

} // verus!

verus! {

/// ASCII lowercasing of one character; other characters stay as they are.
pub open spec fn ascii_lower(c: char) -> char {
    if 'A' <= c && c <= 'Z' {
        ((c as u32) + 32) as char
    } else {
        c
    }
}

/// ASCII lowercasing of every character of `s`.
pub open spec fn ascii_lowercase(s: Seq<char>) -> Seq<char> {
    s.map_values(|c: char| ascii_lower(c))
}

/// Executable `ascii_lower`.
pub fn ascii_lower_char(c: char) -> (r: char)
    ensures
        r == ascii_lower(c),
{
    if 'A' <= c && c <= 'Z' {
        let b: u8 = (c as u32) as u8;
        ((b + 32) as char)
    } else {
        c
    }
}

/// Whether the ASCII-lowercased `s[from..to]` starts with `p`.
pub fn starts_with_lower_at(s: &[char], from: usize, to: usize, p: &[char]) -> (r: bool)
    requires
        from <= to <= s@.len(),
    ensures
        r == starts_with(ascii_lowercase(s@.subrange(from as int, to as int)), p@),
{
    let ghost t = ascii_lowercase(s@.subrange(from as int, to as int));
    if p.len() > to - from {
        return false;
    }
    let mut k: usize = 0;
    while k < p.len()
        invariant
            p@.len() <= to - from,
            from <= to <= s@.len(),
            k <= p@.len(),
            t == ascii_lowercase(s@.subrange(from as int, to as int)),
            forall|j: int| 0 <= j < k ==> t[j] == p@[j],
        decreases p@.len() - k,
    {
        let lc = ascii_lower_char(s[from + k]);
        assert(t[k as int] == ascii_lower(s@[from + k]));
        if lc != p[k] {
            assert(t.take(p@.len() as int)[k as int] != p@[k as int]);
            return false;
        }
        k = k + 1;
    }
    assert(t.take(p@.len() as int) =~= p@);
    true
}

/// Whether two texts are equal.
pub fn str_eq(a: &str, b: &str) -> (r: bool)
    ensures
        r == (a@ == b@),
{
    let x = chars_of(a);
    let y = chars_of(b);
    slice_eq(&x, &y)
}

/// Whether two character sequences are equal.
pub fn slice_eq(x: &[char], y: &[char]) -> (r: bool)
    ensures
        r == (x@ == y@),
{
    if x.len() != y.len() {
        return false;
    }
    let mut k: usize = 0;
    while k < x.len()
        invariant
            x@.len() == y@.len(),
            k <= x@.len(),
            forall|j: int| 0 <= j < k ==> x@[j] == y@[j],
        decreases x@.len() - k,
    {
        if x[k] != y[k] {
            return false;
        }
        k = k + 1;
    }
    assert(x@ =~= y@);
    true
}

} // verus!

verus! {

/// The number of bytes of the UTF-8 encoding of `c`.
pub open spec fn utf8_width(c: char) -> nat {
    if (c as u32) < 0x80 {
        1
    } else if (c as u32) < 0x800 {
        2
    } else if (c as u32) < 0x10000 {
        3
    } else {
        4
    }
}

/// The number of bytes of the UTF-8 encoding of `s` (what `str::len` counts).
pub open spec fn utf8_len(s: Seq<char>) -> nat
    decreases s.len(),
{
    if s.len() == 0 {
        0
    } else {
        utf8_len(s.drop_last()) + utf8_width(s.last())
    }
}

/// `utf8_len` adds up over concatenation.
pub proof fn lemma_utf8_len_add(x: Seq<char>, y: Seq<char>)
    ensures
        utf8_len(x + y) == utf8_len(x) + utf8_len(y),
    decreases y.len(),
{
    if y.len() == 0 {
        assert(x + y =~= x);
    } else {
        lemma_utf8_len_add(x, y.drop_last());
        assert((x + y).drop_last() =~= x + y.drop_last());
    }
}

/// A part of a text takes no more bytes than the whole.
pub proof fn lemma_utf8_len_subrange(s: Seq<char>, a: int, b: int)
    requires
        0 <= a <= b <= s.len(),
    ensures
        utf8_len(s.subrange(a, b)) <= utf8_len(s),
{
    lemma_utf8_len_add(s.take(a), s.subrange(a, b));
    lemma_utf8_len_add(s.take(a) + s.subrange(a, b), s.skip(b));
    assert(s.take(a) + s.subrange(a, b) + s.skip(b) =~= s);
}

/// Longer prefixes take strictly more bytes.
pub proof fn lemma_utf8_len_prefix_strict(s: Seq<char>, i: int, j: int)
    requires
        0 <= i < j <= s.len(),
    ensures
        utf8_len(s.take(i)) < utf8_len(s.take(j)),
    decreases j - i,
{
    assert(s.take(j).drop_last() =~= s.take(j - 1));
    if i < j - 1 {
        lemma_utf8_len_prefix_strict(s, i, j - 1);
    }
}

/// Executable `utf8_width`.
pub fn utf8_width_of(c: char) -> (r: usize)
    ensures
        r == utf8_width(c),
{
    let u = c as u32;
    if u < 0x80 {
        1
    } else if u < 0x800 {
        2
    } else if u < 0x10000 {
        3
    } else {
        4
    }
}

/// The number of UTF-8 bytes of `s[from..to]`.
pub fn utf8_len_of(s: &[char], from: usize, to: usize) -> (r: usize)
    requires
        from <= to <= s@.len(),
        utf8_len(s@) <= usize::MAX,
    ensures
        r == utf8_len(s@.subrange(from as int, to as int)),
{
    let mut n: usize = 0;
    let mut i = from;
    while i < to
        invariant
            from <= i <= to <= s@.len(),
            utf8_len(s@) <= usize::MAX,
            n == utf8_len(s@.subrange(from as int, i as int)),
        decreases to - i,
    {
        proof {
            let t = s@.subrange(from as int, i + 1);
            assert(t.drop_last() =~= s@.subrange(from as int, i as int));
            lemma_utf8_len_subrange(s@, from as int, i + 1);
        }
        n = n + utf8_width_of(s[i]);
        i = i + 1;
    }
    n
}

} // verus!

verus! {

/// The pieces of `s` cut at `c`, at most `n` of them, the last holding the
/// rest (`str::splitn`).
pub open spec fn split_n(s: Seq<char>, n: nat, c: char) -> Seq<Seq<char>>
    decreases n,
{
    if n == 0 {
        seq![]
    } else if n == 1 {
        seq![s]
    } else {
        let k = find_char(s, c);
        if k < 0 {
            seq![s]
        } else {
            seq![s.take(k)] + split_n(s.skip(k + 1), (n - 1) as nat, c)
        }
    }
}

/// The ranges of the pieces of `s[from..to]` cut at `c`, at most `n` of them.
pub fn split_n_ranges(s: &[char], from: usize, to: usize, n: usize, c: char) -> (r: Vec<
    (usize, usize),
>)
    requires
        from <= to <= s@.len(),
    ensures
        forall|k: int| 0 <= k < r@.len() ==> from <= (#[trigger] r@[k]).0 <= r@[k].1 <= to,
        ranges_text(s@, r@) == split_n(s@.subrange(from as int, to as int), n as nat, c),
{
    let mut r: Vec<(usize, usize)> = Vec::new();
    if n == 0 {
        assert(ranges_text(s@, r@) =~= seq![]);
        return r;
    }
    let mut start = from;
    let mut i = from;
    let mut left = n;
    proof {
        assert(ranges_text(s@, r@) + split_n(s@.subrange(from as int, to as int), n as nat, c)
            =~= split_n(s@.subrange(from as int, to as int), n as nat, c));
    }
    while i < to && left > 1
        invariant
            from <= start <= i <= to <= s@.len(),
            1 <= left <= n,
            forall|k: int| 0 <= k < r@.len() ==> from <= (#[trigger] r@[k]).0 <= r@[k].1 <= to,
            split_n(s@.subrange(from as int, to as int), n as nat, c) == ranges_text(s@, r@)
                + split_n(s@.subrange(start as int, to as int), left as nat, c),
            forall|j: int| start <= j < i ==> s@[j] != c,
        decreases to - i,
    {
        if s[i] == c {
            proof {
                let t = s@.subrange(start as int, to as int);
                assert forall|j: int| 0 <= j < i - start implies t[j] != c by {
                    assert(t[j] == s@[start + j]);
                }
                lemma_find_char_at(t, c, i - start);
                assert(t.skip(i - start + 1) =~= s@.subrange(i + 1, to as int));
                assert(t.take(i - start) =~= s@.subrange(start as int, i as int));
                assert(ranges_text(s@, r@.push((start, i))) =~= ranges_text(s@, r@).push(
                    s@.subrange(start as int, i as int),
                ));
                assert(split_n(t, left as nat, c) =~= seq![s@.subrange(start as int, i as int)]
                    + split_n(s@.subrange(i + 1, to as int), (left - 1) as nat, c));
            }
            r.push((start, i));
            start = i + 1;
            left = left - 1;
        }
        i = i + 1;
    }
    proof {
        let t = s@.subrange(start as int, to as int);
        if left > 1 {
            assert forall|j: int| 0 <= j < t.len() implies t[j] != c by {
                assert(t[j] == s@[start + j]);
            }
            lemma_find_char_at(t, c, t.len() as int);
        }
        assert(split_n(t, left as nat, c) =~= seq![t]);
        assert(ranges_text(s@, r@.push((start, to))) =~= ranges_text(s@, r@).push(t));
    }
    r.push((start, to));
    r
}

/// A `String` holding the characters of `s[from..to]`.
pub fn string_of_range(s: &[char], from: usize, to: usize) -> (r: String)
    requires
        from <= to <= s@.len(),
    ensures
        r@ == s@.subrange(from as int, to as int),
{
    let mut out = String::new();
    let mut i = from;
    while i < to
        invariant
            from <= i <= to <= s@.len(),
            out@ == s@.subrange(from as int, i as int),
        decreases to - i,
    {
        out.push(s[i]);
        i = i + 1;
        assert(s@.subrange(from as int, i as int) =~= s@.subrange(from as int, i - 1).push(
            s@[i - 1],
        ));
    }
    out
}

} // verus!

verus! {

/// No character takes more than four bytes.
pub proof fn lemma_utf8_len_bound(s: Seq<char>)
    ensures
        utf8_len(s) <= 4 * s.len(),
    decreases s.len(),
{
    if s.len() > 0 {
        lemma_utf8_len_bound(s.drop_last());
    }
}

/// The number of UTF-8 bytes of `v` (as `str::len` counts them).
pub fn utf8_len_wide(v: &[char]) -> (r: u128)
    ensures
        r == utf8_len(v@),
{
    let mut n: u128 = 0;
    let mut i: usize = 0;
    while i < v.len()
        invariant
            i <= v@.len(),
            n == utf8_len(v@.take(i as int)),
        decreases v@.len() - i,
    {
        proof {
            assert(v@.take(i + 1).drop_last() =~= v@.take(i as int));
            lemma_utf8_len_bound(v@.take(i as int));
        }
        n = n + (utf8_width_of(v[i]) as u128);
        i = i + 1;
    }
    assert(v@.take(v@.len() as int) =~= v@);
    n
}

} // verus!

verus! {

/// The texts of a list of strings.
pub open spec fn string_views(v: Seq<String>) -> Seq<Seq<char>> {
    v.map_values(|s: String| s@)
}

/// `join` of a longer list adds the separator and the new piece.
pub proof fn lemma_join_push(list: Seq<Seq<char>>, item: Seq<char>, sep: Seq<char>)
    requires
        list.len() > 0,
    ensures
        join(list.push(item), sep) == join(list, sep) + sep + item,
{
    assert(list.push(item).drop_last() =~= list);
}

/// Appends the texts of `items[from..to]` joined with `sep` to `out`.
pub fn push_joined(out: &mut Vec<char>, items: &[String], from: usize, to: usize, sep: &str)
    requires
        from <= to <= items@.len(),
    ensures
        final(out)@ == old(out)@ + join(string_views(items@.subrange(from as int, to as int)), sep@),
{
    let mut i = from;
    let ghost base = out@;
    assert(string_views(items@.subrange(from as int, from as int)) =~= Seq::<Seq<char>>::empty());
    while i < to
        invariant
            from <= i <= to <= items@.len(),
            base == old(out)@,
            out@ == base + join(string_views(items@.subrange(from as int, i as int)), sep@),
        decreases to - i,
    {
        let ghost prev = string_views(items@.subrange(from as int, i as int));
        proof {
            assert(string_views(items@.subrange(from as int, i + 1)) =~= prev.push(items@[i as int]@));
        }
        if i > from {
            proof {
                lemma_join_push(prev, items@[i as int]@, sep@);
            }
            push_str(out, sep);
        } else {
            assert(prev.push(items@[i as int]@).len() == 1);
        }
        push_str(out, items[i].as_str());
        i = i + 1;
        assert(out@ =~= base + join(string_views(items@.subrange(from as int, i as int)), sep@));
    }
}

} // verus!

verus! {

/// Reads back a backslash-escaped text: a backslash and the character after
/// it stand for that character.
pub open spec fn unescape(t: Seq<char>) -> Seq<char>
    decreases t.len(),
{
    if t.len() == 0 {
        seq![]
    } else if t[0] == '\\' && t.len() >= 2 {
        seq![t[1]] + unescape(t.skip(2))
    } else {
        seq![t[0]] + unescape(t.skip(1))
    }
}

/// Replacing characters works piece by piece.
pub proof fn lemma_replace_char_concat(a: Seq<char>, b: Seq<char>, c: char, r: Seq<char>)
    ensures
        replace_char(a + b, c, r) == replace_char(a, c, r) + replace_char(b, c, r),
    decreases b.len(),
{
    if b.len() == 0 {
        assert(a + b =~= a);
        assert(replace_char(a, c, r) + replace_char(b, c, r) =~= replace_char(a, c, r));
    } else {
        lemma_replace_char_concat(a, b.drop_last(), c, r);
        assert((a + b).drop_last() =~= a + b.drop_last());
        assert((a + b).last() == b.last());
    }
}

/// Replacing characters in a one-character text.
pub proof fn lemma_replace_char_single(x: char, c: char, r: Seq<char>)
    ensures
        replace_char(seq![x], c, r) == (if x == c {
            r
        } else {
            seq![x]
        }),
{
    assert(seq![x].drop_last() =~= Seq::<char>::empty());
    assert(replace_char(Seq::<char>::empty(), c, r) =~= Seq::<char>::empty());
    if x == c {
        assert(Seq::<char>::empty() + r =~= r);
    } else {
        assert(Seq::<char>::empty() + seq![x] =~= seq![x]);
    }
}

/// Escaping backslashes and then the quote `q` (by a backslash before each)
/// can be read back: unescaping gives the text that was escaped.
pub proof fn lemma_unescape_escaped(s: Seq<char>, q: char)
    requires
        q != '\\',
    ensures
        unescape(replace_char(replace_char(s, '\\', seq!['\\', '\\']), q, seq!['\\', q])) == s,
    decreases s.len(),
{
    let bs = seq!['\\', '\\'];
    let qs = seq!['\\', q];
    if s.len() == 0 {
        assert(replace_char(replace_char(s, '\\', bs), q, qs) =~= Seq::<char>::empty());
        assert(unescape(Seq::<char>::empty()) =~= s);
    } else {
        let x = s[0];
        let rest = s.drop_first();
        assert(s =~= seq![x] + rest);
        lemma_replace_char_concat(seq![x], rest, '\\', bs);
        lemma_replace_char_single(x, '\\', bs);
        let inner1 = replace_char(seq![x], '\\', bs);
        lemma_replace_char_concat(inner1, replace_char(rest, '\\', bs), q, qs);
        let e1 = replace_char(inner1, q, qs);
        let erest = replace_char(replace_char(rest, '\\', bs), q, qs);
        lemma_unescape_escaped(rest, q);
        if x == '\\' {
            lemma_replace_char_concat(seq!['\\'], seq!['\\'], q, qs);
            lemma_replace_char_single('\\', q, qs);
            assert(seq!['\\'] + seq!['\\'] =~= bs);
            assert(e1 =~= bs);
            let t = e1 + erest;
            assert(t.skip(2) =~= erest);
            assert(unescape(t) =~= s);
        } else if x == q {
            lemma_replace_char_single(x, q, qs);
            assert(e1 =~= qs);
            let t = e1 + erest;
            assert(t.skip(2) =~= erest);
            assert(unescape(t) =~= s);
        } else {
            lemma_replace_char_single(x, q, qs);
            assert(e1 =~= seq![x]);
            let t = e1 + erest;
            assert(t.skip(1) =~= erest);
            assert(unescape(t) =~= s);
        }
    }
}

} // verus!

verus! {

/// Replacing a character that does not occur changes nothing.
pub proof fn lemma_replace_char_absent(s: Seq<char>, c: char, r: Seq<char>)
    requires
        !s.contains(c),
    ensures
        replace_char(s, c, r) == s,
    decreases s.len(),
{
    if s.len() > 0 {
        assert(!s.drop_last().contains(c)) by {
            if s.drop_last().contains(c) {
                let i = choose|i: int| 0 <= i < s.drop_last().len() && s.drop_last()[i] == c;
                assert(s[i] == c);
            }
        }
        lemma_replace_char_absent(s.drop_last(), c, r);
        assert(s.last() == s[s.len() - 1]);
        assert(s.drop_last().push(s.last()) =~= s);
    }
}

} // verus!

verus! {

/// A text that starts with `p` at position `j` contains `p`.
pub proof fn lemma_contains_at(s: Seq<char>, p: Seq<char>, j: int)
    requires
        0 <= j <= s.len(),
        starts_with(s.skip(j), p),
    ensures
        contains_seq(s, p),
{
    lemma_find_seq(s, p);
}

/// A joined list starts with its first piece.
pub proof fn lemma_join_starts_with_first(list: Seq<Seq<char>>, sep: Seq<char>)
    requires
        list.len() > 0,
    ensures
        starts_with(join(list, sep), list[0]),
    decreases list.len(),
{
    if list.len() == 1 {
        assert(join(list, sep).take(list[0].len() as int) =~= list[0]);
    } else {
        lemma_join_starts_with_first(list.drop_last(), sep);
        let j = join(list.drop_last(), sep);
        assert(join(list, sep) == j + sep + list.last());
        assert((j + sep + list.last()).take(list[0].len() as int) =~= j.take(list[0].len() as int));
    }
}

} // verus!

verus! {

/// `s` escaped for a string literal closed by the quote `q`: every
/// backslash doubled, then a backslash put before every `q`.
pub open spec fn escape_for(s: Seq<char>, q: char) -> Seq<char> {
    replace_char(replace_char(s, '\\', seq!['\\', '\\']), q, seq!['\\', q])
}

/// Reads a string literal closed by the quote `q`, its opening quote already
/// read: a backslash and the character after it stand for that character, and
/// an unescaped `q` ends the literal. Gives the literal's text and what
/// follows its closing quote, or `None` when the text ends first.
pub open spec fn read_quoted(t: Seq<char>, q: char) -> Option<(Seq<char>, Seq<char>)>
    decreases t.len(),
{
    if t.len() == 0 {
        None
    } else if t[0] == q {
        Some((seq![], t.skip(1)))
    } else if t[0] == '\\' {
        if t.len() >= 2 {
            match read_quoted(t.skip(2), q) {
                Some(p) => Some((seq![t[1]] + p.0, p.1)),
                None => None,
            }
        } else {
            None
        }
    } else {
        match read_quoted(t.skip(1), q) {
            Some(p) => Some((seq![t[0]] + p.0, p.1)),
            None => None,
        }
    }
}

/// Reads `n` quoted values, each written as `q`, the literal, `q` and `, `
/// (the last one too), and gives their texts and what follows them.
pub open spec fn read_row(t: Seq<char>, n: nat, q: char) -> Option<(Seq<Seq<char>>, Seq<char>)>
    decreases n,
{
    if n == 0 {
        Some((seq![], t))
    } else if t.len() > 0 && t[0] == q {
        match read_quoted(t.skip(1), q) {
            Some(p) => if starts_with(p.1, seq![',', ' ']) {
                match read_row(p.1.skip(2), (n - 1) as nat, q) {
                    Some(r) => Some((seq![p.0] + r.0, r.1)),
                    None => None,
                }
            } else {
                None
            },
            None => None,
        }
    } else {
        None
    }
}

/// An escaped text followed by the closing quote reads back as itself, and
/// the literal ends exactly at that quote.
pub proof fn lemma_read_quoted_escaped(s: Seq<char>, q: char, rest: Seq<char>)
    requires
        q != '\\',
    ensures
        read_quoted(escape_for(s, q) + seq![q] + rest, q) == Some((s, rest)),
    decreases s.len(),
{
    let bs = seq!['\\', '\\'];
    let qs = seq!['\\', q];
    if s.len() == 0 {
        assert(escape_for(s, q) =~= Seq::<char>::empty());
        let t = escape_for(s, q) + seq![q] + rest;
        assert(t.skip(1) =~= rest);
        assert(s =~= Seq::<char>::empty());
    } else {
        let x = s[0];
        let rs = s.drop_first();
        assert(s =~= seq![x] + rs);
        lemma_replace_char_concat(seq![x], rs, '\\', bs);
        lemma_replace_char_single(x, '\\', bs);
        let inner1 = replace_char(seq![x], '\\', bs);
        lemma_replace_char_concat(inner1, replace_char(rs, '\\', bs), q, qs);
        let e1 = replace_char(inner1, q, qs);
        let erest = escape_for(rs, q);
        assert(escape_for(s, q) == e1 + erest);
        lemma_read_quoted_escaped(rs, q, rest);
        let t = e1 + erest + seq![q] + rest;
        if x == '\\' {
            lemma_replace_char_concat(seq!['\\'], seq!['\\'], q, qs);
            lemma_replace_char_single('\\', q, qs);
            assert(seq!['\\'] + seq!['\\'] =~= bs);
            assert(e1 =~= bs);
            assert(t.skip(2) =~= erest + seq![q] + rest);
            assert(seq![t[1]] + rs =~= s);
        } else if x == q {
            lemma_replace_char_single(x, q, qs);
            assert(e1 =~= qs);
            assert(t.skip(2) =~= erest + seq![q] + rest);
            assert(seq![t[1]] + rs =~= s);
        } else {
            lemma_replace_char_single(x, q, qs);
            assert(e1 =~= seq![x]);
            assert(t.skip(1) =~= erest + seq![q] + rest);
            assert(seq![t[0]] + rs =~= s);
        }
    }
}

/// Reading a row: a value written escaped between quotes and followed by
/// `, ` comes back first, and the rest of the row is read after it.
pub proof fn lemma_read_row_field(s: Seq<char>, more: Seq<char>, n: nat, q: char)
    requires
        q != '\\',
    ensures
        read_row(seq![q] + escape_for(s, q) + seq![q, ',', ' '] + more, n + 1, q) == (match read_row(
            more,
            n,
            q,
        ) {
            Some(r) => Some((seq![s] + r.0, r.1)),
            None => None,
        }),
{
    let t = seq![q] + escape_for(s, q) + seq![q, ',', ' '] + more;
    let after = seq![',', ' '] + more;
    assert(t.skip(1) =~= escape_for(s, q) + seq![q] + after);
    lemma_read_quoted_escaped(s, q, after);
    assert(after.take(2) =~= seq![',', ' ']);
    assert(after.skip(2) =~= more);
}

/// Text without backslashes and without the quote `q` is its own escape.
pub proof fn lemma_escape_for_plain(s: Seq<char>, q: char)
    requires
        !s.contains('\\'),
        !s.contains(q),
    ensures
        escape_for(s, q) == s,
{
    lemma_replace_char_absent(s, '\\', seq!['\\', '\\']);
    lemma_replace_char_absent(s, q, seq!['\\', q]);
}

} // verus!

verus! {

/// ASCII uppercasing of one character; other characters stay as they are.
pub open spec fn ascii_upper(c: char) -> char {
    if 'a' <= c && c <= 'z' {
        ((c as u32) - 32) as char
    } else {
        c
    }
}

/// ASCII uppercasing of every character of `s` (`str::to_ascii_uppercase`).
pub open spec fn ascii_uppercase(s: Seq<char>) -> Seq<char> {
    s.map_values(|c: char| ascii_upper(c))
}

/// Lowercasing after uppercasing is lowercasing, and neither changes
/// whether a character is whitespace.
proof fn lemma_ascii_upper_char(c: char)
    ensures
        ascii_lower(ascii_upper(c)) == ascii_lower(c),
        is_whitespace(ascii_upper(c)) == is_whitespace(c),
{
    if 'a' <= c && c <= 'z' {
        let u = ((c as u32) - 32) as char;
        assert(u as u32 == (c as u32) - 32);
        assert('A' <= u && u <= 'Z');
        assert(((u as u32) + 32) as char == c);
    }
}

/// ASCII lowercasing ignores a prior ASCII uppercasing.
pub proof fn lemma_lowercase_of_uppercase(s: Seq<char>)
    ensures
        ascii_lowercase(ascii_uppercase(s)) == ascii_lowercase(s),
{
    assert forall|i: int| 0 <= i < s.len() implies ascii_lowercase(ascii_uppercase(s))[i]
        == ascii_lowercase(s)[i] by {
        lemma_ascii_upper_char(s[i]);
    }
    assert(ascii_lowercase(ascii_uppercase(s)) =~= ascii_lowercase(s));
}

/// Trimming commutes with ASCII uppercasing, which keeps whitespace as it is.
pub proof fn lemma_trim_uppercase(s: Seq<char>)
    ensures
        trim(ascii_uppercase(s)) == ascii_uppercase(trim(s)),
{
    lemma_trim_start_uppercase(s);
    lemma_trim_end_uppercase(trim_start(s));
}

proof fn lemma_trim_start_uppercase(s: Seq<char>)
    ensures
        trim_start(ascii_uppercase(s)) == ascii_uppercase(trim_start(s)),
    decreases s.len(),
{
    let u = ascii_uppercase(s);
    if s.len() > 0 {
        lemma_ascii_upper_char(s[0]);
        assert(u[0] == ascii_upper(s[0]));
        if is_whitespace(s[0]) {
            assert(u.drop_first() =~= ascii_uppercase(s.drop_first()));
            lemma_trim_start_uppercase(s.drop_first());
        }
    }
}

proof fn lemma_trim_end_uppercase(s: Seq<char>)
    ensures
        trim_end(ascii_uppercase(s)) == ascii_uppercase(trim_end(s)),
    decreases s.len(),
{
    let u = ascii_uppercase(s);
    if s.len() > 0 {
        lemma_ascii_upper_char(s.last());
        assert(u.last() == ascii_upper(s.last()));
        if is_whitespace(s.last()) {
            assert(u.drop_last() =~= ascii_uppercase(s.drop_last()));
            lemma_trim_end_uppercase(s.drop_last());
        }
    }
}

/// Leading whitespace does not change what trimming gives.
pub proof fn lemma_trim_leading_whitespace(lead: Seq<char>, s: Seq<char>)
    requires
        forall|i: int| 0 <= i < lead.len() ==> is_whitespace(#[trigger] lead[i]),
    ensures
        trim(lead + s) == trim(s),
    decreases lead.len(),
{
    if lead.len() > 0 {
        assert((lead + s)[0] == lead[0]);
        assert((lead + s).drop_first() =~= lead.drop_first() + s);
        assert forall|i: int| 0 <= i < lead.drop_first().len() implies is_whitespace(
            #[trigger] lead.drop_first()[i],
        ) by {
            assert(lead.drop_first()[i] == lead[i + 1]);
        }
        lemma_trim_leading_whitespace(lead.drop_first(), s);
    } else {
        assert(lead + s =~= s);
    }
}

} // verus!

verus! {

/// A whitespace character at the end does not change what trimming keeps.
pub proof fn lemma_trim_whitespace_end(y: Seq<char>, w: char)
    requires
        is_whitespace(w),
    ensures
        trim(y.push(w)) == trim(y),
    decreases y.len(),
{
    let z = y.push(w);
    if y.len() == 0 {
        assert(z.drop_first() =~= Seq::<char>::empty());
        assert(z[0] == w);
        assert(trim_start(z) == trim_start(z.drop_first()));
        assert(trim_start(y) == y);
        assert(trim(z) == trim_end(Seq::<char>::empty()));
    } else if is_whitespace(y[0]) {
        assert(z[0] == y[0]);
        assert(z.drop_first() =~= y.drop_first().push(w));
        lemma_trim_whitespace_end(y.drop_first(), w);
    } else {
        assert(z[0] == y[0]);
        assert(trim_start(z) == z);
        assert(trim_start(y) == y);
        assert(z.last() == w);
        assert(z.drop_last() =~= y);
    }
}

/// A line read with or without its closing carriage return trims the same.
pub proof fn lemma_trim_strip_cr(line: Seq<char>)
    ensures
        trim(strip_cr(line)) == trim(line),
{
    if line.len() > 0 && line.last() == '\r' {
        assert(line.drop_last().push('\r') =~= line);
        lemma_trim_whitespace_end(line.drop_last(), '\r');
    }
}

/// The lines of a text with a newline inside: up to the first newline of
/// `a`, or, when `a` has none, `a` itself without a closing carriage return.
pub proof fn lemma_lines_split(a: Seq<char>, b: Seq<char>)
    ensures
        ({
            let s = a + seq!['\n'] + b;
            let k = find_char(a, '\n');
            &&& k < 0 ==> lines(s) == seq![strip_cr(a)] + lines(b)
            &&& k >= 0 ==> lines(s) == seq![strip_cr(a.take(k))] + lines(
                a.skip(k + 1) + seq!['\n'] + b,
            )
            &&& k >= 0 ==> lines(a) == seq![strip_cr(a.take(k))] + lines(a.skip(k + 1))
            &&& k < 0 && a.len() > 0 ==> lines(a) == seq![a]
        }),
{
    let s = a + seq!['\n'] + b;
    let k = find_char(a, '\n');
    lemma_find_char(a, '\n');
    if k < 0 {
        lemma_find_char_at(s, '\n', a.len() as int);
        assert(s.take(a.len() as int) =~= a);
        assert(s.skip(a.len() as int + 1) =~= b);
    } else {
        lemma_find_char_at(s, '\n', k);
        assert(s.take(k) =~= a.take(k));
        assert(s.skip(k + 1) =~= a.skip(k + 1) + seq!['\n'] + b);
    }
}

} // verus!

verus! {

/// Every character of `s` is whitespace.
pub open spec fn all_whitespace(s: Seq<char>) -> bool {
    forall|i: int| 0 <= i < s.len() ==> is_whitespace(#[trigger] s[i])
}

/// `trim_start` drops a whitespace prefix: what it keeps is a suffix, and
/// it starts with a character that is not whitespace.
pub proof fn lemma_trim_start_shape(x: Seq<char>)
    ensures
        trim_start(x).len() <= x.len(),
        trim_start(x) == x.skip(x.len() - trim_start(x).len()),
        all_whitespace(x.take(x.len() - trim_start(x).len())),
        trim_start(x).len() > 0 ==> !is_whitespace(trim_start(x)[0]),
    decreases x.len(),
{
    if x.len() > 0 && is_whitespace(x[0]) {
        lemma_trim_start_shape(x.drop_first());
        let t = trim_start(x);
        let d = x.len() - t.len();
        assert(x.drop_first().skip(d - 1) =~= x.skip(d));
        assert forall|i: int| 0 <= i < d implies is_whitespace(#[trigger] x.take(d)[i]) by {
            if i > 0 {
                assert(x.take(d)[i] == x.drop_first().take(d - 1)[i - 1]);
            }
        }
    } else {
        assert(x.skip(0) =~= x);
    }
}

/// `trim_end` drops a whitespace suffix: what it keeps is a prefix, and it
/// ends with a character that is not whitespace.
pub proof fn lemma_trim_end_shape(x: Seq<char>)
    ensures
        trim_end(x).len() <= x.len(),
        trim_end(x) == x.take(trim_end(x).len() as int),
        all_whitespace(x.skip(trim_end(x).len() as int)),
        trim_end(x).len() > 0 ==> !is_whitespace(trim_end(x).last()),
    decreases x.len(),
{
    if x.len() > 0 && is_whitespace(x.last()) {
        lemma_trim_end_shape(x.drop_last());
        let t = trim_end(x);
        assert(x.drop_last().take(t.len() as int) =~= x.take(t.len() as int));
        assert forall|i: int| 0 <= i < x.len() - t.len() implies is_whitespace(
            #[trigger] x.skip(t.len() as int)[i],
        ) by {
            if i < x.len() - t.len() - 1 {
                assert(x.skip(t.len() as int)[i] == x.drop_last().skip(t.len() as int)[i]);
            } else {
                assert(x.skip(t.len() as int)[i] == x.last());
            }
        }
    } else {
        assert(x.take(x.len() as int) =~= x);
        assert(x.skip(x.len() as int) =~= Seq::<char>::empty());
    }
}

/// A whitespace prefix does not change what `trim_start` keeps.
pub proof fn lemma_trim_start_after_whitespace(w: Seq<char>, y: Seq<char>)
    requires
        all_whitespace(w),
    ensures
        trim_start(w + y) == trim_start(y),
    decreases w.len(),
{
    if w.len() > 0 {
        assert((w + y)[0] == w[0]);
        assert((w + y).drop_first() =~= w.drop_first() + y);
        assert(all_whitespace(w.drop_first())) by {
            assert forall|i: int| 0 <= i < w.drop_first().len() implies is_whitespace(
                #[trigger] w.drop_first()[i],
            ) by {
                assert(w.drop_first()[i] == w[i + 1]);
            }
        }
        lemma_trim_start_after_whitespace(w.drop_first(), y);
    } else {
        assert(w + y =~= y);
    }
}

/// When `a` holds a character that is not whitespace, `trim_start` stops
/// inside `a`.
pub proof fn lemma_trim_start_append(a: Seq<char>, y: Seq<char>)
    requires
        trim_start(a).len() > 0,
    ensures
        trim_start(a + y) == trim_start(a) + y,
    decreases a.len(),
{
    assert((a + y)[0] == a[0]);
    if is_whitespace(a[0]) {
        assert((a + y).drop_first() =~= a.drop_first() + y);
        lemma_trim_start_append(a.drop_first(), y);
    }
}

/// A whitespace suffix does not change what `trim_end` keeps.
pub proof fn lemma_trim_end_before_whitespace(y: Seq<char>, w: Seq<char>)
    requires
        all_whitespace(w),
    ensures
        trim_end(y + w) == trim_end(y),
    decreases w.len(),
{
    if w.len() > 0 {
        assert((y + w).last() == w.last());
        assert((y + w).drop_last() =~= y + w.drop_last());
        assert(all_whitespace(w.drop_last())) by {
            assert forall|i: int| 0 <= i < w.drop_last().len() implies is_whitespace(
                #[trigger] w.drop_last()[i],
            ) by {
                assert(w.drop_last()[i] == w[i]);
            }
        }
        lemma_trim_end_before_whitespace(y, w.drop_last());
    } else {
        assert(y + w =~= y);
    }
}

/// When `a` holds a character that is not whitespace, `trim_end` stops
/// inside `a`.
pub proof fn lemma_trim_end_prepend(y: Seq<char>, a: Seq<char>)
    requires
        trim_end(a).len() > 0,
    ensures
        trim_end(y + a) == y + trim_end(a),
    decreases a.len(),
{
    assert((y + a).last() == a.last());
    if is_whitespace(a.last()) {
        assert((y + a).drop_last() =~= y + a.drop_last());
        lemma_trim_end_prepend(y, a.drop_last());
    }
}

/// Text that starts and ends with characters that are not whitespace is
/// its own trim.
pub proof fn lemma_trim_settled(x: Seq<char>)
    requires
        x.len() > 0,
        !is_whitespace(x[0]),
        !is_whitespace(x.last()),
    ensures
        trim(x) == x,
{
}

/// Joining a list with a first piece in front.
pub proof fn lemma_join_cons(a: Seq<char>, list: Seq<Seq<char>>, sep: Seq<char>)
    requires
        list.len() > 0,
    ensures
        join(seq![a] + list, sep) == a + sep + join(list, sep),
    decreases list.len(),
{
    let l = seq![a] + list;
    if list.len() == 1 {
        assert(l.drop_last() =~= seq![a]);
        assert(l.last() == list[0]);
        assert(join(seq![a], sep) == a);
        assert(join(list, sep) == list[0]);
    } else {
        assert(l.drop_last() =~= seq![a] + list.drop_last());
        lemma_join_cons(a, list.drop_last(), sep);
        assert(l.last() == list.last());
        assert(join(l, sep) == join(l.drop_last(), sep) + sep + l.last());
        assert(join(list, sep) == join(list.drop_last(), sep) + sep + list.last());
        assert(join(l, sep) =~= a + sep + join(list, sep));
    }
}

/// Joining two non-empty lists one after the other.
pub proof fn lemma_join_append(l: Seq<Seq<char>>, m: Seq<Seq<char>>, sep: Seq<char>)
    requires
        l.len() > 0,
        m.len() > 0,
    ensures
        join(l + m, sep) == join(l, sep) + sep + join(m, sep),
    decreases m.len(),
{
    let lm = l + m;
    if m.len() == 1 {
        assert(lm.drop_last() =~= l);
        assert(lm.last() == m[0]);
    } else {
        assert(lm.drop_last() =~= l + m.drop_last());
        lemma_join_append(l, m.drop_last(), sep);
        assert(lm.last() == m.last());
    }
}

} // verus!

verus! {

/// The lines of a text hold no newline, and no carriage return when the
/// text has none.
pub proof fn lemma_lines_chars(s: Seq<char>)
    ensures
        forall|i: int|
            0 <= i < lines(s).len() ==> !(#[trigger] lines(s)[i]).contains('\n') && (
            !s.contains('\r') ==> !lines(s)[i].contains('\r')),
    decreases s.len(),
{
    if s.len() > 0 {
        let k = find_char(s, '\n');
        lemma_find_char(s, '\n');
        if k < 0 {
            assert(lines(s) == seq![s]);
            assert(!s.contains('\n'));
        } else {
            let first = strip_cr(s.take(k));
            let rest = s.skip(k + 1);
            lemma_lines_chars(rest);
            assert(lines(s) == seq![first] + lines(rest));
            assert(!first.contains('\n')) by {
                if first.contains('\n') {
                    let j = choose|j: int| 0 <= j < first.len() && first[j] == '\n';
                    assert(s[j] == '\n');
                }
            }
            if !s.contains('\r') {
                assert(!first.contains('\r')) by {
                    if first.contains('\r') {
                        let j = choose|j: int| 0 <= j < first.len() && first[j] == '\r';
                        assert(s[j] == '\r');
                    }
                }
                assert(!rest.contains('\r')) by {
                    if rest.contains('\r') {
                        let j = choose|j: int| 0 <= j < rest.len() && rest[j] == '\r';
                        assert(s[k + 1 + j] == '\r');
                    }
                }
            }
            assert forall|i: int| 0 <= i < lines(s).len() implies !(#[trigger] lines(s)[i]).contains(
                '\n',
            ) && (!s.contains('\r') ==> !lines(s)[i].contains('\r')) by {
                if i > 0 {
                    assert(lines(s)[i] == lines(rest)[i - 1]);
                }
            }
        }
    }
}

/// Lines without newlines or carriage returns, the last one not empty,
/// joined by newlines, read back as the same lines.
pub proof fn lemma_lines_of_join(list: Seq<Seq<char>>)
    requires
        list.len() > 0,
        forall|i: int|
            0 <= i < list.len() ==> !(#[trigger] list[i]).contains('\n') && !list[i].contains('\r'),
        list.last().len() > 0,
    ensures
        lines(join(list, seq!['\n'])) == list,
    decreases list.len(),
{
    let x = list[0];
    assert(!x.contains('\n'));
    lemma_find_char(x, '\n');
    if list.len() == 1 {
        assert(join(list, seq!['\n']) == x);
        assert(find_char(x, '\n') < 0);
        assert(lines(x) =~= list);
    } else {
        let rest = list.drop_first();
        assert(list =~= seq![x] + rest);
        lemma_join_cons(x, rest, seq!['\n']);
        assert forall|i: int| 0 <= i < rest.len() implies !(#[trigger] rest[i]).contains('\n')
            && !rest[i].contains('\r') by {
            assert(rest[i] == list[i + 1]);
        }
        assert(rest.last() == list.last());
        lemma_lines_of_join(rest);
        lemma_lines_split(x, join(rest, seq!['\n']));
        assert(find_char(x, '\n') < 0);
        assert(strip_cr(x) == x) by {
            if x.len() > 0 && x.last() == '\r' {
                assert(x[x.len() - 1] == '\r');
            }
        }
        assert(lines(join(list, seq!['\n'])) =~= list);
    }
}

/// Lines with their leading blank lines dropped and the first remaining
/// one stripped of its leading whitespace.
pub open spec fn trim_lines_start(k: Seq<Seq<char>>) -> Seq<Seq<char>>
    decreases k.len(),
{
    if k.len() == 0 {
        k
    } else if trim_start(k[0]).len() == 0 {
        trim_lines_start(k.drop_first())
    } else {
        seq![trim_start(k[0])] + k.drop_first()
    }
}

/// Lines with their trailing blank lines dropped and the last remaining
/// one stripped of its trailing whitespace.
pub open spec fn trim_lines_end(k: Seq<Seq<char>>) -> Seq<Seq<char>>
    decreases k.len(),
{
    if k.len() == 0 {
        k
    } else if trim_end(k.last()).len() == 0 {
        trim_lines_end(k.drop_last())
    } else {
        k.drop_last().push(trim_end(k.last()))
    }
}

/// Trimming the start of joined lines trims the lines.
pub proof fn lemma_trim_start_join(k: Seq<Seq<char>>)
    ensures
        trim_start(join(k, seq!['\n'])) == join(trim_lines_start(k), seq!['\n']),
    decreases k.len(),
{
    let nl = seq!['\n'];
    if k.len() == 1 {
        let x = k[0];
        assert(k.drop_first() =~= Seq::<Seq<char>>::empty());
        assert(join(k, nl) == x);
        if trim_start(x).len() > 0 {
            assert(seq![trim_start(x)] + k.drop_first() =~= seq![trim_start(x)]);
        } else {
            assert(trim_start(x) =~= Seq::<char>::empty());
            assert(trim_lines_start(k) == trim_lines_start(k.drop_first()));
            assert(join(trim_lines_start(k), nl) =~= Seq::<char>::empty());
        }
    } else if k.len() > 1 {
        let x = k[0];
        let rest = k.drop_first();
        assert(k =~= seq![x] + rest);
        lemma_join_cons(x, rest, nl);
        let r = join(rest, nl);
        assert(join(k, nl) =~= x + (nl + r));
        lemma_trim_start_shape(x);
        if trim_start(x).len() == 0 {
            assert(x.take(x.len() as int) =~= x);
            assert(all_whitespace(x + nl)) by {
                assert forall|i: int| 0 <= i < (x + nl).len() implies is_whitespace(
                    #[trigger] (x + nl)[i],
                ) by {
                    if i < x.len() {
                        assert((x + nl)[i] == x.take(x.len() as int)[i]);
                    }
                }
            }
            assert(x + (nl + r) =~= (x + nl) + r);
            lemma_trim_start_after_whitespace(x + nl, r);
            lemma_trim_start_join(rest);
            assert(trim_lines_start(k) == trim_lines_start(rest));
        } else {
            lemma_trim_start_append(x, nl + r);
            lemma_join_cons(trim_start(x), rest, nl);
            assert(trim_start(x) + nl + r =~= trim_start(x) + (nl + r));
            assert(trim_lines_start(k) == seq![trim_start(x)] + rest);
        }
    }
}

/// Trimming the end of joined lines trims the lines.
pub proof fn lemma_trim_end_join(k: Seq<Seq<char>>)
    ensures
        trim_end(join(k, seq!['\n'])) == join(trim_lines_end(k), seq!['\n']),
    decreases k.len(),
{
    let nl = seq!['\n'];
    if k.len() == 1 {
        let x = k[0];
        assert(k.drop_last() =~= Seq::<Seq<char>>::empty());
        assert(join(k, nl) == x);
        assert(k.last() == x);
        if trim_end(x).len() > 0 {
            assert(k.drop_last().push(trim_end(x)) =~= seq![trim_end(x)]);
        } else {
            assert(trim_end(x) =~= Seq::<char>::empty());
            assert(trim_lines_end(k) == trim_lines_end(k.drop_last()));
            assert(join(trim_lines_end(k), nl) =~= Seq::<char>::empty());
        }
    } else if k.len() > 1 {
        let init = k.drop_last();
        let x = k.last();
        let j = join(init, nl);
        assert(join(k, nl) == j + nl + x);
        lemma_trim_end_shape(x);
        if trim_end(x).len() == 0 {
            assert(x.skip(0) =~= x);
            assert(all_whitespace(nl + x)) by {
                assert forall|i: int| 0 <= i < (nl + x).len() implies is_whitespace(
                    #[trigger] (nl + x)[i],
                ) by {
                    if i > 0 {
                        assert((nl + x)[i] == x.skip(0)[i - 1]);
                    }
                }
            }
            assert(j + nl + x =~= j + (nl + x));
            lemma_trim_end_before_whitespace(j, nl + x);
            lemma_trim_end_join(init);
            assert(trim_lines_end(k) == trim_lines_end(init));
        } else {
            lemma_trim_end_prepend(j + nl, x);
            let m = init.push(trim_end(x));
            assert(m.drop_last() =~= init);
            assert(m.last() == trim_end(x));
            assert(join(m, nl) == join(init, nl) + nl + trim_end(x));
            assert(trim_lines_end(k) == m);
        }
    }
}

} // verus!

verus! {

/// Text that contains `p` still does with more text after it.
pub proof fn lemma_contains_prefix(a: Seq<char>, b: Seq<char>, p: Seq<char>)
    requires
        contains_seq(a, p),
    ensures
        contains_seq(a + b, p),
{
    lemma_find_seq(a, p);
    let f = find_seq(a, p);
    assert((a + b).skip(f).take(p.len() as int) =~= a.skip(f).take(p.len() as int));
    lemma_contains_at(a + b, p, f);
}

/// Text that contains `p` still does with more text before it.
pub proof fn lemma_contains_suffix(a: Seq<char>, b: Seq<char>, p: Seq<char>)
    requires
        contains_seq(b, p),
    ensures
        contains_seq(a + b, p),
{
    lemma_find_seq(b, p);
    let f = find_seq(b, p);
    assert((a + b).skip(a.len() + f) =~= b.skip(f));
    lemma_contains_at(a + b, p, a.len() + f);
}

/// Joined pieces contain every piece.
pub proof fn lemma_join_contains(list: Seq<Seq<char>>, sep: Seq<char>, i: int)
    requires
        0 <= i < list.len(),
    ensures
        contains_seq(join(list, sep), list[i]),
    decreases list.len(),
{
    let x = list[i];
    if list.len() == 1 {
        assert(join(list, sep) == x);
        assert(x.skip(0).take(x.len() as int) =~= x);
        lemma_contains_at(x, x, 0);
    } else {
        let j = join(list.drop_last(), sep);
        assert(join(list, sep) == j + sep + list.last());
        if i == list.len() - 1 {
            assert(x.skip(0).take(x.len() as int) =~= x);
            lemma_contains_at(x, x, 0);
            lemma_contains_suffix(j + sep, x, x);
        } else {
            assert(list.drop_last()[i] == x);
            lemma_join_contains(list.drop_last(), sep, i);
            lemma_contains_prefix(j, sep + list.last(), x);
            assert(j + (sep + list.last()) =~= j + sep + list.last());
        }
    }
}

} // verus!
