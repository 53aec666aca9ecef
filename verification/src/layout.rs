//! The side-by-side listing of a source text and the code generated from
//! it: a header, a rule, then one row per line with the line number, the
//! source line (cut to fit a column of 60) and the generated line.
use vstd::prelude::*;

use crate::text::{decimal, decimal_string};

verus! {

broadcast use {vstd::seq::group_seq_axioms, vstd::std_specs::vec::group_vec_axioms};

/// The width of the source column.
pub const LEFT_WIDTH: usize = 60;

// ----- lines -----
/// Where the line that starts at or before `i` ends: the first `'\n'` at or
/// after `i`, or the end of the text.
pub open spec fn line_end(s: Seq<char>, i: int) -> int
    decreases s.len() - i,
{
    if i < 0 || i >= s.len() {
        s.len() as int
    } else if s[i] == '\n' {
        i
    } else {
        line_end(s, i + 1)
    }
}

pub proof fn lemma_line_end_bounds(s: Seq<char>, i: int)
    requires
        0 <= i <= s.len(),
    ensures
        i <= line_end(s, i) <= s.len(),
    decreases s.len() - i,
{
    if i < s.len() && s[i] != '\n' {
        lemma_line_end_bounds(s, i + 1);
    }
}

/// A line without the `'\r'` of a `"\r\n"` ending.
pub open spec fn strip_cr(l: Seq<char>) -> Seq<char> {
    if l.len() > 0 && l.last() == '\r' {
        l.drop_last()
    } else {
        l
    }
}

/// The lines of `s` from `i` on: split at `'\n'` or `"\r\n"`; a final line
/// ending adds no empty line.
pub open spec fn lines_from(s: Seq<char>, i: int) -> Seq<Seq<char>>
    decreases s.len() - i,
{
    if i < 0 || i >= s.len() {
        seq![]
    } else {
        let e = line_end(s, i);
        proof {
            lemma_line_end_bounds(s, i);
        }
        if e < s.len() {
            seq![strip_cr(s.subrange(i, e))] + lines_from(s, e + 1)
        } else {
            seq![s.subrange(i, e)]
        }
    }
}

pub open spec fn lines_of(s: Seq<char>) -> Seq<Seq<char>> {
    lines_from(s, 0)
}

// ----- bytes -----
/// How many bytes the UTF-8 encoding of `c` takes.
pub open spec fn char_bytes(c: char) -> nat {
    if (c as u32) < 0x80 {
        1
    } else if (c as u32) < 0x800 {
        2
    } else if (c as u32) < 0x10000 {
        3
    } else {
        4
    }
}

/// How many bytes the UTF-8 encoding of `s` takes.
pub open spec fn bytes_len(s: Seq<char>) -> nat
    decreases s.len(),
{
    if s.len() == 0 {
        0
    } else {
        bytes_len(s.drop_last()) + char_bytes(s.last())
    }
}

/// The most leading characters of `l`, from `k` on, whose encoding fits in
/// `n` bytes.
pub open spec fn fitting(l: Seq<char>, n: nat, k: int) -> int
    decreases l.len() - k,
{
    if 0 <= k < l.len() && bytes_len(l.take(k + 1)) <= n {
        fitting(l, n, k + 1)
    } else {
        k
    }
}

/// A line longer than the column is cut after its first `LEFT_WIDTH - 1`
/// bytes, which must end at a character, and marked with `'…'`.
pub open spec fn cuts_cleanly(l: Seq<char>) -> bool {
    bytes_len(l) > LEFT_WIDTH ==> bytes_len(l.take(fitting(l, (LEFT_WIDTH - 1) as nat, 0))) == LEFT_WIDTH - 1
}

pub open spec fn shown(l: Seq<char>) -> Seq<char> {
    if bytes_len(l) > LEFT_WIDTH {
        l.take(fitting(l, (LEFT_WIDTH - 1) as nat, 0)).push('…')
    } else {
        l
    }
}

// ----- padding -----
pub open spec fn repeat(c: char, n: int) -> Seq<char>
    decreases n,
{
    if n <= 0 {
        seq![]
    } else {
        repeat(c, n - 1).push(c)
    }
}

/// `s` right-aligned in `w` characters.
pub open spec fn pad_left(s: Seq<char>, w: int) -> Seq<char> {
    repeat(' ', w - s.len()) + s
}

/// `s` left-aligned in `w` characters.
pub open spec fn pad_right(s: Seq<char>, w: int) -> Seq<char> {
    s + repeat(' ', w - s.len())
}

// ----- the listing -----
pub open spec fn line_or_empty(ls: Seq<Seq<char>>, i: int) -> Seq<char> {
    if 0 <= i < ls.len() {
        ls[i]
    } else {
        seq![]
    }
}

pub open spec fn row(i: int, w: int, left: Seq<char>, right: Seq<char>) -> Seq<char> {
    pad_left(decimal((i + 1) as nat), w) + " | "@ + pad_right(shown(left), LEFT_WIDTH as int) + " | "@ + right + "\n"@
}

/// The first `n` rows.
pub open spec fn rows(src: Seq<Seq<char>>, res: Seq<Seq<char>>, w: int, n: int) -> Seq<char>
    decreases n,
{
    if n <= 0 {
        seq![]
    } else {
        rows(src, res, w, n - 1) + row(n - 1, w, line_or_empty(src, n - 1), line_or_empty(res, n - 1))
    }
}

pub open spec fn row_count(src: Seq<char>, res: Seq<char>) -> nat {
    if lines_of(src).len() >= lines_of(res).len() {
        lines_of(src).len()
    } else {
        lines_of(res).len()
    }
}

/// The listing of `src` beside `res`.
pub open spec fn side_by_side_text(src: Seq<char>, res: Seq<char>) -> Seq<char> {
    let n = row_count(src, res);
    let w = decimal(n).len() as int;
    heading(w) + rows(lines_of(src), lines_of(res), w, n as int)
}

/// Every line of `src` can be shown.
pub open spec fn listable(src: Seq<char>) -> bool {
    forall|i: int| 0 <= i < lines_of(src).len() ==> cuts_cleanly(#[trigger] lines_of(src)[i])
}

// ----- lemmas -----
proof fn lemma_bytes_step(l: Seq<char>, k: int)
    requires
        0 <= k < l.len(),
    ensures
        bytes_len(l.take(k + 1)) == bytes_len(l.take(k)) + char_bytes(l[k]),
{
    assert(l.take(k + 1).drop_last() =~= l.take(k));
    assert(l.take(k + 1).last() == l[k]);
}

proof fn lemma_bytes_mono(l: Seq<char>, k: int)
    requires
        0 <= k <= l.len(),
    ensures
        bytes_len(l.take(k)) <= bytes_len(l),
    decreases l.len() - k,
{
    if k < l.len() {
        lemma_bytes_step(l, k);
        lemma_bytes_mono(l, k + 1);
    } else {
        assert(l.take(k) =~= l);
    }
}

// ----- computing it -----
fn char_len_utf8(c: char) -> (r: usize)
    ensures
        r == char_bytes(c),
{
    let v = c as u32;
    if v < 0x80 {
        1
    } else if v < 0x800 {
        2
    } else if v < 0x10000 {
        3
    } else {
        4
    }
}

/// The lines of `s`, as `str::lines` gives them.
pub fn split_lines(s: &str) -> (r: Vec<String>)
    ensures
        r@.len() == lines_of(s@).len(),
        forall|i: int| 0 <= i < r@.len() ==> (#[trigger] r@[i])@ == lines_of(s@)[i],
{
    let n = s.unicode_len();
    let mut out: Vec<String> = Vec::new();
    let ghost mut acc: Seq<Seq<char>> = seq![];
    let mut start: usize = 0;
    let mut i: usize = 0;
    while i < n
        invariant
            n == s@.len(),
            start <= i <= n,
            line_end(s@, start as int) == line_end(s@, i as int),
            lines_of(s@) == acc + lines_from(s@, start as int),
            out@.len() == acc.len(),
            forall|j: int| 0 <= j < out@.len() ==> (#[trigger] out@[j])@ == acc[j],
        decreases n - i,
    {
        if s.get_char(i) == '\n' {
            let mut end = i;
            if end > start && s.get_char(end - 1) == '\r' {
                end = end - 1;
            }
            let line = s.substring_char(start, end);
            proof {
                let whole = s@.subrange(start as int, i as int);
                assert(line_end(s@, i as int) == i);
                if end < i {
                    assert(line@ =~= whole.drop_last());
                } else {
                    assert(line@ =~= whole);
                }
                assert(line@ == strip_cr(whole));
                assert(lines_from(s@, start as int) == seq![strip_cr(whole)] + lines_from(s@, i + 1));
                acc = acc.push(line@);
                assert(lines_of(s@) =~= acc + lines_from(s@, i + 1));
            }
            out.push(String::from_str(line));
            start = i + 1;
        }
        i = i + 1;
    }
    if start < n {
        let line = s.substring_char(start, n);
        proof {
            assert(line_end(s@, n as int) == n);
            assert(lines_from(s@, start as int) == seq![s@.subrange(start as int, n as int)]);
            acc = acc.push(line@);
            assert(lines_of(s@) =~= acc);
        }
        out.push(String::from_str(line));
    } else {
        proof {
            assert(lines_of(s@) =~= acc);
        }
    }
    out
}

/// Appends `n` copies of `piece`, a one-character text.
fn push_repeat(out: &mut String, piece: &str, n: usize, Ghost(c): Ghost<char>)
    requires
        piece@ == seq![c],
    ensures
        final(out)@ == old(out)@ + repeat(c, n as int),
{
    let mut k: usize = 0;
    while k < n
        invariant
            piece@ == seq![c],
            k <= n,
            out@ == old(out)@ + repeat(c, k as int),
        decreases n - k,
    {
        out.append(piece);
        proof {
            assert(repeat(c, k + 1) == repeat(c, k as int).push(c));
            assert(out@ =~= old(out)@ + repeat(c, k + 1));
        }
        k = k + 1;
    }
}

/// How a line is shown in the source column, or `None` where its cut would
/// fall inside a character.
pub fn shown_line(l: &str) -> (r: Option<String>)
    ensures
        r is Some <==> cuts_cleanly(l@),
        r matches Some(t) ==> t@ == shown(l@),
{
    let n = l.unicode_len();
    let mut k: usize = 0;
    let mut acc: usize = 0;
    while k < n && acc <= LEFT_WIDTH
        invariant
            n == l@.len(),
            k <= n,
            acc == bytes_len(l@.take(k as int)),
            acc <= LEFT_WIDTH + 4,
        decreases n - k,
    {
        proof {
            lemma_bytes_step(l@, k as int);
        }
        acc = acc + char_len_utf8(l.get_char(k));
        k = k + 1;
    }
    proof {
        lemma_bytes_mono(l@, k as int);
        if k == n {
            assert(l@.take(k as int) =~= l@);
        }
    }
    if acc <= LEFT_WIDTH {
        return Some(String::from_str(l));
    }
    let mut m: usize = 0;
    let mut used: usize = 0;
    while m < n && used + char_len_utf8(l.get_char(m)) <= LEFT_WIDTH - 1
        invariant
            n == l@.len(),
            m <= n,
            used == bytes_len(l@.take(m as int)),
            used <= LEFT_WIDTH - 1,
            fitting(l@, (LEFT_WIDTH - 1) as nat, 0) == fitting(l@, (LEFT_WIDTH - 1) as nat, m as int),
        decreases n - m,
    {
        proof {
            lemma_bytes_step(l@, m as int);
        }
        used = used + char_len_utf8(l.get_char(m));
        m = m + 1;
    }
    proof {
        if m < n {
            lemma_bytes_step(l@, m as int);
        }
        assert(fitting(l@, (LEFT_WIDTH - 1) as nat, m as int) == m);
    }
    if used != LEFT_WIDTH - 1 {
        return None;
    }
    let mut t = String::from_str(l.substring_char(0, m));
    t.append("…");
    proof {
        reveal_strlit("…");
        assert(t@ =~= l@.take(m as int).push('…'));
    }
    Some(t)
}

/// The header and the rule above the rows, for line numbers of width `w`.
pub open spec fn heading(w: int) -> Seq<char> {
    pad_left(seq![], w) + " | "@ + pad_right("SRC"@, LEFT_WIDTH as int) + " | "@ + "RESULT"@ + "\n"@ + repeat('-', w)
        + "-+-"@ + repeat('-', LEFT_WIDTH as int) + "-+-"@ + repeat('-', 40) + "\n"@
}

fn push_heading(out: &mut String, w: usize)
    requires
        old(out)@.len() == 0,
    ensures
        final(out)@ == heading(w as int),
{
    proof {
        reveal_strlit(" ");
        reveal_strlit("-");
        reveal_strlit("SRC");
        assert(" "@ =~= seq![' ']);
        assert("-"@ =~= seq!['-']);
    }
    push_repeat(out, " ", w, Ghost(' '));
    out.append(" | ");
    out.append("SRC");
    push_repeat(out, " ", LEFT_WIDTH - 3, Ghost(' '));
    out.append(" | ");
    out.append("RESULT");
    out.append("\n");
    push_repeat(out, "-", w, Ghost('-'));
    out.append("-+-");
    push_repeat(out, "-", LEFT_WIDTH, Ghost('-'));
    out.append("-+-");
    push_repeat(out, "-", 40, Ghost('-'));
    out.append("\n");
    proof {
        assert(out@ =~= heading(w as int));
    }
}

/// Appends row `i` for the source line `left`, shown as `shown_text`, and
/// the generated line `right`.
fn push_row(out: &mut String, i: usize, w: usize, shown_text: &str, right: &str, Ghost(left): Ghost<Seq<char>>)
    requires
        i < usize::MAX,
        shown_text@ == shown(left),
    ensures
        final(out)@ == old(out)@ + row(i as int, w as int, left, right@),
{
    let number = decimal_string(i + 1);
    let digits = number.as_str().unicode_len();
    proof {
        reveal_strlit(" ");
        assert(" "@ =~= seq![' ']);
    }
    if digits < w {
        push_repeat(out, " ", w - digits, Ghost(' '));
    }
    out.append(number.as_str());
    out.append(" | ");
    let width = shown_text.unicode_len();
    out.append(shown_text);
    if width < LEFT_WIDTH {
        push_repeat(out, " ", LEFT_WIDTH - width, Ghost(' '));
    }
    out.append(" | ");
    out.append(right);
    out.append("\n");
    proof {
        assert(out@ =~= old(out)@ + row(i as int, w as int, left, right@));
    }
}

/// The listing of the source text `src` beside the generated text
/// `result`, and whether it is whole: it stops before the first long source
/// line that cannot be cut (its first `LEFT_WIDTH - 1` bytes end inside a
/// character).
pub fn side_by_side(src: &str, result: &str) -> (r: (String, bool))
    ensures
        r.1 <==> listable(src@),
        r.1 ==> r.0@ == side_by_side_text(src@, result@),
        !r.1 ==> exists|k: int|
            0 <= k < lines_of(src@).len() && !cuts_cleanly(#[trigger] lines_of(src@)[k]) && (forall|j: int|
                0 <= j < k ==> cuts_cleanly(#[trigger] lines_of(src@)[j])) && r.0@ == heading(
                decimal(row_count(src@, result@)).len() as int,
            ) + rows(lines_of(src@), lines_of(result@), decimal(row_count(src@, result@)).len() as int, k),
{
    let src_lines = split_lines(src);
    let result_lines = split_lines(result);
    let n = if src_lines.len() >= result_lines.len() {
        src_lines.len()
    } else {
        result_lines.len()
    };
    let w = decimal_string(n).as_str().unicode_len();
    let mut out = String::new();
    push_heading(&mut out, w);
    let empty = String::new();
    let ghost sl = lines_of(src@);
    let ghost rl = lines_of(result@);
    let mut i: usize = 0;
    while i < n
        invariant
            n == row_count(src@, result@),
            w == decimal(n as nat).len(),
            sl == lines_of(src@),
            rl == lines_of(result@),
            src_lines@.len() == sl.len(),
            result_lines@.len() == rl.len(),
            forall|j: int| 0 <= j < src_lines@.len() ==> (#[trigger] src_lines@[j])@ == sl[j],
            forall|j: int| 0 <= j < result_lines@.len() ==> (#[trigger] result_lines@[j])@ == rl[j],
            empty@ == Seq::<char>::empty(),
            i <= n,
            out@ == heading(w as int) + rows(sl, rl, w as int, i as int),
            forall|j: int| 0 <= j < i && j < sl.len() ==> cuts_cleanly(#[trigger] sl[j]),
        decreases n - i,
    {
        let left = if i < src_lines.len() {
            src_lines[i].as_str()
        } else {
            empty.as_str()
        };
        let right = if i < result_lines.len() {
            result_lines[i].as_str()
        } else {
            empty.as_str()
        };
        proof {
            assert(left@ == line_or_empty(sl, i as int));
            assert(right@ == line_or_empty(rl, i as int));
        }
        let shown_text = match shown_line(left) {
            Some(t) => t,
            None => {
                proof {
                    assert(i < sl.len());
                    assert(!cuts_cleanly(sl[i as int]));
                }
                return (out, false);
            },
        };
        push_row(&mut out, i, w, shown_text.as_str(), right, Ghost(left@));
        proof {
            assert(out@ =~= heading(w as int) + rows(sl, rl, w as int, i + 1));
        }
        i = i + 1;
    }
    (out, true)
}

} // verus!
