//! Display-column arithmetic for terminal text.
//!
//! Every layout computation in the crate works in display columns, not in
//! characters: a character occupies 0 to 3 columns, as given by the Unicode
//! East-Asian-width tables of the `unicode-width` crate.

use vstd::prelude::*;

verus! {

/// Number of display columns that one character occupies.
///
/// This is the column count of the `unicode-width` tables, a pure function
/// of the character alone.
pub uninterp spec fn char_cols(c: char) -> nat;

/// Relies on `unicode_width::UnicodeWidthChar::width`: the column count of a
/// character is a function of the character alone, is at most 3, is 1 for a
/// blank, and is `None` only for control characters, which this crate counts
/// as zero columns.
#[verifier::external_body]
pub(crate) fn char_width(c: char) -> (r: usize)
    ensures
        r == char_cols(c),
        r <= 3,
        c == ' ' ==> r == 1,
{
    unicode_width::UnicodeWidthChar::width(c).unwrap_or(0)
}

/// Total display columns of a sequence of characters.
pub open spec fn str_cols(s: Seq<char>) -> nat
    decreases s.len(),
{
    if s.len() == 0 {
        0
    } else {
        str_cols(s.drop_last()) + char_cols(s.last())
    }
}

pub proof fn lemma_str_cols_push(s: Seq<char>, c: char)
    ensures
        str_cols(s.push(c)) == str_cols(s) + char_cols(c),
{
    assert(s.push(c).drop_last() =~= s);
}

/// The characters of a string, in order.
///
/// Relies on `str::chars` of std: the iterator yields exactly the
/// characters of the string, which are the string's view.
#[verifier::external_body]
pub(crate) fn str_chars(s: &str) -> (v: Vec<char>)
    ensures
        v@ == s@,
{
    s.chars().collect()
}

/// Builds a `String` back from characters.
///
/// Relies on `String::from_iter` of std: collecting characters yields the
/// string whose characters they are.
#[verifier::external_body]
pub(crate) fn chars_to_string(v: &Vec<char>) -> (s: String)
    ensures
        s@ == v@,
{
    v.iter().collect()
}

/// Total display columns of a string, saturating at `usize::MAX`.
pub fn display_width(s: &str) -> (r: usize)
    ensures
        str_cols(s@) <= usize::MAX ==> r == str_cols(s@),
        str_cols(s@) > usize::MAX ==> r == usize::MAX,
        r <= str_cols(s@),
{
    let chars = str_chars(s);
    let n = chars.len();
    let mut w: usize = 0;
    let mut i: usize = 0;
    while i < n
        invariant
            n == chars@.len(),
            i <= n,
            str_cols(chars@.take(i as int)) <= usize::MAX ==> w == str_cols(
                chars@.take(i as int),
            ),
            str_cols(chars@.take(i as int)) > usize::MAX ==> w == usize::MAX,
            w <= str_cols(chars@.take(i as int)),
            chars@ == s@,
        decreases n - i,
    {
        let cw = char_width(chars[i]);
        proof {
            assert(chars@.take(i + 1).drop_last() =~= chars@.take(i as int));
            assert(chars@.take(i + 1).last() == chars@[i as int]);
        }
        if cw <= usize::MAX - w {
            w = w + cw;
        } else {
            w = usize::MAX;
        }
        i = i + 1;
    }
    proof {
        assert(chars@.take(n as int) =~= chars@);
    }
    w
}

/// Length of the longest prefix of `s` whose columns fit within `max`.
pub open spec fn fit_len(s: Seq<char>, max: int) -> nat
    decreases s.len(),
{
    if s.len() == 0 {
        0
    } else if char_cols(s[0]) > max {
        0
    } else {
        1 + fit_len(s.drop_first(), max - char_cols(s[0]))
    }
}

/// A run of `n` blanks.
pub open spec fn blanks(n: int) -> Seq<char> {
    Seq::new(if n < 0 { 0 } else { n as nat }, |i: int| ' ')
}

/// What width-bounded truncation returns: the longest fitting prefix of
/// `s`, padded with blanks out to exactly `max` columns.
pub open spec fn spec_truncate(s: Seq<char>, max: int) -> Seq<char> {
    let p = s.take(fit_len(s, max) as int);
    p + blanks(max - str_cols(p))
}

pub proof fn lemma_fit_len(s: Seq<char>, max: int)
    requires
        max >= 0,
    ensures
        fit_len(s, max) <= s.len(),
        str_cols(s.take(fit_len(s, max) as int)) <= max,
        fit_len(s, max) < s.len() ==> str_cols(s.take(fit_len(s, max) as int + 1)) > max,
    decreases s.len(),
{
    if s.len() == 0 {
    } else if char_cols(s[0]) > max {
        assert(s.take(1).drop_last() =~= s.take(0));
        assert(str_cols(s.take(0)) == 0);
        assert(s.take(1).last() == s[0]);
    } else {
        let rest = s.drop_first();
        let m2 = max - char_cols(s[0]);
        lemma_fit_len(rest, m2);
        let k = fit_len(rest, m2);
        lemma_cols_cons(s, k as int);
        if k < rest.len() {
            lemma_cols_cons(s, k as int + 1);
        }
    }
}

/// Columns of a prefix of a non-empty sequence, split at the head.
proof fn lemma_cols_cons(s: Seq<char>, k: int)
    requires
        s.len() > 0,
        0 <= k <= s.len() - 1,
    ensures
        str_cols(s.take(k + 1)) == char_cols(s[0]) + str_cols(s.drop_first().take(k)),
    decreases k,
{
    if k == 0 {
        assert(s.take(1).drop_last() =~= s.take(0));
        assert(s.take(1).last() == s[0]);
        assert(str_cols(s.take(0)) == 0);
        assert(str_cols(s.drop_first().take(0)) == 0);
    } else {
        lemma_cols_cons(s, k - 1);
        assert(s.take(k + 1).drop_last() =~= s.take(k));
        assert(s.take(k + 1).last() == s[k]);
        assert(s.drop_first().take(k).drop_last() =~= s.drop_first().take(k - 1));
        assert(s.drop_first().take(k).last() == s[k]);
    }
}

/// Truncates `s` to at most `max` display columns, never splitting a
/// character, then pads with blanks to exactly `max` columns.
pub fn truncate_to_width(s: &str, max: usize) -> (r: String)
    ensures
        r@ == spec_truncate(s@, max as int),
        str_cols(r@) == max,
{
    let chars = str_chars(s);
    let n = chars.len();
    let mut out: Vec<char> = Vec::new();
    let mut w: usize = 0;
    let mut i: usize = 0;
    let mut broke: bool = false;
    proof {
        assert(chars@.skip(0) =~= chars@);
    }
    while i < n && !broke
        invariant
            n == chars@.len(),
            chars@ == s@,
            i <= n,
            out@ == chars@.take(i as int),
            w == str_cols(out@),
            w <= max,
            !broke ==> fit_len(chars@, max as int) == i + fit_len(
                chars@.skip(i as int),
                max - w,
            ),
            broke ==> fit_len(chars@, max as int) == i,
        decreases n - i + (if broke { 0int } else { 1int }),
    {
        let c = chars[i];
        let cw = char_width(c);
        proof {
            assert(chars@.skip(i as int)[0] == chars@[i as int]);
        }
        if cw > max - w {
            broke = true;
            proof {
                assert(fit_len(chars@.skip(i as int), max - w) == 0);
            }
        } else {
            out.push(c);
            w = w + cw;
            proof {
                lemma_str_cols_push(chars@.take(i as int), c);
                assert(chars@.take(i + 1) =~= chars@.take(i as int).push(c));
                assert(chars@.skip(i as int).drop_first() =~= chars@.skip(i + 1));
            }
            i = i + 1;
        }
    }
    proof {
        if !broke {
            assert(chars@.skip(n as int).len() == 0);
            assert(fit_len(chars@.skip(n as int), max - w) == 0);
        }
        assert(out@ == chars@.take(fit_len(chars@, max as int) as int));
    }
    let ghost prefix = out@;
    let mut pads: usize = 0;
    while w < max
        invariant
            out@ == prefix + blanks(pads as int),
            w == str_cols(out@),
            w == str_cols(prefix) + pads,
            w <= max,
        decreases max - w,
    {
        let blank_cols = char_width(' ');
        out.push(' ');
        proof {
            lemma_str_cols_push(out@.drop_last(), ' ');
            assert(out@.drop_last() =~= prefix + blanks(pads as int));
            assert(prefix + blanks(pads + 1) =~= (prefix + blanks(pads as int)).push(' '));
        }
        w = w + 1;
        pads = pads + 1;
    }
    proof {
        assert(out@ =~= spec_truncate(s@, max as int));
    }
    chars_to_string(&out)
}

/// A line with one trailing carriage return removed, as `str::lines` does.
pub open spec fn strip_cr(l: Seq<char>) -> Seq<char> {
    if l.len() > 0 && l.last() == '\r' {
        l.drop_last()
    } else {
        l
    }
}

/// The lines of `s`, scanning left to right with `cur` the line built so
/// far: split at every newline, no line for a trailing newline.
pub open spec fn lines_acc(s: Seq<char>, cur: Seq<char>) -> Seq<Seq<char>>
    decreases s.len(),
{
    if s.len() == 0 {
        if cur.len() == 0 {
            seq![]
        } else {
            seq![strip_cr(cur)]
        }
    } else if s[0] == '\n' {
        seq![strip_cr(cur)] + lines_acc(s.drop_first(), Seq::empty())
    } else {
        lines_acc(s.drop_first(), cur.push(s[0]))
    }
}

/// The lines of `s`, as `str::lines` yields them.
pub open spec fn spec_lines(s: Seq<char>) -> Seq<Seq<char>> {
    lines_acc(s, Seq::empty())
}

/// Greedy wrap of one line, scanning left to right: the line built so far
/// is emitted as soon as the next character would overflow `width`.
pub open spec fn wrap_steps(s: Seq<char>, width: int, cur: Seq<char>, curw: int) -> Seq<
    Seq<char>,
>
    decreases s.len(),
{
    if s.len() == 0 {
        if cur.len() == 0 {
            seq![]
        } else {
            seq![cur]
        }
    } else if curw + char_cols(s[0]) > width {
        seq![cur] + wrap_steps(s.drop_first(), width, seq![s[0]], char_cols(s[0]) as int)
    } else {
        wrap_steps(s.drop_first(), width, cur.push(s[0]), curw + char_cols(s[0]))
    }
}

/// One source line wrapped: an empty line stays one empty row.
pub open spec fn wrap_one(l: Seq<char>, width: int) -> Seq<Seq<char>> {
    if l.len() == 0 {
        seq![Seq::<char>::empty()]
    } else {
        wrap_steps(l, width, Seq::empty(), 0)
    }
}

/// All lines wrapped, in order.
pub open spec fn wrap_lines(ls: Seq<Seq<char>>, width: int) -> Seq<Seq<char>>
    decreases ls.len(),
{
    if ls.len() == 0 {
        seq![]
    } else {
        wrap_one(ls[0], width) + wrap_lines(ls.drop_first(), width)
    }
}

/// What wrapping a whole text for a display of `width` columns returns.
pub open spec fn spec_wrap_text(s: Seq<char>, width: int) -> Seq<Seq<char>> {
    wrap_lines(spec_lines(s), width)
}

proof fn lemma_wrap_lines_snoc(ls: Seq<Seq<char>>, x: Seq<char>, width: int)
    ensures
        wrap_lines(ls.push(x), width) == wrap_lines(ls, width) + wrap_one(x, width),
    decreases ls.len(),
{
    if ls.len() == 0 {
        assert(ls.push(x)[0] == x);
        assert(ls.push(x).drop_first() =~= Seq::<Seq<char>>::empty());
        assert(wrap_lines(Seq::<Seq<char>>::empty(), width) =~= Seq::<Seq<char>>::empty());
        assert(wrap_one(x, width) + Seq::<Seq<char>>::empty() =~= wrap_one(x, width));
        assert(wrap_lines(ls.push(x), width) =~= wrap_one(x, width));
        assert(wrap_lines(ls, width) + wrap_one(x, width) =~= wrap_one(x, width));
    } else {
        lemma_wrap_lines_snoc(ls.drop_first(), x, width);
        assert(ls.push(x).drop_first() =~= ls.drop_first().push(x));
        assert(ls.push(x)[0] == ls[0]);
        let h = wrap_one(ls[0], width);
        let ta = wrap_lines(ls.drop_first(), width);
        let wx = wrap_one(x, width);
        assert(h + (ta + wx) =~= (h + ta) + wx);
    }
}

/// Splits `s` into its lines, as `str::lines` does.
fn split_lines(chars: &Vec<char>) -> (r: Vec<Vec<char>>)
    ensures
        r@.map_values(|l: Vec<char>| l@) == spec_lines(chars@),
{
    let n = chars.len();
    let mut out: Vec<Vec<char>> = Vec::new();
    let mut cur: Vec<char> = Vec::new();
    let mut i: usize = 0;
    proof {
        assert(chars@.skip(0) =~= chars@);
    }
    while i < n
        invariant
            n == chars@.len(),
            i <= n,
            spec_lines(chars@) == out@.map_values(|l: Vec<char>| l@) + lines_acc(
                chars@.skip(i as int),
                cur@,
            ),
        decreases n - i,
    {
        let c = chars[i];
        proof {
            assert(chars@.skip(i as int)[0] == chars@[i as int]);
            assert(chars@.skip(i as int).drop_first() =~= chars@.skip(i as int + 1));
        }
        if c == '\n' {
            let stripped = strip_cr_exec(cur);
            out.push(stripped);
            cur = Vec::new();
            proof {
                assert(out@.map_values(|l: Vec<char>| l@) =~= out@.drop_last().map_values(
                    |l: Vec<char>| l@,
                ).push(out@.last()@));
            }
        } else {
            cur.push(c);
        }
        i = i + 1;
    }
    proof {
        assert(chars@.skip(n as int).len() == 0);
    }
    if cur.len() > 0 {
        let stripped = strip_cr_exec(cur);
        out.push(stripped);
        proof {
            assert(out@.map_values(|l: Vec<char>| l@) =~= out@.drop_last().map_values(
                |l: Vec<char>| l@,
            ).push(out@.last()@));
        }
    }
    out
}

fn strip_cr_exec(l: Vec<char>) -> (r: Vec<char>)
    ensures
        r@ == strip_cr(l@),
{
    let mut l = l;
    if l.len() > 0 {
        let last = l[l.len() - 1];
        if last == '\r' {
            let _ = l.pop();
        }
    }
    l
}

/// Wraps one non-empty-or-empty line greedily to `width` columns.
fn wrap_line(line: &Vec<char>, width: usize) -> (r: Vec<Vec<char>>)
    ensures
        r@.map_values(|l: Vec<char>| l@) == wrap_one(line@, width as int),
{
    let n = line.len();
    let mut out: Vec<Vec<char>> = Vec::new();
    if n == 0 {
        out.push(Vec::new());
        return out;
    }
    let mut cur: Vec<char> = Vec::new();
    let mut curw: usize = 0;
    let mut i: usize = 0;
    proof {
        assert(line@.skip(0) =~= line@);
    }
    while i < n
        invariant
            n == line@.len(),
            n > 0,
            i <= n,
            curw == str_cols(cur@),
            wrap_one(line@, width as int) == out@.map_values(|l: Vec<char>| l@) + wrap_steps(
                line@.skip(i as int),
                width as int,
                cur@,
                curw as int,
            ),
        decreases n - i,
    {
        let c = line[i];
        let cw = char_width(c);
        proof {
            assert(line@.skip(i as int)[0] == line@[i as int]);
            assert(line@.skip(i as int).drop_first() =~= line@.skip(i as int + 1));
        }
        let over = if curw > width {
            true
        } else {
            cw > width - curw
        };
        if over {
            out.push(cur);
            cur = Vec::new();
            cur.push(c);
            curw = cw;
            proof {
                assert(out@.map_values(|l: Vec<char>| l@) =~= out@.drop_last().map_values(
                    |l: Vec<char>| l@,
                ).push(out@.last()@));
                assert(cur@ =~= seq![line@[i as int]]);
                lemma_str_cols_push(Seq::empty(), c);
                assert(Seq::<char>::empty().push(c) =~= seq![c]);
            }
        } else {
            proof {
                lemma_str_cols_push(cur@, c);
            }
            cur.push(c);
            curw = curw + cw;
        }
        i = i + 1;
    }
    proof {
        assert(line@.skip(n as int).len() == 0);
    }
    if cur.len() > 0 {
        out.push(cur);
        proof {
            assert(out@.map_values(|l: Vec<char>| l@) =~= out@.drop_last().map_values(
                |l: Vec<char>| l@,
            ).push(out@.last()@));
        }
    }
    out
}

/// Wraps `text` for a display of `width` columns: each source line is cut
/// greedily at character boundaries, an empty line stays one empty row.
pub fn wrap_text_for_display(text: &str, width: usize) -> (r: Vec<String>)
    ensures
        r@.map_values(|x: String| x@) == spec_wrap_text(text@, width as int),
{
    let chars = str_chars(text);
    let lines = split_lines(&chars);
    let ghost lsv = lines@.map_values(|l: Vec<char>| l@);
    let mut out: Vec<String> = Vec::new();
    let mut j: usize = 0;
    let m = lines.len();
    while j < m
        invariant
            m == lines@.len(),
            j <= m,
            lsv == lines@.map_values(|l: Vec<char>| l@),
            spec_wrap_text(text@, width as int) == wrap_lines(lsv, width as int),
            out@.map_values(|x: String| x@) == wrap_lines(lsv.take(j as int), width as int),
        decreases m - j,
    {
        let rows = wrap_line(&lines[j], width);
        let k = rows.len();
        let mut t: usize = 0;
        while t < k
            invariant
                k == rows@.len(),
                t <= k,
                out@.map_values(|x: String| x@) == wrap_lines(lsv.take(j as int), width as int)
                    + rows@.map_values(|l: Vec<char>| l@).take(t as int),
            decreases k - t,
        {
            out.push(chars_to_string(&rows[t]));
            proof {
                assert(out@.map_values(|x: String| x@) =~= out@.drop_last().map_values(
                    |x: String| x@,
                ).push(out@.last()@));
                assert(rows@.map_values(|l: Vec<char>| l@).take(t as int + 1) =~= rows@.map_values(
                    |l: Vec<char>| l@,
                ).take(t as int).push(rows@[t as int]@));
                let pre = wrap_lines(lsv.take(j as int), width as int);
                let mid = rows@.map_values(|l: Vec<char>| l@).take(t as int);
                assert((pre + mid).push(rows@[t as int]@) =~= pre + mid.push(rows@[t as int]@));
            }
            t = t + 1;
        }
        proof {
            assert(lsv[j as int] == lines@[j as int]@);
            assert(rows@.map_values(|l: Vec<char>| l@).take(k as int) =~= rows@.map_values(
                |l: Vec<char>| l@,
            ));
            assert(out@.map_values(|x: String| x@) == wrap_lines(lsv.take(j as int), width as int)
                + wrap_one(lsv[j as int], width as int));
            lemma_wrap_lines_snoc(lsv.take(j as int), lsv[j as int], width as int);
            assert(lsv.take(j as int).push(lsv[j as int]) =~= lsv.take(j as int + 1));
        }
        j = j + 1;
    }
    proof {
        assert(lsv.take(m as int) =~= lsv);
    }
    out
}

/// Whether `p` sits at offset `s` of `v`.
pub fn has_prefix_at(v: &Vec<char>, s: usize, p: &Vec<char>) -> (r: bool)
    requires
        s <= v@.len(),
    ensures
        r == (v@.len() - s >= p@.len() && v@.skip(s as int).take(p@.len() as int) == p@),
{
    let n = v.len();
    let m = p.len();
    if n - s < m {
        return false;
    }
    let mut j: usize = 0;
    while j < m
        invariant
            j <= m,
            m == p@.len(),
            n == v@.len(),
            s + m <= n,
            forall|t: int| 0 <= t < j ==> v@[s + t] == p@[t],
        decreases m - j,
    {
        if v[s + j] != p[j] {
            proof {
                assert(v@.skip(s as int).take(m as int)[j as int] == v@[s + j]);
            }
            return false;
        }
        j = j + 1;
    }
    proof {
        assert(v@.skip(s as int).take(m as int) =~= p@);
    }
    true
}

} // verus!
