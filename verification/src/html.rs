//! Markup stripping for the summarization flow: tags are removed,
//! block-level tags insert line breaks, script and style content is
//! dropped, and a fixed whitelist of HTML entities is decoded.

use vstd::prelude::*;
use crate::text::{str_chars, chars_to_string, has_prefix_at};

verus! {

/// An ASCII upper-case letter lowered; anything else unchanged.  Tag
/// names are matched case-insensitively in this ASCII sense.
pub open spec fn lower_char(c: char) -> char {
    if c == 'A' { 'a' } else if c == 'B' { 'b' } else if c == 'C' { 'c' }
    else if c == 'D' { 'd' } else if c == 'E' { 'e' } else if c == 'F' { 'f' }
    else if c == 'G' { 'g' } else if c == 'H' { 'h' } else if c == 'I' { 'i' }
    else if c == 'J' { 'j' } else if c == 'K' { 'k' } else if c == 'L' { 'l' }
    else if c == 'M' { 'm' } else if c == 'N' { 'n' } else if c == 'O' { 'o' }
    else if c == 'P' { 'p' } else if c == 'Q' { 'q' } else if c == 'R' { 'r' }
    else if c == 'S' { 's' } else if c == 'T' { 't' } else if c == 'U' { 'u' }
    else if c == 'V' { 'v' } else if c == 'W' { 'w' } else if c == 'X' { 'x' }
    else if c == 'Y' { 'y' } else if c == 'Z' { 'z' } else { c }
}

/// The whitespace that ends a tag name: the Unicode white-space
/// characters.
pub open spec fn tag_blank(c: char) -> bool {
    ||| c == '\u{9}'
    ||| c == '\u{a}'
    ||| c == '\u{b}'
    ||| c == '\u{c}'
    ||| c == '\u{d}'
    ||| c == ' '
    ||| c == '\u{85}'
    ||| c == '\u{a0}'
    ||| c == '\u{1680}'
    ||| ('\u{2000}' <= c && c <= '\u{200a}')
    ||| c == '\u{2028}'
    ||| c == '\u{2029}'
    ||| c == '\u{202f}'
    ||| c == '\u{205f}'
    ||| c == '\u{3000}'
}

/// Tags whose boundary becomes a line break.
pub open spec fn is_break_tag(tag: Seq<char>) -> bool {
    ||| tag == seq!['b', 'r']
    ||| tag == seq!['b', 'r', '/']
    ||| tag == seq!['p']
    ||| tag == seq!['/', 'p']
    ||| tag == seq!['d', 'i', 'v']
    ||| tag == seq!['/', 'd', 'i', 'v']
    ||| tag == seq!['l', 'i']
    ||| tag == seq!['/', 'l', 'i']
}

/// How one character inside a tag grows the captured tag name: blanks
/// end the capture once a name exists, a leading slash is kept, and
/// name characters are stored lowered.
pub open spec fn tag_step(tag: Seq<char>, capturing: bool, c: char) -> (Seq<char>, bool) {
    if !capturing {
        (tag, capturing)
    } else if tag_blank(c) || (c == '/' && tag.len() == 0) {
        if tag.len() > 0 {
            (tag, false)
        } else if c == '/' {
            (tag.push(c), capturing)
        } else {
            (tag, capturing)
        }
    } else {
        (tag.push(lower_char(c)), capturing)
    }
}

/// The text that tag stripping still emits, scanning `s` with the
/// stripper in the given state: inside a tag, inside script or style
/// content, with the tag name captured so far.
pub open spec fn strip_acc(
    s: Seq<char>,
    in_tag: bool,
    in_script: bool,
    in_style: bool,
    tag: Seq<char>,
    capturing: bool,
) -> Seq<char>
    decreases s.len(),
{
    if s.len() == 0 {
        Seq::empty()
    } else {
        let c = s[0];
        let rest = s.drop_first();
        if c == '<' {
            strip_acc(rest, true, in_script, in_style, Seq::empty(), true)
        } else if c == '>' {
            let ns = if tag == seq!['s', 'c', 'r', 'i', 'p', 't'] {
                true
            } else if tag == seq!['/', 's', 'c', 'r', 'i', 'p', 't'] {
                false
            } else {
                in_script
            };
            let nst = if tag == seq!['s', 't', 'y', 'l', 'e'] {
                true
            } else if tag == seq!['/', 's', 't', 'y', 'l', 'e'] {
                false
            } else {
                in_style
            };
            let brk: Seq<char> = if !(tag == seq!['s', 'c', 'r', 'i', 'p', 't'] || tag == seq![
                '/', 's', 'c', 'r', 'i', 'p', 't'] || tag == seq!['s', 't', 'y', 'l', 'e'] || tag
                == seq!['/', 's', 't', 'y', 'l', 'e']) && is_break_tag(tag) {
                seq!['\n']
            } else {
                Seq::empty()
            };
            brk + strip_acc(rest, false, ns, nst, tag, false)
        } else if in_tag {
            let st = tag_step(tag, capturing, c);
            strip_acc(rest, in_tag, in_script, in_style, st.0, st.1)
        } else if in_script || in_style {
            strip_acc(rest, in_tag, in_script, in_style, tag, capturing)
        } else {
            seq![c] + strip_acc(rest, in_tag, in_script, in_style, tag, capturing)
        }
    }
}

/// `s` with every occurrence of `pat` replaced by `rep`, scanning left
/// to right without overlap.
pub open spec fn spec_replace(s: Seq<char>, pat: Seq<char>, rep: Seq<char>) -> Seq<char>
    decreases s.len(),
{
    if s.len() == 0 || pat.len() == 0 {
        s
    } else if s.len() >= pat.len() && s.take(pat.len() as int) == pat {
        rep + spec_replace(s.skip(pat.len() as int), pat, rep)
    } else {
        seq![s[0]] + spec_replace(s.drop_first(), pat, rep)
    }
}

/// The decoded entity whitelist, applied in this fixed order.
pub open spec fn spec_decode_entities(s: Seq<char>) -> Seq<char> {
    let s1 = spec_replace(s, "&amp;"@, "&"@);
    let s2 = spec_replace(s1, "&lt;"@, "<"@);
    let s3 = spec_replace(s2, "&gt;"@, ">"@);
    let s4 = spec_replace(s3, "&quot;"@, "\""@);
    let s5 = spec_replace(s4, "&#39;"@, "'"@);
    let s6 = spec_replace(s5, "&apos;"@, "'"@);
    let s7 = spec_replace(s6, "&#x27;"@, "'"@);
    let s8 = spec_replace(s7, "&nbsp;"@, " "@);
    spec_replace(s8, "&#160;"@, " "@)
}

/// What stripping markup from a document returns: the text outside
/// tags, script and style bodies dropped, break tags as line breaks,
/// and the entity whitelist decoded.
pub open spec fn spec_strip_html(s: Seq<char>) -> Seq<char> {
    spec_decode_entities(strip_acc(s, false, false, false, Seq::empty(), false))
}

fn is_tag_blank(c: char) -> (r: bool)
    ensures
        r == tag_blank(c),
{
    c == '\u{9}' || c == '\u{a}' || c == '\u{b}' || c == '\u{c}' || c == '\u{d}' || c == ' '
        || c == '\u{85}' || c == '\u{a0}' || c == '\u{1680}' || ('\u{2000}' <= c && c
        <= '\u{200a}') || c == '\u{2028}' || c == '\u{2029}' || c == '\u{202f}' || c
        == '\u{205f}' || c == '\u{3000}'
}

fn lower_char_exec(c: char) -> (r: char)
    ensures
        r == lower_char(c),
{
    if c >= 'A' && c <= 'Z' {
        let b = (c as u8) + 32;
        b as char
    } else {
        c
    }
}

/// Whether two character vectors hold the same text.
pub fn chars_eq(a: &Vec<char>, p: &Vec<char>) -> (r: bool)
    ensures
        r == (a@ == p@),
{
    if a.len() != p.len() {
        proof {
            assert(a@.len() != p@.len());
        }
        return false;
    }
    let mut i: usize = 0;
    while i < a.len()
        invariant
            i <= a@.len(),
            a@.len() == p@.len(),
            forall|j: int| 0 <= j < i ==> a@[j] == p@[j],
        decreases a@.len() - i,
    {
        if a[i] != p[i] {
            return false;
        }
        i = i + 1;
    }
    proof {
        assert(a@ =~= p@);
    }
    true
}

/// `s` with every occurrence of `pat` replaced by `rep`.
fn replace_chars(v: &Vec<char>, pat: &Vec<char>, rep: &Vec<char>) -> (r: Vec<char>)
    requires
        pat@.len() > 0,
    ensures
        r@ == spec_replace(v@, pat@, rep@),
{
    let n = v.len();
    let m = pat.len();
    let mut out: Vec<char> = Vec::new();
    let mut i: usize = 0;
    proof {
        assert(v@.skip(0) =~= v@);
    }
    while i < n
        invariant
            i <= n,
            n == v@.len(),
            m == pat@.len(),
            m > 0,
            spec_replace(v@, pat@, rep@) == out@ + spec_replace(
                v@.skip(i as int),
                pat@,
                rep@,
            ),
        decreases n - i,
    {
        if has_prefix_at(v, i, pat) {
            let ghost pre = out@;
            let mut j: usize = 0;
            while j < rep.len()
                invariant
                    j <= rep@.len(),
                    out@ == pre + rep@.take(j as int),
                decreases rep@.len() - j,
            {
                out.push(rep[j]);
                proof {
                    assert(pre + rep@.take(j as int + 1) =~= (pre + rep@.take(j as int)).push(
                        rep@[j as int],
                    ));
                }
                j = j + 1;
            }
            proof {
                assert(rep@.take(rep@.len() as int) =~= rep@);
                assert(v@.skip(i as int).skip(m as int) =~= v@.skip(i as int + m as int));
                assert((pre + rep@) + spec_replace(v@.skip(i as int + m as int), pat@, rep@)
                    =~= pre + (rep@ + spec_replace(v@.skip(i as int + m as int), pat@, rep@)));
            }
            i = i + m;
        } else {
            proof {
                assert(v@.skip(i as int)[0] == v@[i as int]);
                assert(v@.skip(i as int).drop_first() =~= v@.skip(i as int + 1));
            }
            let ghost pre = out@;
            out.push(v[i]);
            proof {
                let x = spec_replace(v@.skip(i as int + 1), pat@, rep@);
                assert(pre.push(v@[i as int]) + x =~= pre + (seq![v@[i as int]] + x));
            }
            i = i + 1;
        }
    }
    proof {
        assert(v@.skip(n as int).len() == 0);
        assert(out@ + Seq::<char>::empty() =~= out@);
    }
    out
}

/// Strips markup from a document: tags go, block-level tags leave a
/// line break, script and style bodies are dropped, and the fixed
/// entity whitelist is decoded.
pub fn strip_html_tags(html: &str) -> (r: String)
    ensures
        r@ == spec_strip_html(html@),
{
    let chars = str_chars(html);
    let n = chars.len();
    let t_script = chars_of("script");
    let t_cscript = chars_of("/script");
    let t_style = chars_of("style");
    let t_cstyle = chars_of("/style");
    let t_br = chars_of("br");
    let t_brs = chars_of("br/");
    let t_p = chars_of("p");
    let t_cp = chars_of("/p");
    let t_div = chars_of("div");
    let t_cdiv = chars_of("/div");
    let t_li = chars_of("li");
    let t_cli = chars_of("/li");
    proof {
        reveal_strlit("script");
        reveal_strlit("/script");
        reveal_strlit("style");
        reveal_strlit("/style");
        reveal_strlit("br");
        reveal_strlit("br/");
        reveal_strlit("p");
        reveal_strlit("/p");
        reveal_strlit("div");
        reveal_strlit("/div");
        reveal_strlit("li");
        reveal_strlit("/li");
        assert(t_script@ =~= seq!['s', 'c', 'r', 'i', 'p', 't']);
        assert(t_cscript@ =~= seq!['/', 's', 'c', 'r', 'i', 'p', 't']);
        assert(t_style@ =~= seq!['s', 't', 'y', 'l', 'e']);
        assert(t_cstyle@ =~= seq!['/', 's', 't', 'y', 'l', 'e']);
        assert(t_br@ =~= seq!['b', 'r']);
        assert(t_brs@ =~= seq!['b', 'r', '/']);
        assert(t_p@ =~= seq!['p']);
        assert(t_cp@ =~= seq!['/', 'p']);
        assert(t_div@ =~= seq!['d', 'i', 'v']);
        assert(t_cdiv@ =~= seq!['/', 'd', 'i', 'v']);
        assert(t_li@ =~= seq!['l', 'i']);
        assert(t_cli@ =~= seq!['/', 'l', 'i']);
    }
    let mut out: Vec<char> = Vec::new();
    let mut in_tag: bool = false;
    let mut in_script: bool = false;
    let mut in_style: bool = false;
    let mut tag: Vec<char> = Vec::new();
    let mut capturing: bool = false;
    let mut i: usize = 0;
    proof {
        assert(chars@.skip(0) =~= chars@);
    }
    while i < n
        invariant
            n == chars@.len(),
            chars@ == html@,
            i <= n,
            t_script@ == seq!['s', 'c', 'r', 'i', 'p', 't'],
            t_cscript@ == seq!['/', 's', 'c', 'r', 'i', 'p', 't'],
            t_style@ == seq!['s', 't', 'y', 'l', 'e'],
            t_cstyle@ == seq!['/', 's', 't', 'y', 'l', 'e'],
            t_br@ == seq!['b', 'r'],
            t_brs@ == seq!['b', 'r', '/'],
            t_p@ == seq!['p'],
            t_cp@ == seq!['/', 'p'],
            t_div@ == seq!['d', 'i', 'v'],
            t_cdiv@ == seq!['/', 'd', 'i', 'v'],
            t_li@ == seq!['l', 'i'],
            t_cli@ == seq!['/', 'l', 'i'],
            strip_acc(chars@, false, false, false, Seq::empty(), false) == out@ + strip_acc(
                chars@.skip(i as int),
                in_tag,
                in_script,
                in_style,
                tag@,
                capturing,
            ),
        decreases n - i,
    {
        let c = chars[i];
        proof {
            assert(chars@.skip(i as int)[0] == chars@[i as int]);
            assert(chars@.skip(i as int).drop_first() =~= chars@.skip(i as int + 1));
        }
        let ghost pre = out@;
        let ghost pretag = tag@;
        if c == '<' {
            in_tag = true;
            tag = Vec::new();
            capturing = true;
            proof {
                assert(tag@ =~= Seq::<char>::empty());
            }
        } else if c == '>' {
            in_tag = false;
            let is_script_open = chars_eq(&tag, &t_script);
            let is_script_close = chars_eq(&tag, &t_cscript);
            let is_style_open = chars_eq(&tag, &t_style);
            let is_style_close = chars_eq(&tag, &t_cstyle);
            if is_script_open {
                in_script = true;
            } else if is_script_close {
                in_script = false;
            } else if is_style_open {
                in_style = true;
            } else if is_style_close {
                in_style = false;
            } else {
                let is_break = chars_eq(&tag, &t_br) || chars_eq(&tag, &t_brs) || chars_eq(
                    &tag,
                    &t_p,
                ) || chars_eq(&tag, &t_cp) || chars_eq(&tag, &t_div) || chars_eq(&tag, &t_cdiv)
                    || chars_eq(&tag, &t_li) || chars_eq(&tag, &t_cli);
                if is_break {
                    out.push('\n');
                }
            }
            capturing = false;
            proof {
                if out@ != pre {
                    assert(out@ =~= pre + seq!['\n']);
                    let x = strip_acc(
                        chars@.skip(i as int + 1),
                        in_tag,
                        in_script,
                        in_style,
                        tag@,
                        capturing,
                    );
                    assert((pre + seq!['\n']) + x =~= pre + (seq!['\n'] + x));
                } else {
                    let x = strip_acc(
                        chars@.skip(i as int + 1),
                        in_tag,
                        in_script,
                        in_style,
                        tag@,
                        capturing,
                    );
                    assert(pre + (Seq::<char>::empty() + x) =~= pre + x);
                }
            }
        } else if in_tag {
            if capturing {
                if is_tag_blank(c) || (c == '/' && tag.len() == 0) {
                    if tag.len() > 0 {
                        capturing = false;
                    } else if c == '/' {
                        tag.push(c);
                    }
                } else {
                    tag.push(lower_char_exec(c));
                }
            }
            proof {
                assert((tag@, capturing) == tag_step(pretag, true, chars@[i as int])
                    || (tag@, capturing) == tag_step(pretag, false, chars@[i as int]));
            }
        } else if in_script || in_style {
        } else {
            out.push(c);
            proof {
                let x = strip_acc(
                    chars@.skip(i as int + 1),
                    in_tag,
                    in_script,
                    in_style,
                    tag@,
                    capturing,
                );
                assert(pre.push(chars@[i as int]) + x =~= pre + (seq![chars@[i as int]] + x));
            }
        }
        i = i + 1;
    }
    proof {
        assert(chars@.skip(n as int).len() == 0);
        assert(out@ + Seq::<char>::empty() =~= out@);
    }
    decode_entities(&out)
}

/// The characters of a literal.
fn chars_of(s: &str) -> (r: Vec<char>)
    ensures
        r@ == s@,
{
    str_chars(s)
}

/// Applies the entity whitelist, in its fixed order.
fn decode_entities(v: &Vec<char>) -> (r: String)
    ensures
        r@ == spec_decode_entities(v@),
{
    proof {
        reveal_strlit("&amp;");
        reveal_strlit("&lt;");
        reveal_strlit("&gt;");
        reveal_strlit("&quot;");
        reveal_strlit("&#39;");
        reveal_strlit("&apos;");
        reveal_strlit("&#x27;");
        reveal_strlit("&nbsp;");
        reveal_strlit("&#160;");
    }
    let s1 = replace_chars(v, &chars_of("&amp;"), &chars_of("&"));
    let s2 = replace_chars(&s1, &chars_of("&lt;"), &chars_of("<"));
    let s3 = replace_chars(&s2, &chars_of("&gt;"), &chars_of(">"));
    let s4 = replace_chars(&s3, &chars_of("&quot;"), &chars_of("\""));
    let s5 = replace_chars(&s4, &chars_of("&#39;"), &chars_of("'"));
    let s6 = replace_chars(&s5, &chars_of("&apos;"), &chars_of("'"));
    let s7 = replace_chars(&s6, &chars_of("&#x27;"), &chars_of("'"));
    let s8 = replace_chars(&s7, &chars_of("&nbsp;"), &chars_of(" "));
    let s9 = replace_chars(&s8, &chars_of("&#160;"), &chars_of(" "));
    chars_to_string(&s9)
}

/// Bytes of one character in UTF-8.
pub open spec fn char_utf8_len(c: char) -> nat {
    if (c as u32) < 0x80 {
        1
    } else if (c as u32) < 0x800 {
        2
    } else if (c as u32) < 0x10000 {
        3
    } else {
        4
    }
}

/// Length of the longest prefix of `s` that fits a UTF-8 byte budget.
pub open spec fn bytes_fit_len(s: Seq<char>, budget: int) -> nat
    decreases s.len(),
{
    if s.len() == 0 {
        0
    } else if char_utf8_len(s[0]) > budget {
        0
    } else {
        1 + bytes_fit_len(s.drop_first(), budget - char_utf8_len(s[0]))
    }
}

/// Cuts `s` to the longest prefix whose UTF-8 encoding stays within
/// `budget` bytes, never splitting a character.
pub fn truncate_bytes(s: &str, budget: usize) -> (r: String)
    ensures
        r@ == s@.take(bytes_fit_len(s@, budget as int) as int),
{
    let chars = str_chars(s);
    let n = chars.len();
    let mut out: Vec<char> = Vec::new();
    let mut used: usize = 0;
    let mut i: usize = 0;
    let mut broke: bool = false;
    proof {
        assert(chars@.skip(0) =~= chars@);
    }
    while i < n && !broke
        invariant
            n == chars@.len(),
            chars@ == s@,
            i <= n,
            out@ == chars@.take(i as int),
            used <= budget,
            !broke ==> bytes_fit_len(chars@, budget as int) == i + bytes_fit_len(
                chars@.skip(i as int),
                budget - used,
            ),
            broke ==> bytes_fit_len(chars@, budget as int) == i,
        decreases n - i + (if broke { 0int } else { 1int }),
    {
        let c = chars[i];
        let cl: usize = if (c as u32) < 0x80 {
            1
        } else if (c as u32) < 0x800 {
            2
        } else if (c as u32) < 0x10000 {
            3
        } else {
            4
        };
        proof {
            assert(chars@.skip(i as int)[0] == chars@[i as int]);
            assert(cl == char_utf8_len(c));
        }
        if cl > budget - used {
            broke = true;
            proof {
                assert(bytes_fit_len(chars@.skip(i as int), budget - used) == 0);
            }
        } else {
            out.push(c);
            used = used + cl;
            proof {
                assert(chars@.take(i + 1) =~= chars@.take(i as int).push(c));
                assert(chars@.skip(i as int).drop_first() =~= chars@.skip(i + 1));
            }
            i = i + 1;
        }
    }
    proof {
        if !broke {
            assert(chars@.skip(n as int).len() == 0);
            assert(bytes_fit_len(chars@.skip(n as int), budget - used) == 0);
        }
    }
    chars_to_string(&out)
}

} // verus!
