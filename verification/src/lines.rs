//! The lines of a text, each without the whitespace around it.
//!
//! A text is cut at every line feed; a last line need not end in one. Of each
//! line the whitespace at both ends is dropped, a carriage return before the
//! line feed included.

use vstd::prelude::*;
use crate::model::texts_view;

verus! {

/// The characters that count as whitespace: those with the Unicode property
/// `White_Space`.
pub open spec fn is_whitespace(c: char) -> bool {
    let v = c as u32;
    ||| 0x09 <= v <= 0x0D
    ||| v == 0x20
    ||| v == 0x85
    ||| v == 0xA0
    ||| v == 0x1680
    ||| 0x2000 <= v <= 0x200A
    ||| v == 0x2028
    ||| v == 0x2029
    ||| v == 0x202F
    ||| v == 0x205F
    ||| v == 0x3000
}

/// `s` without the whitespace at its start.
pub open spec fn trim_start(s: Seq<char>) -> Seq<char>
    decreases s.len(),
{
    if s.len() > 0 && is_whitespace(s.first()) {
        trim_start(s.drop_first())
    } else {
        s
    }
}

/// `s` without the whitespace at its end.
pub open spec fn trim_end(s: Seq<char>) -> Seq<char>
    decreases s.len(),
{
    if s.len() > 0 && is_whitespace(s.last()) {
        trim_end(s.drop_last())
    } else {
        s
    }
}

/// `s` without the whitespace at its start and at its end.
pub open spec fn trimmed(s: Seq<char>) -> Seq<char> {
    trim_end(trim_start(s))
}

/// How many characters stand before the first line feed of `s`, or in all
/// of `s` if it holds none.
pub open spec fn line_end(s: Seq<char>) -> int
    decreases s.len(),
{
    if s.len() == 0 || s.first() == '\n' {
        0
    } else {
        1 + line_end(s.drop_first())
    }
}

/// The lines of `s`: the pieces between its line feeds. A line feed at the
/// very end opens no further line, and the empty text has no line.
pub open spec fn split_lines(s: Seq<char>) -> Seq<Seq<char>>
    decreases s.len(),
{
    if s.len() == 0 {
        Seq::empty()
    } else {
        let n = line_end(s);
        if 0 <= n < s.len() {
            seq![s.take(n)] + split_lines(s.skip(n + 1))
        } else {
            seq![s]
        }
    }
}

/// Each line of a list, trimmed.
pub open spec fn trim_each(lines: Seq<Seq<char>>) -> Seq<Seq<char>> {
    lines.map_values(|line: Seq<char>| trimmed(line))
}

/// The lines of `text`, each trimmed.
pub open spec fn trimmed_lines_of(text: Seq<char>) -> Seq<Seq<char>> {
    trim_each(split_lines(text))
}

/// If no line feed stands before index `n` of `s`, and one stands at `n` or
/// `s` ends there, then `n` is where the first line of `s` ends.
pub proof fn lemma_line_end_is(s: Seq<char>, n: int)
    requires
        0 <= n <= s.len(),
        forall|k: int| 0 <= k < n ==> s[k] != '\n',
        n == s.len() || s[n] == '\n',
    ensures
        line_end(s) == n,
    decreases n,
{
    if n > 0 {
        let rest = s.drop_first();
        assert forall|k: int| 0 <= k < n - 1 implies rest[k] != '\n' by {
            assert(rest[k] == s[k + 1]);
        }
        lemma_line_end_is(rest, n - 1);
    }
}

/// Decides `is_whitespace`.
pub fn char_is_whitespace(c: char) -> (r: bool)
    ensures
        r == is_whitespace(c),
{
    let v: u32 = c as u32;
    (0x09 <= v && v <= 0x0D) || v == 0x20 || v == 0x85 || v == 0xA0 || v == 0x1680 || (0x2000 <= v
        && v <= 0x200A) || v == 0x2028 || v == 0x2029 || v == 0x202F || v == 0x205F || v == 0x3000
}

/// The characters of a text, one by one.
pub fn text_chars(text: &str) -> (chars: Vec<char>)
    ensures
        chars@ == text@,
{
    let mut chars: Vec<char> = Vec::new();
    for c in it: text.chars()
        invariant
            it.seq() == text@,
            chars@ == text@.take(it.index() as int),
    {
        proof {
            assert(text@.take(it.index() + 1) =~= text@.take(it.index() as int).push(c));
        }
        chars.push(c);
    }
    proof {
        assert(text@.take(text@.len() as int) =~= text@);
    }
    chars
}

/// Where the part of `chars` from `from` up to `to` begins and ends once the
/// whitespace at its two ends is left out.
pub fn trim_bounds(chars: &Vec<char>, from: usize, to: usize) -> (r: (usize, usize))
    requires
        from <= to <= chars.len(),
    ensures
        from <= r.0 <= r.1 <= to,
        chars@.subrange(r.0 as int, r.1 as int) == trimmed(chars@.subrange(from as int, to as int)),
{
    let mut a: usize = from;
    while a < to && char_is_whitespace(chars[a])
        invariant
            from <= a <= to <= chars.len(),
            trim_start(chars@.subrange(from as int, to as int)) == trim_start(
                chars@.subrange(a as int, to as int),
            ),
        decreases to - a,
    {
        proof {
            let part = chars@.subrange(a as int, to as int);
            assert(part.first() == chars@[a as int]);
            assert(part.drop_first() =~= chars@.subrange(a + 1, to as int));
        }
        a += 1;
    }
    proof {
        let part = chars@.subrange(a as int, to as int);
        if a < to {
            assert(part.first() == chars@[a as int]);
        }
        assert(trim_start(part) == part);
    }
    let mut b: usize = to;
    while b > a && char_is_whitespace(chars[b - 1])
        invariant
            a <= b <= to <= chars.len(),
            trim_end(chars@.subrange(a as int, to as int)) == trim_end(
                chars@.subrange(a as int, b as int),
            ),
        decreases b,
    {
        proof {
            let part = chars@.subrange(a as int, b as int);
            assert(part.last() == chars@[b - 1]);
            assert(part.drop_last() =~= chars@.subrange(a as int, b - 1));
        }
        b -= 1;
    }
    proof {
        let part = chars@.subrange(a as int, b as int);
        if b > a {
            assert(part.last() == chars@[b - 1]);
        }
        assert(trim_end(part) == part);
    }
    (a, b)
}

/// The lines of `text`, in order, each without the whitespace around it.
pub fn trimmed_lines(text: &str) -> (lines: Vec<String>)
    ensures
        texts_view(lines@) == trimmed_lines_of(text@),
{
    let chars = text_chars(text);
    let ghost all = chars@;
    let ghost mut raw: Seq<Seq<char>> = Seq::empty();
    let mut lines: Vec<String> = Vec::new();
    let mut start: usize = 0;
    let mut i: usize = 0;
    proof {
        assert(all.skip(0) =~= all);
        assert(texts_view(lines@) =~= trim_each(raw));
    }
    while i < chars.len()
        invariant
            all == chars@,
            all == text@,
            start <= i <= chars.len(),
            forall|k: int| start <= k < i ==> all[k] != '\n',
            split_lines(all) == raw + split_lines(all.skip(start as int)),
            lines@.len() == raw.len(),
            texts_view(lines@) == trim_each(raw),
        decreases chars.len() - i,
    {
        if chars[i] == '\n' {
            let (a, b) = trim_bounds(&chars, start, i);
            let line = text.substring_char(a, b).to_owned();
            proof {
                let rest = all.skip(start as int);
                let n = i - start;
                assert forall|k: int| 0 <= k < n implies rest[k] != '\n' by {
                    assert(rest[k] == all[start + k]);
                }
                assert(rest[n] == all[i as int]);
                lemma_line_end_is(rest, n);
                assert(rest.take(n) =~= all.subrange(start as int, i as int));
                assert(rest.skip(n + 1) =~= all.skip(i + 1));
                let piece = all.subrange(start as int, i as int);
                assert(raw + (seq![piece] + split_lines(all.skip(i + 1))) =~= raw.push(piece)
                    + split_lines(all.skip(i + 1)));
                assert(line@ == trimmed(piece));
                let before = texts_view(lines@);
                let after = texts_view(lines@.push(line));
                assert forall|k: int| 0 <= k < after.len() implies after[k] == trim_each(
                    raw.push(piece),
                )[k] by {
                    if k < lines@.len() {
                        assert(after[k] == before[k]);
                        assert(before[k] == trim_each(raw)[k]);
                    }
                }
                assert(after =~= trim_each(raw.push(piece)));
                raw = raw.push(piece);
            }
            lines.push(line);
            start = i + 1;
        }
        i += 1;
    }
    if start < chars.len() {
        let (a, b) = trim_bounds(&chars, start, chars.len());
        let line = text.substring_char(a, b).to_owned();
        proof {
            let rest = all.skip(start as int);
            assert forall|k: int| 0 <= k < rest.len() implies rest[k] != '\n' by {
                assert(rest[k] == all[start + k]);
            }
            lemma_line_end_is(rest, rest.len() as int);
            assert(rest =~= all.subrange(start as int, all.len() as int));
            assert(raw + seq![rest] =~= raw.push(rest));
            assert(line@ == trimmed(rest));
            let before = texts_view(lines@);
            let after = texts_view(lines@.push(line));
            assert forall|k: int| 0 <= k < after.len() implies after[k] == trim_each(
                raw.push(rest),
            )[k] by {
                if k < lines@.len() {
                    assert(after[k] == before[k]);
                    assert(before[k] == trim_each(raw)[k]);
                }
            }
            assert(after =~= trim_each(raw.push(rest)));
        }
        lines.push(line);
    } else {
        proof {
            assert(all.skip(start as int).len() == 0);
            assert(raw + Seq::<Seq<char>>::empty() =~= raw);
        }
    }
    lines
}

} // verus!
