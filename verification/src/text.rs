//! Character-level text utilities: splitting, searching and comparing,
//! with their specification-level counterparts.

use vstd::prelude::*;

verus! {

use vstd::string::{StrSliceExecFns, StringExecFns};

use crate::encoding::push_char;

/// The pieces of `s` between occurrences of `sep`: always one more piece
/// than there are separators, empty pieces included.
pub open spec fn split_char(s: Seq<char>, sep: char) -> Seq<Seq<char>>
    decreases s.len(),
{
    if s.len() == 0 {
        seq![Seq::empty()]
    } else if s[0] == sep {
        seq![Seq::<char>::empty()] + split_char(s.drop_first(), sep)
    } else {
        let rest = split_char(s.drop_first(), sep);
        seq![seq![s[0]] + rest[0]] + rest.drop_first()
    }
}

pub proof fn lemma_split_char_len(s: Seq<char>, sep: char)
    ensures
        split_char(s, sep).len() >= 1,
    decreases s.len(),
{
    if s.len() == 0 {
    } else {
        lemma_split_char_len(s.drop_first(), sep);
    }
}

/// Splitting a string that begins with a separator-free piece yields that
/// piece glued onto the first piece of the rest's split.
pub proof fn lemma_split_char_prefix(t: Seq<char>, s2: Seq<char>, sep: char)
    requires
        forall|j: int| 0 <= j < t.len() ==> t[j] != sep,
    ensures
        split_char(t + s2, sep) =~~= seq![t + split_char(s2, sep)[0]] + split_char(
            s2,
            sep,
        ).drop_first(),
    decreases t.len(),
{
    lemma_split_char_len(s2, sep);
    if t.len() == 0 {
        assert(t + s2 =~= s2);
        assert(t + split_char(s2, sep)[0] =~= split_char(s2, sep)[0]);
        assert(seq![split_char(s2, sep)[0]] + split_char(s2, sep).drop_first() =~~= split_char(
            s2,
            sep,
        ));
    } else {
        let u = t + s2;
        assert(u[0] == t[0]);
        assert(u.drop_first() =~= t.drop_first() + s2);
        lemma_split_char_prefix(t.drop_first(), s2, sep);
        assert(seq![u[0]] + (t.drop_first() + split_char(s2, sep)[0]) =~= t + split_char(
            s2,
            sep,
        )[0]);
    }
}

/// Split a string on a separator character.
pub fn split_on(s: &str, sep: char) -> (r: Vec<String>)
    ensures
        r.deep_view() == split_char(s@, sep),
{
    let len = s.unicode_len();
    let mut pieces: Vec<String> = Vec::new();
    let mut cur = String::new();
    let mut i: usize = 0;
    proof {
        lemma_split_char_len(s@, sep);
        assert(s@.skip(0) =~= s@);
        assert(pieces.deep_view() =~~= Seq::<Seq<char>>::empty());
        assert(cur@ + split_char(s@, sep)[0] =~= split_char(s@, sep)[0]);
        assert(split_char(s@, sep) =~~= pieces.deep_view() + seq![
            cur@ + split_char(s@.skip(0), sep)[0],
        ] + split_char(s@.skip(0), sep).drop_first());
    }
    while i < len
        invariant
            len == s@.len(),
            0 <= i <= len,
            split_char(s@, sep) == pieces.deep_view() + seq![
                cur@ + split_char(s@.skip(i as int), sep)[0],
            ] + split_char(s@.skip(i as int), sep).drop_first(),
        decreases len - i,
    {
        let c = s.get_char(i);
        proof {
            let tail = s@.skip(i + 1 as int);
            assert(s@.skip(i as int) =~= seq![s@[i as int]] + tail);
            assert((seq![s@[i as int]] + tail).drop_first() =~= tail);
            lemma_split_char_len(tail, sep);
        }
        if c == sep {
            let ghost old_pieces = pieces.deep_view();
            let ghost old_cur = cur@;
            pieces.push(cur);
            cur = String::new();
            proof {
                let tail = s@.skip(i + 1 as int);
                assert(pieces.deep_view() =~~= old_pieces.push(old_cur));
                assert(old_cur + split_char(s@.skip(i as int), sep)[0] =~= old_cur);
                assert(cur@ + split_char(tail, sep)[0] =~= split_char(tail, sep)[0]);
                assert(split_char(s@, sep) =~~= pieces.deep_view() + seq![
                    cur@ + split_char(tail, sep)[0],
                ] + split_char(tail, sep).drop_first());
            }
        } else {
            let ghost old_cur = cur@;
            push_char(&mut cur, c);
            proof {
                let tail = s@.skip(i + 1 as int);
                assert(old_cur + (seq![s@[i as int]] + split_char(tail, sep)[0]) =~= cur@
                    + split_char(tail, sep)[0]);
                assert(split_char(s@, sep) =~~= pieces.deep_view() + seq![
                    cur@ + split_char(tail, sep)[0],
                ] + split_char(tail, sep).drop_first());
            }
        }
        i += 1;
    }
    proof {
        assert(s@.skip(len as int) =~= Seq::<char>::empty());
        assert(cur@ + split_char(Seq::<char>::empty(), sep)[0] =~= cur@);
    }
    let ghost old_pieces = pieces.deep_view();
    let ghost last = cur@;
    pieces.push(cur);
    proof {
        assert(pieces.deep_view() =~~= old_pieces.push(last));
        assert(old_pieces + seq![last] + Seq::<Seq<char>>::empty() =~~= old_pieces.push(last));
    }
    pieces
}

/// The index of the first occurrence of `c` in `s`, if any.
pub open spec fn find_char(s: Seq<char>, c: char) -> Option<int>
    decreases s.len(),
{
    if s.len() == 0 {
        None
    } else if s[0] == c {
        Some(0)
    } else {
        match find_char(s.drop_first(), c) {
            Some(i) => Some(i + 1),
            None => None,
        }
    }
}

/// `find_char` yields the first occurrence: the found index holds `c` and
/// nothing before it does; `None` means `c` does not occur at all.
pub proof fn lemma_find_char(s: Seq<char>, c: char)
    ensures
        match find_char(s, c) {
            Some(i) => 0 <= i < s.len() && s[i] == c && forall|j: int| 0 <= j < i ==> s[j] != c,
            None => forall|j: int| 0 <= j < s.len() ==> s[j] != c,
        },
    decreases s.len(),
{
    if s.len() == 0 {
    } else if s[0] == c {
    } else {
        lemma_find_char(s.drop_first(), c);
        assert(forall|j: int| 1 <= j < s.len() ==> s[j] == s.drop_first()[j - 1]);
    }
}

/// Find the first occurrence of a character.
pub fn find_in_str(s: &str, c: char) -> (r: Option<usize>)
    ensures
        match r {
            Some(i) => find_char(s@, c) == Some(i as int),
            None => find_char(s@, c) is None,
        },
{
    proof {
        lemma_find_char(s@, c);
    }
    let len = s.unicode_len();
    let mut i: usize = 0;
    while i < len
        invariant
            len == s@.len(),
            0 <= i <= len,
            forall|j: int| 0 <= j < i ==> s@[j] != c,
            match find_char(s@, c) {
                Some(k) => 0 <= k < s@.len() && s@[k] == c && forall|j: int|
                    0 <= j < k ==> s@[j] != c,
                None => forall|j: int| 0 <= j < s@.len() ==> s@[j] != c,
            },
        decreases len - i,
    {
        if s.get_char(i) == c {
            return Some(i);
        }
        i += 1;
    }
    None
}

/// Compare two strings character by character.
pub fn str_eq(a: &str, b: &str) -> (r: bool)
    ensures
        r == (a@ == b@),
{
    let la = a.unicode_len();
    let lb = b.unicode_len();
    if la != lb {
        return false;
    }
    let mut i: usize = 0;
    while i < la
        invariant
            la == a@.len(),
            la == b@.len(),
            0 <= i <= la,
            forall|j: int| 0 <= j < i ==> a@[j] == b@[j],
        decreases la - i,
    {
        if a.get_char(i) != b.get_char(i) {
            return false;
        }
        i += 1;
    }
    proof {
        assert(a@ =~= b@);
    }
    true
}

/// The Unicode `White_Space` characters, as `char::is_whitespace` lists
/// them.
pub open spec fn is_space_char(c: char) -> bool {
    c == ' ' || c == '\t' || c == '\n' || c == '\u{b}' || c == '\u{c}' || c == '\r' || c == '\u{85}'
        || c == '\u{a0}' || c == '\u{1680}' || ('\u{2000}' <= c && c <= '\u{200a}') || c
        == '\u{2028}' || c == '\u{2029}' || c == '\u{202f}' || c == '\u{205f}' || c == '\u{3000}'
}

/// Decide [`is_space_char`].
pub fn is_space(c: char) -> (r: bool)
    ensures
        r == is_space_char(c),
{
    c == ' ' || c == '\t' || c == '\n' || c == '\u{b}' || c == '\u{c}' || c == '\r' || c == '\u{85}'
        || c == '\u{a0}' || c == '\u{1680}' || ('\u{2000}' <= c && c <= '\u{200a}') || c
        == '\u{2028}' || c == '\u{2029}' || c == '\u{202f}' || c == '\u{205f}' || c == '\u{3000}'
}

/// True when the line holds nothing but whitespace.
pub open spec fn line_is_blank(l: Seq<char>) -> bool {
    forall|i: int| 0 <= i < l.len() ==> is_space_char(#[trigger] l[i])
}

/// Decide [`line_is_blank`].
pub fn is_blank(l: &str) -> (r: bool)
    ensures
        r == line_is_blank(l@),
{
    let len = l.unicode_len();
    let mut i: usize = 0;
    while i < len
        invariant
            len == l@.len(),
            0 <= i <= len,
            forall|j: int| 0 <= j < i ==> is_space_char(#[trigger] l@[j]),
        decreases len - i,
    {
        if !is_space(l.get_char(i)) {
            return false;
        }
        i += 1;
    }
    true
}

/// A line piece with one trailing carriage return removed.
pub open spec fn strip_cr(l: Seq<char>) -> Seq<char> {
    if l.len() > 0 && l[l.len() - 1] == '\r' {
        l.drop_last()
    } else {
        l
    }
}

/// The lines of a text, as `str::lines` cuts them: pieces between newline
/// characters, each newline-terminated piece with one trailing carriage
/// return removed, and no empty final piece after a terminating newline.
pub open spec fn lines_of(s: Seq<char>) -> Seq<Seq<char>> {
    let p = split_char(s, '\n');
    let terminated = p.take(p.len() - 1).map_values(|l: Seq<char>| strip_cr(l));
    if p.last().len() == 0 {
        terminated
    } else {
        terminated + seq![p.last()]
    }
}

/// Cut a text into lines.
pub fn split_lines(s: &str) -> (r: Vec<String>)
    ensures
        r.deep_view() == lines_of(s@),
{
    let pieces = split_on(s, '\n');
    let ghost p = split_char(s@, '\n');
    proof {
        lemma_split_char_len(s@, '\n');
    }
    let n = pieces.len();
    let mut out: Vec<String> = Vec::new();
    let mut i: usize = 0;
    while i < n - 1
        invariant
            n == p.len(),
            n >= 1,
            pieces.deep_view() == p,
            pieces.len() == n,
            0 <= i <= n - 1,
            out.deep_view() =~~= p.take(p.len() - 1).map_values(|l: Seq<char>| strip_cr(l)).take(
                i as int,
            ),
        decreases n - 1 - i,
    {
        let piece = &pieces[i];
        let plen = piece.unicode_len();
        let stripped: String = if plen > 0 && piece.as_str().get_char(plen - 1) == '\r' {
            String::from_str(piece.as_str().substring_char(0, plen - 1))
        } else {
            piece.clone()
        };
        proof {
            assert(piece@ == p[i as int]);
            assert(stripped@ =~= strip_cr(p[i as int]));
        }
        let ghost old_out = out.deep_view();
        out.push(stripped);
        proof {
            let m = p.take(p.len() - 1).map_values(|l: Seq<char>| strip_cr(l));
            assert(out.deep_view() =~~= old_out.push(strip_cr(p[i as int])));
            assert(m.take(i + 1 as int) =~~= m.take(i as int).push(m[i as int]));
            assert(m[i as int] == strip_cr(p[i as int]));
        }
        i += 1;
    }
    proof {
        let m = p.take(p.len() - 1).map_values(|l: Seq<char>| strip_cr(l));
        assert(m.take(m.len() as int) =~~= m);
    }
    let last = &pieces[n - 1];
    if last.unicode_len() > 0 {
        let ghost old_out = out.deep_view();
        let kept = last.clone();
        out.push(kept);
        proof {
            let m = p.take(p.len() - 1).map_values(|l: Seq<char>| strip_cr(l));
            assert(out.deep_view() =~~= m + seq![p.last()]);
            assert(out.deep_view() =~~= lines_of(s@));
        }
    } else {
        proof {
            assert(out.deep_view() =~~= lines_of(s@));
        }
    }
    out
}

} // verus!
