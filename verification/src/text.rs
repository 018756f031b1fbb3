//! Character-level text operations: locating a separator, splitting a line
//! around it, stripping quote characters, splitting a document into lines,
//! and lexicographic comparison of strings.
//!
//! Every executable function is specified against a spec function over
//! `Seq<char>`, so the parsing layers above can be stated purely over views.

use vstd::prelude::*;

verus! {

/// Index of the first occurrence of `c` in `s`, if any.
pub open spec fn find_ch(s: Seq<char>, c: char) -> Option<int>
    decreases s.len(),
{
    if s.len() == 0 {
        None
    } else if s[0] == c {
        Some(0int)
    } else {
        match find_ch(s.drop_first(), c) {
            None => None,
            Some(i) => Some(i + 1),
        }
    }
}

/// `find_ch` returns the first occurrence of `c`, or `None` when `c` is absent.
pub proof fn lemma_find_ch(s: Seq<char>, c: char)
    ensures
        match find_ch(s, c) {
            Some(i) => 0 <= i < s.len() && s[i] == c && (forall|j: int| 0 <= j < i ==> s[j] != c),
            None => forall|j: int| 0 <= j < s.len() ==> s[j] != c,
        },
    decreases s.len(),
{
    if s.len() == 0 {
    } else if s[0] == c {
    } else {
        lemma_find_ch(s.drop_first(), c);
        assert(forall|j: int| 1 <= j < s.len() ==> s[j] == s.drop_first()[j - 1]);
    }
}

/// The part of `s` strictly before index `i`; all of `s` when `i` is not a
/// valid bound.
pub open spec fn before_idx(s: Seq<char>, i: int) -> Seq<char> {
    if 0 <= i <= s.len() {
        s.subrange(0, i)
    } else {
        s
    }
}

/// The part of `s` strictly after index `i`; empty when `i` is not a valid
/// index.
pub open spec fn after_idx(s: Seq<char>, i: int) -> Seq<char> {
    if 0 <= i < s.len() {
        s.subrange(i + 1, s.len() as int)
    } else {
        Seq::empty()
    }
}

/// Everything before the first occurrence of `c` (all of `s` if `c` is
/// absent).
pub open spec fn before_ch(s: Seq<char>, c: char) -> Seq<char> {
    match find_ch(s, c) {
        None => s,
        Some(i) => before_idx(s, i),
    }
}

/// Everything after the first occurrence of `c` (empty if `c` is absent).
pub open spec fn after_ch(s: Seq<char>, c: char) -> Seq<char> {
    match find_ch(s, c) {
        None => Seq::empty(),
        Some(i) => after_idx(s, i),
    }
}

/// Index of the first occurrence of `c` in `s`, if any.
pub fn find_char(s: &str, c: char) -> (r: Option<usize>)
    ensures
        match r {
            Some(i) => find_ch(s@, c) == Some(i as int),
            None => find_ch(s@, c) is None,
        },
{
    let n = s.unicode_len();
    let mut i: usize = 0;
    while i < n
        invariant
            n == s@.len(),
            0 <= i <= n,
            forall|j: int| 0 <= j < i ==> s@[j] != c,
        decreases n - i,
    {
        if s.get_char(i) == c {
            proof {
                lemma_find_ch(s@, c);
            }
            return Some(i);
        }
        i = i + 1;
    }
    proof {
        lemma_find_ch(s@, c);
    }
    None
}

/// Splits `s` around the first occurrence of `c`: the part before it and the
/// part after it. Without an occurrence, the whole of `s` and the empty
/// string.
pub fn split_first<'a>(s: &'a str, c: char) -> (r: (&'a str, &'a str))
    ensures
        r.0@ == before_ch(s@, c),
        r.1@ == after_ch(s@, c),
{
    let n = s.unicode_len();
    match find_char(s, c) {
        Some(i) => {
            proof {
                lemma_find_ch(s@, c);
            }
            (s.substring_char(0, i), s.substring_char(i + 1, n))
        },
        None => {
            let empty = "";
            proof {
                reveal_strlit("");
                assert(empty@ =~= Seq::<char>::empty());
            }
            (s, empty)
        },
    }
}

/// Whether two strings hold the same characters.
pub fn str_eq(a: &str, b: &str) -> (r: bool)
    ensures
        r == (a@ == b@),
{
    let na = a.unicode_len();
    let nb = b.unicode_len();
    if na != nb {
        return false;
    }
    let mut i: usize = 0;
    while i < na
        invariant
            na == a@.len(),
            nb == b@.len(),
            na == nb,
            0 <= i <= na,
            forall|j: int| 0 <= j < i ==> a@[j] == b@[j],
        decreases na - i,
    {
        if a.get_char(i) != b.get_char(i) {
            return false;
        }
        i = i + 1;
    }
    proof {
        assert(a@ =~= b@);
    }
    true
}

/// Whether `c` is one of the two quote characters that attribute values shed.
pub open spec fn is_quote(c: char) -> bool {
    c == '"' || c == '\''
}

/// `s` with every double- and single-quote character removed.
pub open spec fn strip_quotes(s: Seq<char>) -> Seq<char>
    decreases s.len(),
{
    if s.len() == 0 {
        Seq::empty()
    } else {
        let rest = strip_quotes(s.drop_last());
        if is_quote(s.last()) {
            rest
        } else {
            rest.push(s.last())
        }
    }
}

/// Copy of `s` with every double- and single-quote character removed.
pub fn remove_quotes(s: &str) -> (r: String)
    ensures
        r@ == strip_quotes(s@),
{
    let n = s.unicode_len();
    let mut out = String::new();
    let mut i: usize = 0;
    while i < n
        invariant
            n == s@.len(),
            0 <= i <= n,
            out@ == strip_quotes(s@.subrange(0, i as int)),
        decreases n - i,
    {
        let c = s.get_char(i);
        proof {
            assert(s@.subrange(0, i + 1int).drop_last() =~= s@.subrange(0, i as int));
            assert(s@.subrange(0, i + 1int).last() == s@[i as int]);
        }
        if !(c == '"' || c == '\'') {
            let piece = s.substring_char(i, i + 1);
            out.append(piece);
            proof {
                assert(out@ =~= strip_quotes(s@.subrange(0, i as int)).push(s@[i as int]));
            }
        }
        i = i + 1;
    }
    proof {
        assert(s@.subrange(0, n as int) =~= s@);
    }
    out
}

/// A line with one trailing carriage return removed, as a line ending in
/// `\r\n` leaves one behind after splitting on `\n`.
pub open spec fn strip_cr(l: Seq<char>) -> Seq<char> {
    if l.len() > 0 && l.last() == '\r' {
        l.drop_last()
    } else {
        l
    }
}

/// The non-empty lines of `text`, in order: `text` is split on `\n`, each
/// piece sheds one trailing `\r`, and empty pieces are dropped.
pub open spec fn spec_lines(text: Seq<char>) -> Seq<Seq<char>>
    decreases text.len(),
{
    if text.len() == 0 {
        Seq::empty()
    } else {
        match find_ch(text, '\n') {
            None => {
                let l = strip_cr(text);
                if l.len() > 0 {
                    seq![l]
                } else {
                    Seq::empty()
                }
            },
            Some(i) => {
                let l = strip_cr(before_idx(text, i));
                let rest = spec_lines(after_idx(text, i));
                if l.len() > 0 {
                    seq![l] + rest
                } else {
                    rest
                }
            },
        }
    }
}

/// The views of a sequence of strings.
pub open spec fn views_of(s: Seq<String>) -> Seq<Seq<char>> {
    s.map_values(|x: String| x@)
}

/// One line with a trailing carriage return removed.
fn strip_cr_exec<'a>(l: &'a str) -> (r: &'a str)
    ensures
        r@ == strip_cr(l@),
{
    let n = l.unicode_len();
    if n > 0 && l.get_char(n - 1) == '\r' {
        let r = l.substring_char(0, n - 1);
        proof {
            assert(r@ =~= l@.drop_last());
        }
        r
    } else {
        l
    }
}

/// Splits `text` into its non-empty lines, in order.
pub fn split_lines(text: &str) -> (r: Vec<String>)
    ensures
        views_of(r@) == spec_lines(text@),
{
    let mut out: Vec<String> = Vec::new();
    let mut rem: &str = text;
    proof {
        assert(views_of(out@) =~= Seq::<Seq<char>>::empty());
    }
    loop
        invariant
            spec_lines(text@) == views_of(out@) + spec_lines(rem@),
        decreases rem@.len(),
    {
        let n = rem.unicode_len();
        if n == 0 {
            proof {
                assert(spec_lines(text@) =~= views_of(out@));
            }
            return out;
        }
        match find_char(rem, '\n') {
            Some(i) => {
                proof {
                    lemma_find_ch(rem@, '\n');
                }
                let head = rem.substring_char(0, i);
                let rest = rem.substring_char(i + 1, n);
                let line = strip_cr_exec(head);
                let ghost old_out = out@;
                if line.unicode_len() > 0 {
                    out.push(String::from_str(line));
                    proof {
                        assert(views_of(out@) =~= views_of(old_out).push(line@));
                        assert(views_of(old_out) + spec_lines(rem@) =~= views_of(out@)
                            + spec_lines(rest@));
                    }
                } else {
                    proof {
                        assert(views_of(old_out) + spec_lines(rem@) =~= views_of(out@)
                            + spec_lines(rest@));
                    }
                }
                rem = rest;
            },
            None => {
                let line = strip_cr_exec(rem);
                let ghost old_out = out@;
                if line.unicode_len() > 0 {
                    out.push(String::from_str(line));
                    proof {
                        assert(views_of(out@) =~= views_of(old_out).push(line@));
                        assert(views_of(old_out) + spec_lines(rem@) =~= views_of(out@));
                    }
                } else {
                    proof {
                        assert(views_of(old_out) + spec_lines(rem@) =~= views_of(out@));
                    }
                }
                proof {
                    assert(spec_lines(text@) =~= views_of(out@));
                }
                return out;
            },
        }
    }
}

/// Lexicographic order on character sequences, by Unicode scalar value.
pub open spec fn lex_leq(a: Seq<char>, b: Seq<char>) -> bool
    decreases a.len(),
{
    if a.len() == 0 {
        true
    } else if b.len() == 0 {
        false
    } else if a[0] == b[0] {
        lex_leq(a.drop_first(), b.drop_first())
    } else {
        a[0] < b[0]
    }
}

/// Any two strings are ordered one way or the other.
pub proof fn lemma_lex_total(a: Seq<char>, b: Seq<char>)
    ensures
        lex_leq(a, b) || lex_leq(b, a),
    decreases a.len(),
{
    if a.len() == 0 || b.len() == 0 {
    } else if a[0] == b[0] {
        lemma_lex_total(a.drop_first(), b.drop_first());
    }
}

/// Lexicographic order is transitive.
pub proof fn lemma_lex_trans(a: Seq<char>, b: Seq<char>, c: Seq<char>)
    requires
        lex_leq(a, b),
        lex_leq(b, c),
    ensures
        lex_leq(a, c),
    decreases a.len(),
{
    if a.len() == 0 || b.len() == 0 || c.len() == 0 {
    } else if a[0] == b[0] && b[0] == c[0] {
        lemma_lex_trans(a.drop_first(), b.drop_first(), c.drop_first());
    }
}

/// Comparing two strings that agree on their first `i` characters comes down
/// to comparing what follows those characters.
proof fn lemma_lex_skip(a: Seq<char>, b: Seq<char>, i: int)
    requires
        0 <= i <= a.len(),
        0 <= i <= b.len(),
        forall|j: int| 0 <= j < i ==> a[j] == b[j],
    ensures
        lex_leq(a, b) == lex_leq(a.skip(i), b.skip(i)),
    decreases i,
{
    if i == 0 {
        assert(a.skip(0) =~= a);
        assert(b.skip(0) =~= b);
    } else {
        assert(a.len() > 0 && b.len() > 0 && a[0] == b[0]);
        lemma_lex_skip(a.drop_first(), b.drop_first(), i - 1);
        assert(a.drop_first().skip(i - 1) =~= a.skip(i));
        assert(b.drop_first().skip(i - 1) =~= b.skip(i));
    }
}

/// Whether `a` is lexicographically at most `b`.
pub fn str_le(a: &str, b: &str) -> (r: bool)
    ensures
        r == lex_leq(a@, b@),
{
    let na = a.unicode_len();
    let nb = b.unicode_len();
    let mut i: usize = 0;
    while i < na && i < nb
        invariant
            na == a@.len(),
            nb == b@.len(),
            0 <= i <= na,
            0 <= i <= nb,
            forall|j: int| 0 <= j < i ==> a@[j] == b@[j],
        decreases na - i,
    {
        let ca = a.get_char(i);
        let cb = b.get_char(i);
        if ca != cb {
            proof {
                lemma_lex_skip(a@, b@, i as int);
                assert(a@.skip(i as int)[0] == a@[i as int]);
                assert(b@.skip(i as int)[0] == b@[i as int]);
            }
            return ca < cb;
        }
        i = i + 1;
    }
    proof {
        lemma_lex_skip(a@, b@, i as int);
    }
    na <= nb
}

} // verus!

