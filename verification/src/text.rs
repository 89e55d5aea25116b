//! Character-sequence groundwork for the configuration format: trimming,
//! searching, splitting into lines, and the lemmas that relate them.

use vstd::prelude::*;
use vstd::string::StrSliceExecFns;

verus! {

/// Horizontal whitespace (and the carriage return, so that files with
/// CRLF line endings read the same as LF ones).
pub open spec fn is_space(c: char) -> bool {
    c == ' ' || c == '\t' || c == '\r'
}

/// `s` without its leading whitespace.
pub open spec fn trim_front(s: Seq<char>) -> Seq<char>
    decreases s.len(),
{
    if s.len() > 0 && is_space(s[0]) {
        trim_front(s.drop_first())
    } else {
        s
    }
}

/// `s` without its trailing whitespace.
pub open spec fn trim_back(s: Seq<char>) -> Seq<char>
    decreases s.len(),
{
    if s.len() > 0 && is_space(s[s.len() - 1]) {
        trim_back(s.drop_last())
    } else {
        s
    }
}

/// `s` without leading and trailing whitespace.
pub open spec fn trimmed(s: Seq<char>) -> Seq<char> {
    trim_back(trim_front(s))
}

/// Position of the first occurrence of `c` in `s`, or `s.len()` when `c`
/// does not occur.
pub open spec fn find_char(s: Seq<char>, c: char) -> nat
    decreases s.len(),
{
    if s.len() == 0 {
        0
    } else if s[0] == c {
        0
    } else {
        1 + find_char(s.drop_first(), c)
    }
}

pub proof fn lemma_find_char_le(s: Seq<char>, c: char)
    ensures
        find_char(s, c) <= s.len(),
    decreases s.len(),
{
    if s.len() > 0 && s[0] != c {
        lemma_find_char_le(s.drop_first(), c);
    }
}

/// What `find_char` returns: no occurrence before it, and an occurrence at
/// it unless it is the length.
pub proof fn lemma_find_char_props(s: Seq<char>, c: char)
    ensures
        find_char(s, c) <= s.len(),
        find_char(s, c) < s.len() ==> s[find_char(s, c) as int] == c,
        forall|m: int| 0 <= m < find_char(s, c) ==> s[m] != c,
    decreases s.len(),
{
    if s.len() > 0 && s[0] != c {
        lemma_find_char_props(s.drop_first(), c);
        assert forall|m: int| 0 <= m < find_char(s, c) implies s[m] != c by {
            if m > 0 {
                assert(s.drop_first()[m - 1] == s[m]);
            }
        }
    }
}

/// A position with no occurrence before it and an occurrence at it (or the
/// length, when there is none at all) is what `find_char` returns.
pub proof fn lemma_find_char_is(s: Seq<char>, c: char, k: int)
    requires
        0 <= k <= s.len(),
        forall|m: int| 0 <= m < k ==> s[m] != c,
        k == s.len() || s[k] == c,
    ensures
        find_char(s, c) == k,
    decreases s.len(),
{
    if s.len() == 0 {
    } else if s[0] == c {
        assert(k == 0);
    } else {
        assert(s[0] != c);
        assert(k >= 1);
        assert forall|m: int| 0 <= m < k - 1 implies s.drop_first()[m] != c by {
            assert(s.drop_first()[m] == s[m + 1]);
        }
        if k < s.len() {
            assert(s.drop_first()[k - 1] == s[k]);
        }
        lemma_find_char_is(s.drop_first(), c, k - 1);
    }
}

/// Searching a concatenation whose first part is free of `c` searches the
/// second part.
pub proof fn lemma_find_char_concat(a: Seq<char>, b: Seq<char>, c: char)
    requires
        forall|m: int| 0 <= m < a.len() ==> a[m] != c,
    ensures
        find_char(a + b, c) == a.len() + find_char(b, c),
    decreases a.len(),
{
    if a.len() == 0 {
        assert(a + b =~= b);
    } else {
        assert((a + b)[0] == a[0]);
        assert((a + b).drop_first() =~= a.drop_first() + b);
        assert forall|m: int| 0 <= m < a.drop_first().len() implies a.drop_first()[m] != c by {
            assert(a.drop_first()[m] == a[m + 1]);
        }
        lemma_find_char_concat(a.drop_first(), b, c);
    }
}

/// A whitespace prefix does not change the front trim.
pub proof fn lemma_trim_front_spaces(sp: Seq<char>, s: Seq<char>)
    requires
        forall|m: int| 0 <= m < sp.len() ==> is_space(sp[m]),
    ensures
        trim_front(sp + s) == trim_front(s),
    decreases sp.len(),
{
    if sp.len() == 0 {
        assert(sp + s =~= s);
    } else {
        assert((sp + s)[0] == sp[0]);
        assert((sp + s).drop_first() =~= sp.drop_first() + s);
        assert forall|m: int| 0 <= m < sp.drop_first().len() implies is_space(
            sp.drop_first()[m],
        ) by {
            assert(sp.drop_first()[m] == sp[m + 1]);
        }
        lemma_trim_front_spaces(sp.drop_first(), s);
    }
}

/// A whitespace suffix does not change the back trim.
pub proof fn lemma_trim_back_spaces(s: Seq<char>, sp: Seq<char>)
    requires
        forall|m: int| 0 <= m < sp.len() ==> is_space(sp[m]),
    ensures
        trim_back(s + sp) == trim_back(s),
    decreases sp.len(),
{
    if sp.len() == 0 {
        assert(s + sp =~= s);
    } else {
        assert((s + sp).len() > 0);
        assert((s + sp)[(s + sp).len() - 1] == sp[sp.len() - 1]);
        assert((s + sp).drop_last() =~= s + sp.drop_last());
        assert forall|m: int| 0 <= m < sp.drop_last().len() implies is_space(
            sp.drop_last()[m],
        ) by {
            assert(sp.drop_last()[m] == sp[m]);
        }
        lemma_trim_back_spaces(s, sp.drop_last());
    }
}

/// Trimming a sequence that neither starts nor ends with whitespace leaves
/// it unchanged; the empty sequence is also its own trim.
pub proof fn lemma_trimmed_clean(s: Seq<char>)
    requires
        s.len() == 0 || (!is_space(s[0]) && !is_space(s[s.len() - 1])),
    ensures
        trimmed(s) == s,
{
}

/// The trim of a sequence, characterized by the boundary positions `a`
/// and `b` of its non-whitespace core.
pub proof fn lemma_trimmed_is(s: Seq<char>, a: int, b: int)
    requires
        0 <= a <= b <= s.len(),
        forall|m: int| 0 <= m < a ==> is_space(s[m]),
        forall|m: int| b <= m < s.len() ==> is_space(s[m]),
        a == b || (!is_space(s[a]) && !is_space(s[b - 1])),
    ensures
        trimmed(s) == s.subrange(a, b),
    decreases s.len(),
{
    let sp = s.subrange(0, a);
    let rest = s.subrange(a, s.len() as int);
    assert(s =~= sp + rest);
    lemma_trim_front_spaces(sp, rest);
    assert(trim_front(s) == trim_front(rest));
    if a == b {
        let empty = Seq::<char>::empty();
        assert(rest =~= rest + empty);
        lemma_trim_back_spaces(empty, rest);
        assert(empty + rest =~= rest);
        assert(trim_front(rest) == trim_front(empty + rest));
        lemma_trim_front_spaces(rest, empty);
        assert(rest + empty =~= rest);
        assert(trim_front(rest) == trim_front(empty));
        assert(trim_front(empty) == empty);
        assert(trim_back(empty) == empty);
        assert(s.subrange(a, b) =~= empty);
    } else {
        assert(rest[0] == s[a]);
        assert(trim_front(rest) == rest);
        let core = s.subrange(a, b);
        let tail = s.subrange(b, s.len() as int);
        assert(rest =~= core + tail);
        lemma_trim_back_spaces(core, tail);
        assert(trim_back(rest) == trim_back(core));
        assert(core[core.len() - 1] == s[b - 1]);
        assert(trim_back(core) == core);
    }
}

/// The lines joined back into one text, a newline after each line.
pub open spec fn join_lines(ls: Seq<Seq<char>>) -> Seq<char>
    decreases ls.len(),
{
    if ls.len() == 0 {
        Seq::empty()
    } else {
        ls[0] + seq!['\n'] + join_lines(ls.drop_first())
    }
}

/// The text split at every newline; the separators are consumed, and text
/// after the last newline (possibly empty) forms the final line.
pub open spec fn split_lines(s: Seq<char>) -> Seq<Seq<char>>
    decreases s.len(),
    via split_lines_decreases
{
    let i = find_char(s, '\n');
    if i == s.len() {
        seq![s]
    } else {
        seq![s.subrange(0, i as int)] + split_lines(s.subrange(i as int + 1, s.len() as int))
    }
}

#[via_fn]
proof fn split_lines_decreases(s: Seq<char>) {
    lemma_find_char_le(s, '\n');
}

/// Splitting the join of newline-free lines recovers the lines, plus the
/// empty final line after the last separator.
pub proof fn lemma_split_join(ls: Seq<Seq<char>>)
    requires
        forall|i: int, m: int|
            0 <= i < ls.len() && 0 <= m < ls[i].len() ==> #[trigger] ls[i][m] != '\n',
    ensures
        split_lines(join_lines(ls)) == ls.push(Seq::empty()),
    decreases ls.len(),
{
    if ls.len() == 0 {
        let s = join_lines(ls);
        assert(s.len() == 0);
        assert(split_lines(s) =~= seq![s]);
        assert(s =~= Seq::<char>::empty());
        assert(ls.push(Seq::empty()) =~= seq![Seq::<char>::empty()]);
    } else {
        let s = join_lines(ls);
        let head = ls[0];
        let rest = seq!['\n'] + join_lines(ls.drop_first());
        assert(s =~= head + rest);
        lemma_find_char_concat(head, rest, '\n');
        assert(rest[0] == '\n');
        assert(find_char(rest, '\n') == 0);
        let i = find_char(s, '\n');
        assert(i == head.len());
        assert(s.len() == head.len() + 1 + join_lines(ls.drop_first()).len());
        assert(i < s.len());
        assert(s.subrange(0, i as int) =~= head);
        assert(s.subrange(i as int + 1, s.len() as int) =~= join_lines(ls.drop_first()));
        assert forall|j: int, m: int|
            0 <= j < ls.drop_first().len() && 0 <= m < ls.drop_first()[j].len() implies #[trigger] ls.drop_first()[j][m]
            != '\n' by {
            assert(ls.drop_first()[j] == ls[j + 1]);
        }
        lemma_split_join(ls.drop_first());
        assert(split_lines(s) =~= seq![head] + split_lines(join_lines(ls.drop_first())));
        assert(seq![head] + ls.drop_first().push(Seq::empty()) =~= ls.push(Seq::empty()));
    }
}

/// Whether `c` is horizontal whitespace.
pub fn is_space_char(c: char) -> (r: bool)
    ensures
        r == is_space(c),
{
    c == ' ' || c == '\t' || c == '\r'
}

/// Finds the first occurrence of `c` in `s` between `lo` and `hi`,
/// returning `hi` when there is none.
pub fn find_char_in(s: &str, lo: usize, hi: usize, c: char) -> (r: usize)
    requires
        lo <= hi <= s@.len(),
    ensures
        lo <= r <= hi,
        r - lo == find_char(s@.subrange(lo as int, hi as int), c),
        r < hi ==> s@[r as int] == c,
        forall|m: int| lo <= m < r ==> s@[m] != c,
{
    let mut i = lo;
    while i < hi && s.get_char(i) != c
        invariant
            lo <= i <= hi <= s@.len(),
            forall|m: int| lo <= m < i ==> s@[m] != c,
        decreases hi - i,
    {
        i += 1;
    }
    proof {
        let t = s@.subrange(lo as int, hi as int);
        assert forall|m: int| 0 <= m < i - lo implies t[m] != c by {
            assert(t[m] == s@[lo + m]);
        }
        if i < hi {
            assert(t[i - lo] == s@[i as int]);
        }
        lemma_find_char_is(t, c, i - lo);
    }
    i
}

/// Trims the range `[lo, hi)` of `s`, returning the boundaries of the
/// trimmed core.
pub fn trim_in(s: &str, lo: usize, hi: usize) -> (r: (usize, usize))
    requires
        lo <= hi <= s@.len(),
    ensures
        lo <= r.0 <= r.1 <= hi,
        s@.subrange(r.0 as int, r.1 as int) == trimmed(s@.subrange(lo as int, hi as int)),
        r.0 < r.1 ==> !is_space(s@[r.0 as int]) && !is_space(s@[r.1 - 1]),
{
    let mut a = lo;
    while a < hi && is_space_char(s.get_char(a))
        invariant
            lo <= a <= hi <= s@.len(),
            forall|m: int| lo <= m < a ==> is_space(s@[m]),
        decreases hi - a,
    {
        a += 1;
    }
    let mut b = hi;
    if a == hi {
        b = hi;
        proof {
            let t = s@.subrange(lo as int, hi as int);
            assert forall|m: int| 0 <= m < t.len() implies is_space(t[m]) by {
                assert(t[m] == s@[lo + m]);
            }
            lemma_trimmed_is(t, t.len() as int, t.len() as int);
            assert(s@.subrange(hi as int, hi as int) =~= t.subrange(
                t.len() as int,
                t.len() as int,
            ));
        }
        return (hi, hi);
    }
    while b > a + 1 && is_space_char(s.get_char(b - 1))
        invariant
            lo <= a < b <= hi <= s@.len(),
            forall|m: int| b <= m < hi ==> is_space(s@[m]),
        decreases b,
    {
        b -= 1;
    }
    proof {
        let t = s@.subrange(lo as int, hi as int);
        assert forall|m: int| 0 <= m < a - lo implies is_space(t[m]) by {
            assert(t[m] == s@[lo + m]);
        }
        assert forall|m: int| b - lo <= m < t.len() implies is_space(t[m]) by {
            assert(t[m] == s@[lo + m]);
        }
        assert(t[a - lo] == s@[a as int]);
        assert(!is_space(t[a - lo]));
        if b > a + 1 {
            assert(t[b - lo - 1] == s@[b - 1]);
        } else {
            assert(b - 1 == a);
            assert(t[b - lo - 1] == s@[a as int]);
        }
        lemma_trimmed_is(t, a - lo, b - lo);
        assert(s@.subrange(a as int, b as int) =~= t.subrange(a - lo, b - lo));
    }
    (a, b)
}

/// Whether the range `[lo, hi)` of `s` holds exactly the text `t`.
pub fn range_eq(s: &str, lo: usize, hi: usize, t: &str) -> (r: bool)
    requires
        lo <= hi <= s@.len(),
    ensures
        r <==> s@.subrange(lo as int, hi as int) == t@,
{
    let tlen = t.unicode_len();
    if hi - lo != tlen {
        proof {
            assert(s@.subrange(lo as int, hi as int).len() != t@.len());
        }
        return false;
    }
    let mut j: usize = 0;
    while j < tlen
        invariant
            hi - lo == tlen == t@.len(),
            lo <= hi <= s@.len(),
            0 <= j <= tlen,
            forall|m: int| 0 <= m < j ==> s@[lo + m] == t@[m],
        decreases tlen - j,
    {
        if s.get_char(lo + j) != t.get_char(j) {
            proof {
                assert(s@.subrange(lo as int, hi as int)[j as int] == s@[lo + j]);
            }
            return false;
        }
        j += 1;
    }
    proof {
        assert(s@.subrange(lo as int, hi as int) =~= t@);
    }
    true
}

/// Whether two strings hold the same text.
pub fn str_eq(a: &str, b: &str) -> (r: bool)
    ensures
        r <==> a@ == b@,
{
    let n = a.unicode_len();
    let e = range_eq(a, 0, n, b);
    proof {
        assert(a@.subrange(0, n as int) =~= a@);
    }
    e
}

} // verus!
