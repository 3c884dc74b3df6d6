//! Character-sequence utilities: locating separators, splitting on a
//! separator, and splitting a stream into lines the way a buffered line
//! reader does.

use vstd::prelude::*;
use vstd::string::*;

verus! {

/// The views of a sequence of character vectors.
pub open spec fn seq_views(v: Seq<Vec<char>>) -> Seq<Seq<char>> {
    v.map_values(|x: Vec<char>| x@)
}

/// Index of the first occurrence of `sep` in `s`, or `s.len()` when
/// there is none.
pub open spec fn find_sep(s: Seq<char>, sep: char) -> nat
    decreases s.len(),
{
    if s.len() == 0 {
        0
    } else if s[0] == sep {
        0
    } else {
        1 + find_sep(s.drop_first(), sep)
    }
}

/// The first occurrence is the one position with no occurrence before it.
pub proof fn lemma_find_sep_is(s: Seq<char>, sep: char, k: int)
    requires
        0 <= k <= s.len(),
        forall|i: int| 0 <= i < k ==> s[i] != sep,
        k < s.len() ==> s[k] == sep,
    ensures
        find_sep(s, sep) == k,
    decreases s.len(),
{
    if s.len() == 0 {
    } else if s[0] == sep {
        assert(k == 0);
    } else {
        assert(s[0] != sep);
        assert(k >= 1);
        assert forall|i: int| 0 <= i < k - 1 implies s.drop_first()[i] != sep by {
            assert(s.drop_first()[i] == s[i + 1]);
        }
        if k - 1 < s.drop_first().len() {
            assert(s.drop_first()[k - 1] == s[k]);
        }
        lemma_find_sep_is(s.drop_first(), sep, k - 1);
    }
}

/// The parts of `s` between occurrences of `sep`, occurrences removed;
/// always at least one part.
pub open spec fn split_on(s: Seq<char>, sep: char) -> Seq<Seq<char>>
    decreases s.len(),
{
    let f = find_sep(s, sep);
    if f < s.len() {
        seq![s.subrange(0, f as int)] + split_on(s.subrange(f as int + 1, s.len() as int), sep)
    } else {
        seq![s]
    }
}

/// Splitting text that starts with a separator-free prefix, then the
/// separator, yields that prefix and then the split of the remainder.
pub proof fn lemma_split_prepend(a: Seq<char>, b: Seq<char>, sep: char)
    requires
        forall|i: int| 0 <= i < a.len() ==> a[i] != sep,
    ensures
        split_on(a + seq![sep] + b, sep) == seq![a] + split_on(b, sep),
{
    let s = a + seq![sep] + b;
    assert forall|i: int| 0 <= i < a.len() implies s[i] != sep by {
        assert(s[i] == a[i]);
    }
    assert(s[a.len() as int] == sep);
    lemma_find_sep_is(s, sep, a.len() as int);
    assert(s.subrange(0, a.len() as int) =~= a);
    assert(s.subrange(a.len() as int + 1, s.len() as int) =~= b);
}

/// Separator-free text splits to itself alone.
pub proof fn lemma_split_whole(a: Seq<char>, sep: char)
    requires
        forall|i: int| 0 <= i < a.len() ==> a[i] != sep,
    ensures
        split_on(a, sep) == seq![a],
{
    lemma_find_sep_is(a, sep, a.len() as int);
}

/// A line with its one trailing carriage return removed, if it has one.
pub open spec fn strip_cr(l: Seq<char>) -> Seq<char> {
    if l.len() > 0 && l.last() == '\r' {
        l.drop_last()
    } else {
        l
    }
}

/// The lines of a character stream, as a buffered line reader yields
/// them: split at each newline, one carriage return stripped from the
/// end of a line that a newline closed, and no final empty line for a
/// stream that ends in a newline.
pub open spec fn lines_of(s: Seq<char>) -> Seq<Seq<char>>
    decreases s.len(),
{
    if s.len() == 0 {
        Seq::empty()
    } else {
        let f = find_sep(s, '\n');
        if f < s.len() {
            seq![strip_cr(s.subrange(0, f as int))] + lines_of(
                s.subrange(f as int + 1, s.len() as int),
            )
        } else {
            seq![s]
        }
    }
}

/// Copies the characters of `s`.
pub fn clone_chars(s: &Vec<char>) -> (r: Vec<char>)
    ensures
        r@ == s@,
{
    copy_range(s, 0, s.len())
}

/// Copies the characters of `s` between `from` and `to`.
pub fn copy_range(s: &Vec<char>, from: usize, to: usize) -> (r: Vec<char>)
    requires
        from <= to <= s@.len(),
    ensures
        r@ == s@.subrange(from as int, to as int),
{
    let mut r: Vec<char> = Vec::new();
    let mut i: usize = from;
    while i < to
        invariant
            from <= i <= to <= s@.len(),
            r@ == s@.subrange(from as int, i as int),
        decreases to - i,
    {
        r.push(s[i]);
        proof {
            assert(r@ =~= s@.subrange(from as int, i as int + 1));
        }
        i = i + 1;
    }
    proof {
        assert(r@ =~= s@.subrange(from as int, to as int));
    }
    r
}

/// Character-for-character equality of two vectors.
pub fn chars_eq(a: &Vec<char>, b: &Vec<char>) -> (r: bool)
    ensures
        r == (a@ == b@),
{
    if a.len() != b.len() {
        return false;
    }
    let n = a.len();
    let mut i: usize = 0;
    while i < n
        invariant
            i <= n,
            n == a@.len() == b@.len(),
            forall|k: int| 0 <= k < i ==> a@[k] == b@[k],
        decreases n - i,
    {
        if a[i] != b[i] {
            return false;
        }
        i = i + 1;
    }
    proof {
        assert(a@ =~= b@);
    }
    true
}

/// The characters of a string, in order.
pub fn str_to_char_vec(s: &str) -> (r: Vec<char>)
    ensures
        r@ == s@,
{
    let n = s.unicode_len();
    let mut r: Vec<char> = Vec::new();
    let mut i: usize = 0;
    while i < n
        invariant
            i <= n,
            n == s@.len(),
            r@ == s@.subrange(0, i as int),
        decreases n - i,
    {
        let c = s.get_char(i);
        r.push(c);
        proof {
            assert(r@ =~= s@.subrange(0, i as int + 1));
        }
        i = i + 1;
    }
    proof {
        assert(r@ =~= s@);
    }
    r
}

/// Index of the first `sep` in `s` at or after `start`, or the length
/// when there is none.
pub fn find_from(s: &Vec<char>, start: usize, sep: char) -> (j: usize)
    requires
        start <= s@.len(),
    ensures
        start <= j <= s@.len(),
        j - start == find_sep(s@.skip(start as int), sep),
        j < s@.len() ==> s@[j as int] == sep,
        forall|i: int| start <= i < j ==> s@[i] != sep,
{
    let n = s.len();
    let mut j: usize = start;
    loop
        invariant
            start <= j <= n,
            n == s@.len(),
            forall|i: int| start <= i < j ==> s@[i] != sep,
        ensures
            start <= j <= n,
            j == n || s@[j as int] == sep,
            forall|i: int| start <= i < j ==> s@[i] != sep,
        decreases n - j,
    {
        if j == n {
            break ;
        }
        if s[j] == sep {
            break ;
        }
        j = j + 1;
    }
    proof {
        let t = s@.skip(start as int);
        assert forall|i: int| 0 <= i < j - start implies t[i] != sep by {
            assert(t[i] == s@[i + start]);
        }
        if j < n {
            assert(t[j - start] == s@[j as int]);
        }
        lemma_find_sep_is(t, sep, j - start);
    }
    j
}

/// Splits `s` at every occurrence of `sep`.
pub fn split_chars(s: &Vec<char>, sep: char) -> (parts: Vec<Vec<char>>)
    ensures
        seq_views(parts@) == split_on(s@, sep),
{
    let n = s.len();
    let mut parts: Vec<Vec<char>> = Vec::new();
    let mut start: usize = 0;
    proof {
        assert(s@.skip(0) =~= s@);
    }
    loop
        invariant_except_break
            split_on(s@, sep) == seq_views(parts@) + split_on(s@.skip(start as int), sep),
        invariant
            start <= n,
            n == s@.len(),
        ensures
            seq_views(parts@) == split_on(s@, sep),
        decreases n - start,
    {
        let j = find_from(s, start, sep);
        let seg = copy_range(s, start, j);
        let ghost t = s@.skip(start as int);
        let ghost old_parts = parts@;
        parts.push(seg);
        proof {
            assert(seq_views(parts@) =~= seq_views(old_parts) + seq![seg@]);
        }
        if j == n {
            proof {
                assert(find_sep(t, sep) == t.len());
                assert(split_on(t, sep) == seq![t]);
                assert(seg@ =~= t);
                assert(seq_views(parts@) =~= split_on(s@, sep));
            }
            break ;
        }
        proof {
            let f = find_sep(t, sep);
            assert(f == j - start && f < t.len());
            assert(t.subrange(0, f as int) =~= seg@);
            assert(t.subrange(f as int + 1, t.len() as int) =~= s@.skip(j as int + 1));
            assert(split_on(t, sep) == seq![seg@] + split_on(s@.skip(j as int + 1), sep));
            assert(seq_views(parts@) + split_on(s@.skip(j as int + 1), sep) =~= split_on(
                s@,
                sep,
            ));
        }
        start = j + 1;
    }
    parts
}

/// Splits a stream into lines, as the apply decoder reads its input.
pub fn split_lines(s: &Vec<char>) -> (ls: Vec<Vec<char>>)
    ensures
        seq_views(ls@) == lines_of(s@),
{
    let n = s.len();
    let mut ls: Vec<Vec<char>> = Vec::new();
    let mut start: usize = 0;
    proof {
        assert(s@.skip(0) =~= s@);
    }
    loop
        invariant_except_break
            lines_of(s@) == seq_views(ls@) + lines_of(s@.skip(start as int)),
        invariant
            start <= n,
            n == s@.len(),
        ensures
            seq_views(ls@) == lines_of(s@),
        decreases n - start,
    {
        let ghost t = s@.skip(start as int);
        if start == n {
            proof {
                assert(t =~= Seq::<char>::empty());
                assert(lines_of(t) =~= Seq::<Seq<char>>::empty());
                assert(seq_views(ls@) =~= lines_of(s@));
            }
            break ;
        }
        let j = find_from(s, start, '\n');
        if j == n {
            let seg = copy_range(s, start, n);
            let ghost old_ls = ls@;
            ls.push(seg);
            proof {
                assert(find_sep(t, '\n') == t.len());
                assert(lines_of(t) == seq![t]);
                assert(seg@ =~= t);
                assert(seq_views(ls@) =~= seq_views(old_ls) + seq![seg@]);
                assert(seq_views(ls@) =~= lines_of(s@));
            }
            break ;
        }
        let end = if j > start && s[j - 1] == '\r' {
            j - 1
        } else {
            j
        };
        let seg = copy_range(s, start, end);
        let ghost old_ls = ls@;
        ls.push(seg);
        proof {
            let f = find_sep(t, '\n');
            assert(f == j - start && f < t.len());
            let raw = t.subrange(0, f as int);
            assert(raw =~= s@.subrange(start as int, j as int));
            if j > start && s@[j - 1] == '\r' {
                assert(raw.len() > 0 && raw.last() == '\r');
                assert(strip_cr(raw) =~= s@.subrange(start as int, j as int - 1));
            } else {
                if raw.len() > 0 {
                    assert(raw.last() == s@[j - 1]);
                }
                assert(strip_cr(raw) =~= raw);
            }
            assert(seg@ == strip_cr(raw));
            assert(t.subrange(f as int + 1, t.len() as int) =~= s@.skip(j as int + 1));
            assert(lines_of(t) == seq![strip_cr(raw)] + lines_of(s@.skip(j as int + 1)));
            assert(seq_views(ls@) =~= seq_views(old_ls) + seq![seg@]);
            assert(seq_views(ls@) + lines_of(s@.skip(j as int + 1)) =~= lines_of(s@));
        }
        start = j + 1;
    }
    ls
}

} // verus!
