//! The line model of a text, and substring containment.
//!
//! A text is split into lines at each newline character; the part after the
//! last newline is a final line unless it is empty; a line terminated by a
//! newline also loses a carriage return standing just before it.

use vstd::prelude::*;

verus! {

/// Index of the first newline character of `s`, or `s.len()` if there is none.
pub open spec fn first_newline(s: Seq<char>) -> int
    decreases s.len(),
{
    if s.len() == 0 {
        0
    } else if s[0] == '\n' {
        0
    } else {
        1 + first_newline(s.subrange(1, s.len() as int))
    }
}

/// `first_newline` points at a newline character unless there is none, in
/// which case it points just past the end, and nothing before it is a newline.
pub proof fn lemma_first_newline_bounds(s: Seq<char>)
    ensures
        0 <= first_newline(s) <= s.len(),
        first_newline(s) < s.len() ==> s[first_newline(s)] == '\n',
        forall|k: int| 0 <= k < first_newline(s) ==> s[k] != '\n',
    decreases s.len(),
{
    if s.len() == 0 {
    } else if s[0] == '\n' {
    } else {
        let t = s.subrange(1, s.len() as int);
        lemma_first_newline_bounds(t);
        assert forall|k: int| 0 <= k < first_newline(s) implies s[k] != '\n' by {
            if k >= 1 {
                assert(t[k - 1] == s[k]);
            }
        }
    }
}

/// The position of the first newline is the one position that has a newline
/// with none before it; a text without a newline has it just past the end.
pub proof fn lemma_first_newline_at(s: Seq<char>, j: int)
    requires
        0 <= j <= s.len(),
        j < s.len() ==> s[j] == '\n',
        forall|k: int| 0 <= k < j ==> s[k] != '\n',
    ensures
        first_newline(s) == j,
{
    lemma_first_newline_bounds(s);
}

/// A line taken up to a newline also drops a carriage return just before it.
pub open spec fn strip_carriage_return(l: Seq<char>) -> Seq<char> {
    if l.len() > 0 && l.last() == '\r' {
        l.drop_last()
    } else {
        l
    }
}

/// The lines of a text: one line up to each newline, and a final line after
/// the last newline unless it is empty.  Empty text has no lines.
pub open spec fn lines_of(s: Seq<char>) -> Seq<Seq<char>>
    decreases s.len(),
    via lines_of_decreases
{
    if s.len() == 0 {
        Seq::empty()
    } else {
        let i = first_newline(s);
        if i == s.len() {
            seq![s]
        } else {
            seq![strip_carriage_return(s.subrange(0, i))] + lines_of(
                s.subrange(i + 1, s.len() as int),
            )
        }
    }
}

#[via_fn]
proof fn lines_of_decreases(s: Seq<char>) {
    lemma_first_newline_bounds(s);
}

/// Split a text into its lines, each a slice of the original text.
pub fn split_lines<'a>(contents: &'a str) -> (res: Vec<&'a str>)
    ensures
        res.deep_view() == lines_of(contents@),
{
    let ghost s: Seq<char> = contents@;
    let n: usize = contents.unicode_len();
    let mut res: Vec<&'a str> = Vec::new();
    let mut start: usize = 0;
    let mut i: usize = 0;
    proof {
        assert(s.subrange(0, n as int) =~= s);
        assert(res.deep_view() + lines_of(s) =~= lines_of(s));
    }
    while i < n
        invariant
            n == s.len(),
            s == contents@,
            start <= i <= n,
            forall|k: int| start <= k < i ==> s[k] != '\n',
            lines_of(s) == res.deep_view() + lines_of(s.subrange(start as int, n as int)),
        decreases n - i,
    {
        if contents.get_char(i) == '\n' {
            let end: usize = if i > start && contents.get_char(i - 1) == '\r' {
                i - 1
            } else {
                i
            };
            let line = contents.substring_char(start, end);
            let ghost before = res.deep_view();
            let ghost rem = s.subrange(start as int, n as int);
            let ghost tail = s.subrange(i + 1, n as int);
            proof {
                assert forall|k: int| 0 <= k < i - start implies rem[k] != '\n' by {
                    assert(rem[k] == s[start + k]);
                }
                lemma_first_newline_at(rem, i - start);
                assert(rem.subrange(0, i - start) =~= s.subrange(start as int, i as int));
                assert(rem.subrange(i - start + 1, rem.len() as int) =~= tail);
                let head = s.subrange(start as int, i as int);
                if i > start && s[i - 1] == '\r' {
                    assert(head.last() == '\r');
                    assert(head.drop_last() =~= s.subrange(start as int, end as int));
                } else {
                    assert(head =~= s.subrange(start as int, end as int));
                }
                assert(strip_carriage_return(head) == line@);
                assert(lines_of(rem) == seq![line@] + lines_of(tail));
            }
            res.push(line);
            proof {
                assert(res.deep_view() =~= before.push(line@));
                assert(before + (seq![line@] + lines_of(tail)) =~= before.push(line@) + lines_of(
                    tail,
                ));
            }
            start = i + 1;
        }
        i += 1;
    }
    if start < n {
        let line = contents.substring_char(start, n);
        let ghost before = res.deep_view();
        let ghost rem = s.subrange(start as int, n as int);
        proof {
            assert forall|k: int| 0 <= k < rem.len() implies rem[k] != '\n' by {
                assert(rem[k] == s[start + k]);
            }
            lemma_first_newline_at(rem, rem.len() as int);
            assert(lines_of(rem) == seq![rem]);
        }
        res.push(line);
        proof {
            assert(res.deep_view() =~= before.push(line@));
            assert(before + seq![rem] =~= before.push(line@));
            assert(res.deep_view() =~= lines_of(s));
        }
    } else {
        proof {
            let rem = s.subrange(start as int, n as int);
            assert(rem =~= Seq::<char>::empty());
            assert(lines_of(rem) =~= Seq::<Seq<char>>::empty());
            assert(res.deep_view() + lines_of(rem) =~= res.deep_view());
            assert(res.deep_view() =~= lines_of(s));
        }
    }
    res
}

/// `needle` occurs in `hay` starting at position `i`.
pub open spec fn match_at(hay: Seq<char>, needle: Seq<char>, i: int) -> bool {
    &&& 0 <= i
    &&& i + needle.len() <= hay.len()
    &&& hay.subrange(i, i + needle.len() as int) == needle
}

/// `needle` occurs somewhere in `hay`; every sequence contains the empty one.
pub open spec fn has_substring(hay: Seq<char>, needle: Seq<char>) -> bool {
    exists|i: int| match_at(hay, needle, i)
}

/// Whether `needle` occurs in `hay` at the given position.
fn matches_at(hay: &str, needle: &str, start: usize) -> (r: bool)
    requires
        start + needle@.len() <= hay@.len(),
        hay@.len() <= usize::MAX,
    ensures
        r == match_at(hay@, needle@, start as int),
{
    let n: usize = needle.unicode_len();
    let mut j: usize = 0;
    while j < n
        invariant
            j <= n,
            n == needle@.len(),
            start + n <= hay@.len() <= usize::MAX,
            forall|k: int| 0 <= k < j ==> hay@[start + k] == needle@[k],
        decreases n - j,
    {
        if hay.get_char(start + j) != needle.get_char(j) {
            proof {
                assert(!match_at(hay@, needle@, start as int)) by {
                    if hay@.subrange(start as int, start + n) == needle@ {
                        assert(hay@.subrange(start as int, start + n)[j as int] == hay@[start + j]);
                    }
                }
            }
            return false;
        }
        j += 1;
    }
    proof {
        assert(hay@.subrange(start as int, start + n) =~= needle@);
    }
    true
}

/// Whether `needle` occurs anywhere in `hay`.
pub fn str_has_substring(hay: &str, needle: &str) -> (r: bool)
    ensures
        r == has_substring(hay@, needle@),
{
    let hn: usize = hay.unicode_len();
    let nn: usize = needle.unicode_len();
    if nn > hn {
        return false;
    }
    if nn == 0 {
        proof {
            assert(hay@.subrange(0, 0) =~= needle@);
            assert(match_at(hay@, needle@, 0));
        }
        return true;
    }
    let mut i: usize = 0;
    while i <= hn - nn
        invariant
            1 <= nn <= hn,
            hn == hay@.len(),
            nn == needle@.len(),
            i <= hn - nn + 1,
            forall|k: int| 0 <= k < i ==> !match_at(hay@, needle@, k),
        decreases hn - nn - i + 1,
    {
        if matches_at(hay, needle, i) {
            return true;
        }
        i += 1;
    }
    false
}

} // verus!
