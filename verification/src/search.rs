//! The search engine: return, in source order, every line of a text that
//! contains the query, exactly or after lowercasing both sides.

use vstd::prelude::*;

use crate::config::Config;
use crate::text::has_substring;
use crate::text::lines_of;
use crate::text::split_lines;
use crate::text::str_has_substring;

verus! {

/// What `str::to_lowercase` returns for a given sequence of characters.
pub uninterp spec fn lower_of(s: Seq<char>) -> Seq<char>;

/// Relies on str::to_lowercase: the result depends on the characters alone.
#[verifier::external_body]
fn lowercase(s: &str) -> (r: String)
    ensures
        r@ == lower_of(s@),
{
    s.to_lowercase()
}

/// The lines of `contents` that contain `query`, in source order.
pub open spec fn matching_lines(query: Seq<char>, contents: Seq<char>) -> Seq<Seq<char>> {
    lines_of(contents).filter(|l: Seq<char>| has_substring(l, query))
}

/// The lines of `contents` that contain `query` once both the line and the
/// query are lowercased, in source order.  The lines come back as written,
/// not lowercased.
pub open spec fn ci_matching_lines(query: Seq<char>, contents: Seq<char>) -> Seq<Seq<char>> {
    lines_of(contents).filter(|l: Seq<char>| has_substring(lower_of(l), lower_of(query)))
}

/// Filtering a sequence extended by one element keeps the filtered prefix and
/// appends the new element exactly when it satisfies the predicate.
proof fn lemma_filter_push<A>(s: Seq<A>, x: A, pred: spec_fn(A) -> bool)
    ensures
        s.push(x).filter(pred) == (if pred(x) {
            s.filter(pred).push(x)
        } else {
            s.filter(pred)
        }),
{
    reveal(Seq::filter);
    assert(s.push(x).drop_last() =~= s);
    assert(s.push(x).last() == x);
}

/// Every line of `contents` that contains `query` exactly, in source order.
pub fn search<'a>(query: &str, contents: &'a str) -> (res: Vec<&'a str>)
    ensures
        res.deep_view() == matching_lines(query@, contents@),
{
    let lines = split_lines(contents);
    let ghost pred = |l: Seq<char>| has_substring(l, query@);
    let mut res: Vec<&'a str> = Vec::new();
    let mut i: usize = 0;
    proof {
        assert(lines.deep_view().take(0) =~= Seq::<Seq<char>>::empty());
        assert(res.deep_view() =~= Seq::<Seq<char>>::empty().filter(pred));
    }
    while i < lines.len()
        invariant
            i <= lines@.len(),
            lines.deep_view() == lines_of(contents@),
            res.deep_view() == lines.deep_view().take(i as int).filter(pred),
            pred == (|l: Seq<char>| has_substring(l, query@)),
        decreases lines@.len() - i,
    {
        let line = lines[i];
        let ghost prefix = lines.deep_view().take(i as int);
        proof {
            assert(lines.deep_view().take(i + 1) =~= prefix.push(line@));
            lemma_filter_push(prefix, line@, pred);
        }
        if str_has_substring(line, query) {
            let ghost before = res.deep_view();
            res.push(line);
            proof {
                assert(res.deep_view() =~= before.push(line@));
            }
        }
        i += 1;
    }
    proof {
        assert(lines.deep_view().take(lines@.len() as int) =~= lines.deep_view());
    }
    res
}

/// Every line of `contents` that contains `query` under a case-insensitive
/// comparison: both the line and the query are lowercased before the
/// containment test.  The returned lines are the original ones.
pub fn search_case_insensitive<'a>(query: &str, contents: &'a str) -> (res: Vec<&'a str>)
    ensures
        res.deep_view() == ci_matching_lines(query@, contents@),
{
    let lowered_query = lowercase(query);
    let lines = split_lines(contents);
    let ghost pred = |l: Seq<char>| has_substring(lower_of(l), lower_of(query@));
    let mut res: Vec<&'a str> = Vec::new();
    let mut i: usize = 0;
    proof {
        assert(lines.deep_view().take(0) =~= Seq::<Seq<char>>::empty());
        assert(res.deep_view() =~= Seq::<Seq<char>>::empty().filter(pred));
    }
    while i < lines.len()
        invariant
            i <= lines@.len(),
            lines.deep_view() == lines_of(contents@),
            lowered_query@ == lower_of(query@),
            res.deep_view() == lines.deep_view().take(i as int).filter(pred),
            pred == (|l: Seq<char>| has_substring(lower_of(l), lower_of(query@))),
        decreases lines@.len() - i,
    {
        let line = lines[i];
        let ghost prefix = lines.deep_view().take(i as int);
        proof {
            assert(lines.deep_view().take(i + 1) =~= prefix.push(line@));
            lemma_filter_push(prefix, line@, pred);
        }
        let lowered_line = lowercase(line);
        if str_has_substring(lowered_line.as_str(), lowered_query.as_str()) {
            let ghost before = res.deep_view();
            res.push(line);
            proof {
                assert(res.deep_view() =~= before.push(line@));
            }
        }
        i += 1;
    }
    proof {
        assert(lines.deep_view().take(lines@.len() as int) =~= lines.deep_view());
    }
    res
}

/// Run the search that the configuration asks for: the case-sensitive one
/// when `case_sensitive` is set, the case-insensitive one otherwise.
pub fn run_search<'a>(config: &Config, contents: &'a str) -> (res: Vec<&'a str>)
    ensures
        config.case_sensitive ==> res.deep_view() == matching_lines(config.query@, contents@),
        !config.case_sensitive ==> res.deep_view() == ci_matching_lines(config.query@, contents@),
{
    if config.case_sensitive {
        search(config.query.as_str(), contents)
    } else {
        search_case_insensitive(config.query.as_str(), contents)
    }
}

/// Law: the case-sensitive search is repeatable.  Any two results of the
/// same query on unchanged content are the same lines in the same order.
pub proof fn lemma_search_repeatable(
    query: Seq<char>,
    contents: Seq<char>,
    first: Seq<Seq<char>>,
    second: Seq<Seq<char>>,
)
    requires
        first == matching_lines(query, contents),
        second == matching_lines(query, contents),
    ensures
        first == second,
{
}

/// Law: the case-insensitive search is repeatable.  Any two results of the
/// same query on unchanged content are the same lines in the same order.
pub proof fn lemma_search_case_insensitive_repeatable(
    query: Seq<char>,
    contents: Seq<char>,
    first: Seq<Seq<char>>,
    second: Seq<Seq<char>>,
)
    requires
        first == ci_matching_lines(query, contents),
        second == ci_matching_lines(query, contents),
    ensures
        first == second,
{
}

/// Law: empty content yields an empty result, under either comparison policy.
pub proof fn lemma_empty_content_yields_nothing(query: Seq<char>)
    ensures
        matching_lines(query, Seq::empty()) == Seq::<Seq<char>>::empty(),
        ci_matching_lines(query, Seq::empty()) == Seq::<Seq<char>>::empty(),
{
    reveal(Seq::filter);
    assert(lines_of(Seq::empty()) =~= Seq::<Seq<char>>::empty());
    assert(matching_lines(query, Seq::empty()) =~= Seq::<Seq<char>>::empty());
    assert(ci_matching_lines(query, Seq::empty()) =~= Seq::<Seq<char>>::empty());
}

} // verus!
