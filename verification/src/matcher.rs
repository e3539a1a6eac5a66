//! The matcher: pure line search over full file contents.

use vstd::prelude::*;
use vstd::string::StrSliceExecFns;
use vstd::string::StringExecFns;
use crate::config::Config;
use crate::text::contains_seq;
use crate::text::contains_str;
use crate::text::dec_rep;
use crate::text::dec_string;
use crate::text::lemma_views_of_push;
use crate::text::line_seqs;
use crate::text::split_lines;
use crate::text::views_of;

verus! {

/// The lowercase form of a string, as `str::to_lowercase` computes it.
pub uninterp spec fn lower_of(s: Seq<char>) -> Seq<char>;

/// Relies on `str::to_lowercase` from std: the lowercase form depends on the
/// characters alone, so the result is named `lower_of`.
#[verifier::external_body]
fn lowercase(s: &str) -> (r: String)
    ensures
        r@ == lower_of(s@),
{
    s.to_lowercase()
}

/// Whether `line` matches `query` under the chosen mode: exact containment,
/// or containment of the lowercase forms.
pub open spec fn line_pred(line: Seq<char>, query: Seq<char>, case_sensitive: bool) -> bool {
    if case_sensitive {
        contains_seq(line, query)
    } else {
        contains_seq(lower_of(line), lower_of(query))
    }
}

/// One output entry for the line at 1-based position `index`.
pub open spec fn entry_of(index: int, line: Seq<char>, line_numbers: bool) -> Seq<char> {
    if line_numbers {
        dec_rep(index as nat) + seq![' '] + line
    } else {
        line
    }
}

/// The output entries for `lines`, in order: one entry per matching line,
/// numbered from 1.
pub open spec fn results_of(
    lines: Seq<Seq<char>>,
    query: Seq<char>,
    line_numbers: bool,
    case_sensitive: bool,
) -> Seq<Seq<char>>
    decreases lines.len(),
{
    if lines.len() == 0 {
        Seq::empty()
    } else {
        let prev = results_of(lines.drop_last(), query, line_numbers, case_sensitive);
        if line_pred(lines.last(), query, case_sensitive) {
            prev.push(entry_of(lines.len() as int, lines.last(), line_numbers))
        } else {
            prev
        }
    }
}

/// What a search returns: the entries for the lines of `contents`.
pub open spec fn search_spec(
    query: Seq<char>,
    contents: Seq<char>,
    line_numbers: bool,
    case_sensitive: bool,
) -> Seq<Seq<char>> {
    results_of(line_seqs(contents), query, line_numbers, case_sensitive)
}

/// Builds the output entry for `line` at 1-based position `index`.
fn format_entry(index: usize, line: &str, line_numbers: bool) -> (r: String)
    ensures
        r@ == entry_of(index as int, line@, line_numbers),
{
    if line_numbers {
        let mut s = dec_string(index as u64);
        s.append(" ");
        s.append(line);
        proof {
            reveal_strlit(" ");
            assert(" "@ =~= seq![' ']);
            assert(s@ =~= entry_of(index as int, line@, line_numbers));
        }
        s
    } else {
        String::from_str(line)
    }
}

/// Case-sensitive search: returns, in order, one entry for each line of
/// `contents` that contains `query` verbatim.
pub fn search(query: &str, contents: &str, line_numbers: bool) -> (results: Vec<String>)
    ensures
        views_of(results@) == search_spec(query@, contents@, line_numbers, true),
{
    let lines = split_lines(contents);
    let ghost lseq = line_seqs(contents@);
    let mut results: Vec<String> = Vec::new();
    let mut k: usize = 0;
    proof {
        assert(views_of(results@) =~= results_of(lseq.take(0), query@, line_numbers, true));
    }
    while k < lines.len()
        invariant
            views_of(lines@) == lseq,
            k <= lines.len(),
            views_of(results@) == results_of(lseq.take(k as int), query@, line_numbers, true),
        decreases lines.len() - k,
    {
        proof {
            assert(views_of(lines@)[k as int] == lines@[k as int]@);
        }
        let line: &str = lines[k].as_str();
        if contains_str(line, query) {
            let entry = format_entry(k + 1, line, line_numbers);
            proof {
                lemma_views_of_push(results@, entry);
            }
            results.push(entry);
        }
        proof {
            let p = lseq.take(k + 1 as int);
            assert(p.drop_last() =~= lseq.take(k as int));
            assert(p.last() == lseq[k as int]);
        }
        k = k + 1;
    }
    proof {
        assert(lseq.take(lines@.len() as int) =~= lseq);
    }
    results
}

/// Case-insensitive search: returns, in order, one entry for each line of
/// `contents` whose lowercase form contains the lowercase form of `query`;
/// entries carry the original, unfolded line text.
pub fn search_case_insensitive(query: &str, contents: &str, line_numbers: bool) -> (results: Vec<
    String,
>)
    ensures
        views_of(results@) == search_spec(query@, contents@, line_numbers, false),
{
    let lines = split_lines(contents);
    let ghost lseq = line_seqs(contents@);
    let lowered_query = lowercase(query);
    let mut results: Vec<String> = Vec::new();
    let mut k: usize = 0;
    proof {
        assert(views_of(results@) =~= results_of(lseq.take(0), query@, line_numbers, false));
    }
    while k < lines.len()
        invariant
            views_of(lines@) == lseq,
            lowered_query@ == lower_of(query@),
            k <= lines.len(),
            views_of(results@) == results_of(lseq.take(k as int), query@, line_numbers, false),
        decreases lines.len() - k,
    {
        proof {
            assert(views_of(lines@)[k as int] == lines@[k as int]@);
        }
        let line: &str = lines[k].as_str();
        let lowered_line = lowercase(line);
        if contains_str(lowered_line.as_str(), lowered_query.as_str()) {
            let entry = format_entry(k + 1, line, line_numbers);
            proof {
                lemma_views_of_push(results@, entry);
            }
            results.push(entry);
        }
        proof {
            let p = lseq.take(k + 1 as int);
            assert(p.drop_last() =~= lseq.take(k as int));
            assert(p.last() == lseq[k as int]);
        }
        k = k + 1;
    }
    proof {
        assert(lseq.take(lines@.len() as int) =~= lseq);
    }
    results
}

/// Runs the search that `config` asks for over `contents`, choosing the
/// case-sensitivity mode from the configuration.
pub fn search_config(config: &Config, contents: &str) -> (results: Vec<String>)
    ensures
        views_of(results@) == search_spec(
            config.query@,
            contents@,
            config.line_numbers,
            config.case_sensitive,
        ),
{
    if config.case_sensitive {
        search(config.query.as_str(), contents, config.line_numbers)
    } else {
        search_case_insensitive(config.query.as_str(), contents, config.line_numbers)
    }
}

/// The match predicate for one query and mode, as a function on lines.
pub open spec fn match_pred(query: Seq<char>, case_sensitive: bool) -> spec_fn(Seq<char>) -> bool {
    |line: Seq<char>| line_pred(line, query, case_sensitive)
}

/// The matching lines of `lines`, each paired with its 1-based position.
pub open spec fn matched_pairs(
    lines: Seq<Seq<char>>,
    query: Seq<char>,
    case_sensitive: bool,
) -> Seq<(int, Seq<char>)>
    decreases lines.len(),
{
    if lines.len() == 0 {
        Seq::empty()
    } else {
        let prev = matched_pairs(lines.drop_last(), query, case_sensitive);
        if line_pred(lines.last(), query, case_sensitive) {
            prev.push((lines.len() as int, lines.last()))
        } else {
            prev
        }
    }
}

/// The output entry for one matched pair.
pub open spec fn pair_entry(line_numbers: bool) -> spec_fn((int, Seq<char>)) -> Seq<char> {
    |p: (int, Seq<char>)| entry_of(p.0, p.1, line_numbers)
}

proof fn lemma_results_of_filter_rec(lines: Seq<Seq<char>>, query: Seq<char>, case_sensitive: bool)
    ensures
        results_of(lines, query, false, case_sensitive) == lines.filter(
            match_pred(query, case_sensitive),
        ),
    decreases lines.len(),
{
    reveal(Seq::filter);
    if lines.len() == 0 {
        assert(lines.filter(match_pred(query, case_sensitive)) =~= Seq::empty());
    } else {
        lemma_results_of_filter_rec(lines.drop_last(), query, case_sensitive);
        assert(match_pred(query, case_sensitive)(lines.last()) == line_pred(
            lines.last(),
            query,
            case_sensitive,
        ));
    }
}

/// Without line numbers, a case-sensitive search returns exactly the lines
/// of the contents that contain the query, in their original order.
pub proof fn lemma_search_sensitive_exact(query: Seq<char>, contents: Seq<char>)
    ensures
        search_spec(query, contents, false, true) == line_seqs(contents).filter(
            match_pred(query, true),
        ),
        forall|line: Seq<char>| #[trigger]
            match_pred(query, true)(line) == contains_seq(line, query),
{
    lemma_results_of_filter_rec(line_seqs(contents), query, true);
}

/// Without line numbers, a case-insensitive search returns exactly the lines
/// of the contents whose lowercase form contains the lowercase form of the
/// query, in their original order and with their original text.
pub proof fn lemma_search_insensitive_exact(query: Seq<char>, contents: Seq<char>)
    ensures
        search_spec(query, contents, false, false) == line_seqs(contents).filter(
            match_pred(query, false),
        ),
        forall|line: Seq<char>| #[trigger]
            match_pred(query, false)(line) == contains_seq(lower_of(line), lower_of(query)),
{
    lemma_results_of_filter_rec(line_seqs(contents), query, false);
}

/// Each matched pair records the 1-based position of a line of `lines` that
/// satisfies the match predicate, and carries that line verbatim.
pub proof fn lemma_matched_pairs_sound(
    lines: Seq<Seq<char>>,
    query: Seq<char>,
    case_sensitive: bool,
)
    ensures
        forall|k: int|
            0 <= k < matched_pairs(lines, query, case_sensitive).len() ==> {
                let p = #[trigger] matched_pairs(lines, query, case_sensitive)[k];
                &&& 1 <= p.0 <= lines.len()
                &&& p.1 == lines[p.0 - 1]
                &&& line_pred(p.1, query, case_sensitive)
            },
    decreases lines.len(),
{
    if lines.len() == 0 {
    } else {
        lemma_matched_pairs_sound(lines.drop_last(), query, case_sensitive);
        let prev = matched_pairs(lines.drop_last(), query, case_sensitive);
        assert forall|k: int|
            0 <= k < matched_pairs(lines, query, case_sensitive).len() implies {
            let p = #[trigger] matched_pairs(lines, query, case_sensitive)[k];
            &&& 1 <= p.0 <= lines.len()
            &&& p.1 == lines[p.0 - 1]
            &&& line_pred(p.1, query, case_sensitive)
        } by {
            if k < prev.len() {
                assert(matched_pairs(lines, query, case_sensitive)[k] == prev[k]);
                assert(lines.drop_last()[prev[k].0 - 1] == lines[prev[k].0 - 1]);
            }
        }
    }
}

/// Turning line numbers on keeps exactly the same matched lines and only
/// changes each entry from the bare line to the line's 1-based position in
/// decimal, one space, then the line.
pub proof fn lemma_line_numbers_prefix(
    lines: Seq<Seq<char>>,
    query: Seq<char>,
    case_sensitive: bool,
)
    ensures
        results_of(lines, query, false, case_sensitive) == matched_pairs(
            lines,
            query,
            case_sensitive,
        ).map_values(pair_entry(false)),
        results_of(lines, query, true, case_sensitive) == matched_pairs(
            lines,
            query,
            case_sensitive,
        ).map_values(pair_entry(true)),
        forall|p: (int, Seq<char>)| #[trigger] pair_entry(false)(p) == p.1,
        forall|p: (int, Seq<char>)| #[trigger]
            pair_entry(true)(p) == dec_rep(p.0 as nat) + seq![' '] + p.1,
    decreases lines.len(),
{
    if lines.len() == 0 {
        assert(matched_pairs(lines, query, case_sensitive).map_values(pair_entry(false)) =~= Seq::<
            Seq<char>,
        >::empty());
        assert(matched_pairs(lines, query, case_sensitive).map_values(pair_entry(true)) =~= Seq::<
            Seq<char>,
        >::empty());
    } else {
        lemma_line_numbers_prefix(lines.drop_last(), query, case_sensitive);
        let prev = matched_pairs(lines.drop_last(), query, case_sensitive);
        if line_pred(lines.last(), query, case_sensitive) {
            let p = (lines.len() as int, lines.last());
            assert(prev.push(p).map_values(pair_entry(false)) =~= prev.map_values(
                pair_entry(false),
            ).push(pair_entry(false)(p)));
            assert(prev.push(p).map_values(pair_entry(true)) =~= prev.map_values(
                pair_entry(true),
            ).push(pair_entry(true)(p)));
        }
    }
}

/// Searching is deterministic: any two results that the search contract
/// allows for the same query, contents and flags are equal.
pub proof fn lemma_search_deterministic(
    query: Seq<char>,
    contents: Seq<char>,
    line_numbers: bool,
    case_sensitive: bool,
    r1: Seq<Seq<char>>,
    r2: Seq<Seq<char>>,
)
    requires
        r1 == search_spec(query, contents, line_numbers, case_sensitive),
        r2 == search_spec(query, contents, line_numbers, case_sensitive),
    ensures
        r1 == r2,
{
}

} // verus!
