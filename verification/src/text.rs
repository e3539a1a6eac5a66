//! Character-level building blocks: substring containment, splitting text
//! into lines, and decimal rendering of line numbers.

use vstd::prelude::*;
use vstd::string::StrSliceExecFns;
use vstd::string::StringExecFns;

verus! {

/// The views of a sequence of strings.
pub open spec fn views_of(v: Seq<String>) -> Seq<Seq<char>> {
    v.map_values(|s: String| s@)
}

pub proof fn lemma_views_of_push(v: Seq<String>, s: String)
    ensures
        views_of(v.push(s)) == views_of(v) + seq![s@],
{
    assert(views_of(v.push(s)) =~= views_of(v) + seq![s@]);
}

/// `pat` occurs somewhere in `text` as a contiguous run of characters.
pub open spec fn contains_seq(text: Seq<char>, pat: Seq<char>) -> bool {
    exists|i: int|
        0 <= i <= text.len() - pat.len() && #[trigger] text.subrange(i, i + pat.len() as int)
            == pat
}

/// Whether `pat` stands in `text` starting at position `i`.
fn match_at(text: &str, pat: &str, i: usize) -> (r: bool)
    requires
        i + pat@.len() <= text@.len(),
    ensures
        r == (text@.subrange(i as int, i as int + pat@.len() as int) == pat@),
{
    let n: usize = text.unicode_len();
    let m: usize = pat.unicode_len();
    let mut j: usize = 0;
    while j < m
        invariant
            n == text@.len(),
            m == pat@.len(),
            i + m <= n,
            0 <= j <= m,
            forall|k: int| 0 <= k < j ==> text@[i + k] == pat@[k],
        decreases m - j,
    {
        if text.get_char(i + j) != pat.get_char(j) {
            proof {
                assert(text@.subrange(i as int, i as int + pat@.len() as int)[j as int]
                    == text@[i + j]);
            }
            return false;
        }
        j = j + 1;
    }
    proof {
        assert(text@.subrange(i as int, i as int + pat@.len() as int) =~= pat@);
    }
    true
}

/// Decides whether `pat@` occurs in `text@` as a contiguous substring.
pub fn contains_str(text: &str, pat: &str) -> (r: bool)
    ensures
        r == contains_seq(text@, pat@),
{
    let n: usize = text.unicode_len();
    let m: usize = pat.unicode_len();
    if m == 0 {
        proof {
            assert(contains_seq(text@, pat@)) by {
                assert(text@.subrange(0, 0 + pat@.len() as int) =~= pat@);
            }
        }
        return true;
    }
    if m > n {
        return false;
    }
    let mut i: usize = 0;
    while i <= n - m
        invariant
            n == text@.len(),
            m == pat@.len(),
            1 <= m <= n,
            0 <= i <= n - m + 1,
            forall|i2: int|
                0 <= i2 < i ==> #[trigger] text@.subrange(i2, i2 + pat@.len() as int) != pat@,
        decreases n - m - i + 1,
    {
        if match_at(text, pat, i) {
            proof {
                assert(contains_seq(text@, pat@)) by {
                    assert(text@.subrange(i as int, i as int + pat@.len() as int) == pat@);
                }
            }
            return true;
        }
        i = i + 1;
    }
    false
}

/// A line with its terminator removed: a single trailing carriage return,
/// left over from a `"\r\n"` line break, is stripped.
pub open spec fn strip_cr(line: Seq<char>) -> Seq<char> {
    if line.len() > 0 && line.last() == '\r' {
        line.drop_last()
    } else {
        line
    }
}

/// The position of the first line feed in `s`, or `s.len()` if there is none.
pub open spec fn first_nl(s: Seq<char>) -> nat
    decreases s.len(),
{
    if s.len() == 0 {
        0
    } else if s[0] == '\n' {
        0
    } else {
        first_nl(s.drop_first()) + 1
    }
}

/// The lines of `s`: pieces separated by `'\n'`, each stripped of a trailing
/// `'\r'` that preceded the line feed. A final fragment without a terminator
/// is a line of its own, kept verbatim; text ending in a line break yields no
/// extra empty line.
pub open spec fn line_seqs(s: Seq<char>) -> Seq<Seq<char>>
    decreases s.len(),
{
    if s.len() == 0 {
        Seq::empty()
    } else {
        let i = first_nl(s) as int;
        if i < s.len() {
            seq![strip_cr(s.take(i))] + line_seqs(s.skip(i + 1))
        } else {
            seq![s]
        }
    }
}

pub proof fn lemma_first_nl_is(s: Seq<char>, j: int)
    requires
        0 <= j <= s.len(),
        forall|k: int| 0 <= k < j ==> s[k] != '\n',
        j < s.len() ==> s[j] == '\n',
    ensures
        first_nl(s) == j,
    decreases s.len(),
{
    if s.len() == 0 {
    } else if j == 0 {
    } else {
        assert(s[0] != '\n');
        assert forall|k: int| 0 <= k < j - 1 implies s.drop_first()[k] != '\n' by {
            assert(s.drop_first()[k] == s[k + 1]);
        }
        if j - 1 < s.drop_first().len() {
            assert(s.drop_first()[j - 1] == s[j]);
        }
        lemma_first_nl_is(s.drop_first(), j - 1);
    }
}

/// Splits `contents` into its lines, in order.
pub fn split_lines(contents: &str) -> (r: Vec<String>)
    ensures
        views_of(r@) == line_seqs(contents@),
{
    let n: usize = contents.unicode_len();
    let mut r: Vec<String> = Vec::new();
    let mut start: usize = 0;
    let mut i: usize = 0;
    proof {
        assert(contents@.skip(0) =~= contents@);
        assert(views_of(Seq::<String>::empty()) + line_seqs(contents@) =~= line_seqs(
            contents@,
        ));
        assert(r@ =~= Seq::<String>::empty());
    }
    while i < n
        invariant
            n == contents@.len(),
            start <= i <= n,
            forall|k: int| start <= k < i ==> contents@[k] != '\n',
            line_seqs(contents@) == views_of(r@) + line_seqs(contents@.skip(start as int)),
        decreases n - i,
    {
        let c = contents.get_char(i);
        if c == '\n' {
            let end: usize = if i > start && contents.get_char(i - 1) == '\r' {
                i - 1
            } else {
                i
            };
            let line = contents.substring_char(start, end);
            let s = String::from_str(line);
            proof {
                let t = contents@.skip(start as int);
                let j = i as int - start as int;
                assert forall|k: int| 0 <= k < j implies t[k] != '\n' by {
                    assert(t[k] == contents@[start + k]);
                }
                assert(t[j] == contents@[i as int]);
                lemma_first_nl_is(t, j);
                assert(line_seqs(t) == seq![strip_cr(t.take(j))] + line_seqs(t.skip(j + 1)));
                assert(t.take(j) =~= contents@.subrange(start as int, i as int));
                if end < i {
                    assert(t.take(j).last() == contents@[i - 1]);
                    assert(strip_cr(t.take(j)) =~= contents@.subrange(
                        start as int,
                        end as int,
                    ));
                } else {
                    assert(strip_cr(t.take(j)) =~= contents@.subrange(
                        start as int,
                        end as int,
                    ));
                }
                assert(s@ == strip_cr(t.take(j)));
                assert(t.skip(j + 1) =~= contents@.skip(i + 1));
                lemma_views_of_push(r@, s);
                assert(views_of(r@) + line_seqs(t) =~= views_of(r@.push(s)) + line_seqs(
                    contents@.skip(i + 1),
                ));
            }
            r.push(s);
            start = i + 1;
        }
        i = i + 1;
    }
    if start < n {
        let line = contents.substring_char(start, n);
        let s = String::from_str(line);
        proof {
            let t = contents@.skip(start as int);
            assert forall|k: int| 0 <= k < t.len() implies t[k] != '\n' by {
                assert(t[k] == contents@[start + k]);
            }
            lemma_first_nl_is(t, t.len() as int);
            assert(line_seqs(t) == seq![t]);
            assert(t =~= contents@.subrange(start as int, n as int));
            lemma_views_of_push(r@, s);
            assert(views_of(r@) + line_seqs(t) =~= views_of(r@.push(s)));
        }
        r.push(s);
    } else {
        proof {
            let t = contents@.skip(start as int);
            assert(t.len() == 0);
            assert(views_of(r@) + line_seqs(t) =~= views_of(r@));
        }
    }
    r
}

/// The character for one decimal digit.
pub open spec fn dec_digit(d: int) -> char {
    if d == 0 {
        '0'
    } else if d == 1 {
        '1'
    } else if d == 2 {
        '2'
    } else if d == 3 {
        '3'
    } else if d == 4 {
        '4'
    } else if d == 5 {
        '5'
    } else if d == 6 {
        '6'
    } else if d == 7 {
        '7'
    } else if d == 8 {
        '8'
    } else {
        '9'
    }
}

/// The usual decimal rendering of `n`, most significant digit first and
/// without leading zeros (a single `'0'` for zero).
pub open spec fn dec_rep(n: nat) -> Seq<char>
    decreases n,
{
    if n < 10 {
        seq![dec_digit(n as int)]
    } else {
        dec_rep(n / 10) + seq![dec_digit((n % 10) as int)]
    }
}

fn digit_str(d: u64) -> (r: &'static str)
    requires
        d < 10,
    ensures
        r@ == seq![dec_digit(d as int)],
{
    let r: &'static str = if d == 0 {
        "0"
    } else if d == 1 {
        "1"
    } else if d == 2 {
        "2"
    } else if d == 3 {
        "3"
    } else if d == 4 {
        "4"
    } else if d == 5 {
        "5"
    } else if d == 6 {
        "6"
    } else if d == 7 {
        "7"
    } else if d == 8 {
        "8"
    } else {
        "9"
    };
    proof {
        reveal_strlit("0");
        reveal_strlit("1");
        reveal_strlit("2");
        reveal_strlit("3");
        reveal_strlit("4");
        reveal_strlit("5");
        reveal_strlit("6");
        reveal_strlit("7");
        reveal_strlit("8");
        reveal_strlit("9");
        assert(r@ =~= seq![dec_digit(d as int)]);
    }
    r
}

/// Renders `n` in decimal.
pub fn dec_string(n: u64) -> (r: String)
    ensures
        r@ == dec_rep(n as nat),
    decreases n,
{
    if n < 10 {
        String::from_str(digit_str(n))
    } else {
        let mut r = dec_string(n / 10);
        r.append(digit_str(n % 10));
        proof {
            assert(r@ =~= dec_rep(n as nat));
        }
        r
    }
}

} // verus!
