//! The line matcher: splitting a text into lines and selecting the lines
//! that contain a query substring.

use vstd::prelude::*;

verus! {

/// Index of the first line break in `s`, or `s.len()` if `s` has none.
pub open spec fn first_line_break(s: Seq<char>) -> int
    decreases s.len(),
{
    if s.len() == 0 {
        0
    } else if s[0] == '\n' {
        0
    } else {
        1 + first_line_break(s.subrange(1, s.len() as int))
    }
}

pub broadcast proof fn lemma_first_line_break_bounds(s: Seq<char>)
    ensures
        0 <= #[trigger] first_line_break(s) <= s.len(),
    decreases s.len(),
{
    if s.len() != 0 && s[0] != '\n' {
        lemma_first_line_break_bounds(s.subrange(1, s.len() as int));
    }
}

/// The lines of `s`, in order: maximal runs of characters between `'\n'`
/// breaks. A final line break closes the last line without opening an empty
/// one, so `lines_of("a\n")` and `lines_of("a")` are both `["a"]`, while an
/// empty text has no lines at all. A `'\r'` is an ordinary character here.
pub open spec fn lines_of(s: Seq<char>) -> Seq<Seq<char>>
    decreases s.len(),
    when 0 <= first_line_break(s) <= s.len()
    via lines_of_decreases
{
    if s.len() == 0 {
        Seq::empty()
    } else {
        let k = first_line_break(s);
        if k == s.len() {
            seq![s]
        } else {
            seq![s.subrange(0, k)] + lines_of(s.subrange(k + 1, s.len() as int))
        }
    }
}

#[via_fn]
proof fn lines_of_decreases(s: Seq<char>) {
    lemma_first_line_break_bounds(s);
}

/// `first_line_break` is pinned down by a witness: if no break occurs before
/// position `k`, and `k` is a break or the end of the text, then `k` is it.
proof fn lemma_first_line_break_at(s: Seq<char>, k: int)
    requires
        0 <= k <= s.len(),
        forall|j: int| 0 <= j < k ==> s[j] != '\n',
        k < s.len() ==> s[k] == '\n',
    ensures
        first_line_break(s) == k,
    decreases s.len(),
{
    if s.len() != 0 && s[0] != '\n' {
        let t = s.subrange(1, s.len() as int);
        lemma_first_line_break_at(t, k - 1);
    }
}

/// Unfolds `lines_of` at a break: when the characters of `s` from `start` up
/// to a break at position `i` are break-free, the lines of the tail starting
/// at `start` are that run followed by the lines of the tail after the break.
proof fn lemma_split_first_line(s: Seq<char>, start: int, i: int)
    requires
        0 <= start <= i < s.len(),
        forall|j: int| start <= j < i ==> s[j] != '\n',
        s[i] == '\n',
    ensures
        lines_of(s.subrange(start, s.len() as int)) == seq![s.subrange(start, i)] + lines_of(
            s.subrange(i + 1, s.len() as int),
        ),
{
    broadcast use lemma_first_line_break_bounds;

    let n = s.len() as int;
    let t = s.subrange(start, n);
    assert(forall|j: int| 0 <= j < i - start ==> t[j] != '\n');
    assert(t[i - start] == '\n');
    lemma_first_line_break_at(t, i - start);
    assert(t.subrange(0, i - start) =~= s.subrange(start, i));
    assert(t.subrange(i - start + 1, t.len() as int) =~= s.subrange(i + 1, n));
}

/// Splits `contents` into its lines, as `lines_of` describes.
pub fn split_lines<'a>(contents: &'a str) -> (lines: Vec<&'a str>)
    ensures
        lines@.map_values(|l: &str| l@) == lines_of(contents@),
{
    broadcast use lemma_first_line_break_bounds;

    let n = contents.unicode_len();
    let mut lines: Vec<&'a str> = Vec::new();
    let mut start: usize = 0;
    let mut i: usize = 0;
    proof {
        assert(contents@.subrange(0, n as int) =~= contents@);
        assert(lines@.map_values(|l: &str| l@) =~= Seq::<Seq<char>>::empty());
        assert(Seq::<Seq<char>>::empty() + lines_of(contents@) =~= lines_of(contents@));
    }
    while i < n
        invariant
            0 <= start <= i <= n,
            n == contents@.len(),
            forall|j: int| start <= j < i ==> contents@[j] != '\n',
            lines@.map_values(|l: &str| l@) + lines_of(contents@.subrange(start as int, n as int))
                == lines_of(contents@),
        decreases n - i,
    {
        let c = contents.get_char(i);
        if c == '\n' {
            let line = contents.substring_char(start, i);
            proof {
                lemma_split_first_line(contents@, start as int, i as int);
                assert(lines@.push(line).map_values(|l: &str| l@) =~= lines@.map_values(
                    |l: &str| l@,
                ).push(line@));
                assert(lines@.map_values(|l: &str| l@).push(line@) + lines_of(
                    contents@.subrange(i + 1, n as int),
                ) =~= lines@.map_values(|l: &str| l@) + (seq![line@] + lines_of(
                    contents@.subrange(i + 1, n as int),
                )));
            }
            lines.push(line);
            start = i + 1;
        }
        i += 1;
    }
    if start < n {
        let line = contents.substring_char(start, n);
        proof {
            let t = contents@.subrange(start as int, n as int);
            lemma_first_line_break_at(t, t.len() as int);
            assert(lines@.push(line).map_values(|l: &str| l@) =~= lines@.map_values(
                |l: &str| l@,
            ).push(line@));
            assert(lines@.map_values(|l: &str| l@).push(line@) =~= lines@.map_values(
                |l: &str| l@,
            ) + seq![t]);
        }
        lines.push(line);
    } else {
        proof {
            let t = contents@.subrange(start as int, n as int);
            assert(t =~= Seq::<char>::empty());
            assert(lines@.map_values(|l: &str| l@) + lines_of(t) =~= lines@.map_values(
                |l: &str| l@,
            ));
        }
    }
    lines
}

/// `pat` occurs in `text` starting at position `i`.
pub open spec fn occurs_at(text: Seq<char>, pat: Seq<char>, i: int) -> bool {
    0 <= i && i + pat.len() <= text.len() && text.subrange(i, i + pat.len() as int) == pat
}

/// `pat` occurs somewhere in `text`; the empty pattern occurs in every text.
pub open spec fn has_substring(text: Seq<char>, pat: Seq<char>) -> bool {
    exists|i: int| occurs_at(text, pat, i)
}

/// Whether `pat` occurs in `text` starting at position `i`.
fn occurs_at_index(text: &str, pat: &str, i: usize) -> (b: bool)
    requires
        i + pat@.len() <= text@.len(),
        text@.len() <= usize::MAX,
    ensures
        b == occurs_at(text@, pat@, i as int),
{
    let m = pat.unicode_len();
    let mut j: usize = 0;
    while j < m
        invariant
            0 <= j <= m,
            m == pat@.len(),
            i + m <= text@.len(),
            text@.len() <= usize::MAX,
            forall|k: int| 0 <= k < j ==> text@[i + k] == pat@[k],
        decreases m - j,
    {
        if text.get_char(i + j) != pat.get_char(j) {
            proof {
                assert(text@.subrange(i as int, i + m) != pat@) by {
                    assert(text@.subrange(i as int, i + m)[j as int] == text@[i + j]);
                }
            }
            return false;
        }
        j += 1;
    }
    proof {
        assert(text@.subrange(i as int, i + m) =~= pat@);
    }
    true
}

/// Whether `pat` occurs anywhere in `text` as a contiguous run of characters.
pub fn contains_substring(text: &str, pat: &str) -> (b: bool)
    ensures
        b == has_substring(text@, pat@),
{
    let n = text.unicode_len();
    let m = pat.unicode_len();
    if m > n {
        return false;
    }
    if m == 0 {
        proof {
            assert(text@.subrange(0, 0) =~= pat@);
            assert(occurs_at(text@, pat@, 0));
        }
        return true;
    }
    let mut i: usize = 0;
    while i <= n - m
        invariant
            0 <= i <= n,
            1 <= m <= n,
            n == text@.len(),
            m == pat@.len(),
            forall|k: int| 0 <= k < i ==> !occurs_at(text@, pat@, k),
        decreases n - i,
    {
        if occurs_at_index(text, pat, i) {
            proof {
                assert(has_substring(text@, pat@)) by {
                    assert(occurs_at(text@, pat@, i as int));
                }
            }
            return true;
        }
        i += 1;
    }
    false
}

/// The lowercase folding of `s`, as the host folding routine computes it.
pub uninterp spec fn lower_of(s: Seq<char>) -> Seq<char>;

/// Relies on `str::to_lowercase`: the folding is a pure function of the
/// characters of `s` alone (Unicode lowercasing, with no locale input).
#[verifier::external_body]
fn to_lowercase_owned(s: &str) -> (r: String)
    ensures
        r@ == lower_of(s@),
{
    s.to_lowercase()
}

/// Appending one element to a sequence extends its filtered sequence by that
/// element exactly when the element satisfies the predicate.
proof fn lemma_filter_push<A>(s: Seq<A>, pred: spec_fn(A) -> bool, x: A)
    ensures
        s.push(x).filter(pred) == (if pred(x) {
            s.filter(pred).push(x)
        } else {
            s.filter(pred)
        }),
{
    reveal(Seq::filter);
    assert(s.push(x).drop_last() =~= s);
    assert(s.push(x).last() == x);
}

/// The lines of `contents` that contain `query` exactly, in original order.
pub open spec fn sensitive_matches(query: Seq<char>, contents: Seq<char>) -> Seq<Seq<char>> {
    lines_of(contents).filter(|l: Seq<char>| has_substring(l, query))
}

/// The lines of `contents` whose lowercase folding contains the lowercase
/// folding of `query`, in original order.
pub open spec fn insensitive_matches(query: Seq<char>, contents: Seq<char>) -> Seq<Seq<char>> {
    lines_of(contents).filter(|l: Seq<char>| has_substring(lower_of(l), lower_of(query)))
}

/// Returns, in original order, every line of `contents` that contains
/// `query` as an exact substring.
pub fn search<'a>(query: &str, contents: &'a str) -> (matches: Vec<&'a str>)
    ensures
        matches@.map_values(|l: &str| l@) == sensitive_matches(query@, contents@),
{
    let lines = split_lines(contents);
    let mut matches: Vec<&'a str> = Vec::new();
    let n = lines.len();
    let ghost all = lines_of(contents@);
    let ghost pred = |l: Seq<char>| has_substring(l, query@);
    proof {
        assert(all.subrange(0, 0) =~= Seq::<Seq<char>>::empty());
        assert(matches@.map_values(|l: &str| l@) =~= Seq::<Seq<char>>::empty());
        assert(Seq::<Seq<char>>::empty().filter(pred) =~= Seq::<Seq<char>>::empty()) by {
            reveal(Seq::filter);
        }
    }
    let mut i: usize = 0;
    while i < n
        invariant
            0 <= i <= n,
            n == lines@.len(),
            lines@.map_values(|l: &str| l@) == all,
            all == lines_of(contents@),
            pred == (|l: Seq<char>| has_substring(l, query@)),
            matches@.map_values(|l: &str| l@) == all.subrange(0, i as int).filter(pred),
        decreases n - i,
    {
        let line = lines[i];
        proof {
            assert(line@ == all[i as int]);
            lemma_filter_push(all.subrange(0, i as int), pred, all[i as int]);
            assert(all.subrange(0, i as int).push(all[i as int]) =~= all.subrange(0, i + 1));
        }
        if contains_substring(line, query) {
            proof {
                assert(matches@.push(line).map_values(|l: &str| l@) =~= matches@.map_values(
                    |l: &str| l@,
                ).push(line@));
            }
            matches.push(line);
        }
        i += 1;
    }
    proof {
        assert(all.subrange(0, n as int) =~= all);
    }
    matches
}

/// Returns, in original order, every line of `contents` that contains
/// `query` up to lowercase folding; the lines come back unfolded. The query
/// is folded once, and each line once, before the substring comparison.
pub fn search_case_insensitive<'a>(query: &str, contents: &'a str) -> (matches: Vec<&'a str>)
    ensures
        matches@.map_values(|l: &str| l@) == insensitive_matches(query@, contents@),
{
    let folded_query = to_lowercase_owned(query);
    let lines = split_lines(contents);
    let mut matches: Vec<&'a str> = Vec::new();
    let n = lines.len();
    let ghost all = lines_of(contents@);
    let ghost pred = |l: Seq<char>| has_substring(lower_of(l), lower_of(query@));
    proof {
        assert(all.subrange(0, 0) =~= Seq::<Seq<char>>::empty());
        assert(matches@.map_values(|l: &str| l@) =~= Seq::<Seq<char>>::empty());
        assert(Seq::<Seq<char>>::empty().filter(pred) =~= Seq::<Seq<char>>::empty()) by {
            reveal(Seq::filter);
        }
    }
    let mut i: usize = 0;
    while i < n
        invariant
            0 <= i <= n,
            n == lines@.len(),
            lines@.map_values(|l: &str| l@) == all,
            all == lines_of(contents@),
            folded_query@ == lower_of(query@),
            pred == (|l: Seq<char>| has_substring(lower_of(l), lower_of(query@))),
            matches@.map_values(|l: &str| l@) == all.subrange(0, i as int).filter(pred),
        decreases n - i,
    {
        let line = lines[i];
        let folded_line = to_lowercase_owned(line);
        proof {
            assert(line@ == all[i as int]);
            lemma_filter_push(all.subrange(0, i as int), pred, all[i as int]);
            assert(all.subrange(0, i as int).push(all[i as int]) =~= all.subrange(0, i + 1));
        }
        if contains_substring(folded_line.as_str(), folded_query.as_str()) {
            proof {
                assert(matches@.push(line).map_values(|l: &str| l@) =~= matches@.map_values(
                    |l: &str| l@,
                ).push(line@));
            }
            matches.push(line);
        }
        i += 1;
    }
    proof {
        assert(all.subrange(0, n as int) =~= all);
    }
    matches
}

/// A filter keeps a sequence unchanged when its predicate holds everywhere.
proof fn lemma_filter_all_true<A>(s: Seq<A>, pred: spec_fn(A) -> bool)
    requires
        forall|i: int| 0 <= i < s.len() ==> pred(s[i]),
    ensures
        s.filter(pred) == s,
    decreases s.len(),
{
    reveal(Seq::filter);
    if s.len() > 0 {
        lemma_filter_all_true(s.drop_last(), pred);
        assert(s.drop_last().push(s.last()) =~= s);
    }
}

/// The exact search is sound and complete: it reports only lines of the text
/// that contain the query, and reports every line of the text that does. The
/// reported sequence is the order-preserving selection of those lines, one
/// entry per matching line of the text, as `sensitive_matches` states.
pub proof fn lemma_search_characterization(query: Seq<char>, contents: Seq<char>)
    ensures
        forall|i: int|
            0 <= i < sensitive_matches(query, contents).len() ==> has_substring(
                #[trigger] sensitive_matches(query, contents)[i],
                query,
            ) && lines_of(contents).contains(sensitive_matches(query, contents)[i]),
        forall|i: int|
            0 <= i < lines_of(contents).len() && has_substring(
                #[trigger] lines_of(contents)[i],
                query,
            ) ==> sensitive_matches(query, contents).contains(lines_of(contents)[i]),
{
    broadcast use vstd::seq_lib::group_filter_ensures, Seq::lemma_filter_contains_rev;

    let ms = sensitive_matches(query, contents);
    assert forall|i: int| 0 <= i < ms.len() implies has_substring(#[trigger] ms[i], query)
        && lines_of(contents).contains(ms[i]) by {
        assert(ms.contains(ms[i]));
    }
}

/// When lowercase folding never destroys an occurrence of the query — the
/// query has no case sensitivity of its own — every line that the exact
/// search reports is also reported by the folding search.
pub proof fn lemma_search_subset_of_insensitive(query: Seq<char>, contents: Seq<char>)
    requires
        forall|l: Seq<char>|
            has_substring(l, query) ==> has_substring(lower_of(l), lower_of(query)),
    ensures
        forall|l: Seq<char>|
            #[trigger] sensitive_matches(query, contents).contains(l) ==> insensitive_matches(
                query,
                contents,
            ).contains(l),
{
    broadcast use vstd::seq_lib::group_filter_ensures, Seq::lemma_filter_contains_rev;

    let all = lines_of(contents);
    assert forall|l: Seq<char>| #[trigger]
        sensitive_matches(query, contents).contains(l) implies insensitive_matches(
        query,
        contents,
    ).contains(l) by {
        let ms = sensitive_matches(query, contents);
        let i = choose|i: int| 0 <= i < ms.len() && ms[i] == l;
        assert(has_substring(l, query));
        assert(all.contains(l));
        let j = choose|j: int| 0 <= j < all.len() && all[j] == l;
        assert(has_substring(lower_of(all[j]), lower_of(query)));
    }
}

/// An empty query matches every line: searching for it returns the lines of
/// the text, all of them, unchanged and in order.
pub proof fn lemma_empty_query_matches_all(contents: Seq<char>)
    ensures
        sensitive_matches(Seq::empty(), contents) == lines_of(contents),
{
    let all = lines_of(contents);
    let pred = |l: Seq<char>| has_substring(l, Seq::<char>::empty());
    assert forall|i: int| 0 <= i < all.len() implies pred(all[i]) by {
        assert(all[i].subrange(0, 0) =~= Seq::<char>::empty());
        assert(occurs_at(all[i], Seq::<char>::empty(), 0));
    }
    lemma_filter_all_true(all, pred);
}

/// An empty text has no lines, so both searches return nothing on it,
/// whatever the query.
pub proof fn lemma_empty_contents_no_matches(query: Seq<char>)
    ensures
        sensitive_matches(query, Seq::empty()) == Seq::<Seq<char>>::empty(),
        insensitive_matches(query, Seq::empty()) == Seq::<Seq<char>>::empty(),
{
    broadcast use lemma_first_line_break_bounds;

    reveal(Seq::filter);
    assert(lines_of(Seq::<char>::empty()) == Seq::<Seq<char>>::empty());
}

} // verus!
