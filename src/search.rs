//! Line search over an in-memory text.

use vstd::prelude::*;

use crate::config::Config;
use crate::text::{
    contains_seq, has_substring, lines_of, lower_of, lowercase, split_lines, trim_line, trim_of,
    views,
};

verus! {

/// The lines of `contents`, each trimmed of leading and trailing whitespace.
pub open spec fn trimmed_lines(contents: Seq<char>) -> Seq<Seq<char>> {
    lines_of(contents).map_values(|l: Seq<char>| trim_of(l))
}

/// The trimmed lines of `contents` that contain `query`, in their order.
pub open spec fn matching_lines(query: Seq<char>, contents: Seq<char>) -> Seq<Seq<char>> {
    trimmed_lines(contents).filter(|t: Seq<char>| contains_seq(t, query))
}

/// The trimmed lines of `contents` whose lower-case form contains the
/// lower-case form of `query`, in their order.
pub open spec fn matching_lines_ignoring_case(query: Seq<char>, contents: Seq<char>) -> Seq<
    Seq<char>,
> {
    trimmed_lines(contents).filter(|t: Seq<char>| contains_seq(lower_of(t), lower_of(query)))
}

/// The lines whose key, at the same position in `keys`, contains `needle`.
pub open spec fn selected(lines: Seq<Seq<char>>, keys: Seq<Seq<char>>, needle: Seq<char>) -> Seq<
    Seq<char>,
>
    decreases lines.len(),
{
    if lines.len() == 0 {
        Seq::empty()
    } else {
        let rest = selected(lines.drop_last(), keys.drop_last(), needle);
        if contains_seq(keys[lines.len() - 1], needle) {
            rest.push(lines.last())
        } else {
            rest
        }
    }
}

/// Selecting by keys that decide the same as `p` on each line is filtering by `p`.
proof fn lemma_selected_is_filter(
    lines: Seq<Seq<char>>,
    keys: Seq<Seq<char>>,
    needle: Seq<char>,
    p: spec_fn(Seq<char>) -> bool,
)
    requires
        lines.len() == keys.len(),
        forall|i: int| 0 <= i < lines.len() ==> contains_seq(#[trigger] keys[i], needle) == p(lines[i]),
    ensures
        selected(lines, keys, needle) == lines.filter(p),
    decreases lines.len(),
{
    reveal_with_fuel(Seq::filter, 1);
    if lines.len() > 0 {
        let n = lines.len() - 1;
        assert forall|i: int| 0 <= i < n implies contains_seq(#[trigger] keys.drop_last()[i], needle)
            == p(lines.drop_last()[i]) by {
            assert(keys.drop_last()[i] == keys[i]);
        }
        lemma_selected_is_filter(lines.drop_last(), keys.drop_last(), needle, p);
        assert(contains_seq(keys[n], needle) == p(lines[n]));
    }
}

/// Keeps, in order, each line whose key at the same position contains `needle`.
pub fn select_matching<'a, 'b>(needle: &str, lines: &Vec<&'a str>, keys: &Vec<&'b str>) -> (r: Vec<
    &'a str,
>)
    requires
        lines.len() == keys.len(),
    ensures
        views(r@) == selected(views(lines@), views(keys@), needle@),
{
    let mut out: Vec<&'a str> = Vec::new();
    let mut i: usize = 0;
    while i < lines.len()
        invariant
            i <= lines.len(),
            lines.len() == keys.len(),
            views(out@) == selected(
                views(lines@).subrange(0, i as int),
                views(keys@).subrange(0, i as int),
                needle@,
            ),
        decreases lines.len() - i,
    {
        let ghost before = out@;
        let keep = has_substring(keys[i], needle);
        if keep {
            out.push(lines[i]);
        }
        proof {
            let ls = views(lines@).subrange(0, i + 1);
            let ks = views(keys@).subrange(0, i + 1);
            assert(ls.drop_last() =~= views(lines@).subrange(0, i as int));
            assert(ks.drop_last() =~= views(keys@).subrange(0, i as int));
            assert(ks[i as int] == keys@[i as int]@);
            if keep {
                assert(views(out@) =~= views(before).push(lines@[i as int]@));
            }
        }
        i += 1;
    }
    proof {
        assert(views(lines@).subrange(0, i as int) =~= views(lines@));
        assert(views(keys@).subrange(0, i as int) =~= views(keys@));
    }
    out
}

/// Trims each line.
fn trim_all<'a>(lines: &Vec<&'a str>) -> (r: Vec<&'a str>)
    ensures
        r.len() == lines.len(),
        forall|i: int| 0 <= i < r.len() ==> (#[trigger] r@[i])@ == trim_of(lines@[i]@),
{
    let mut out: Vec<&'a str> = Vec::new();
    let mut i: usize = 0;
    while i < lines.len()
        invariant
            i <= lines.len(),
            out.len() == i,
            forall|j: int| 0 <= j < i ==> (#[trigger] out@[j])@ == trim_of(lines@[j]@),
        decreases lines.len() - i,
    {
        out.push(trim_line(lines[i]));
        i += 1;
    }
    out
}

/// The trimmed lines of `contents`.
fn trimmed_lines_of<'a>(contents: &'a str) -> (r: Vec<&'a str>)
    ensures
        views(r@) == trimmed_lines(contents@),
        contents@.len() == 0 ==> r@.len() == 0,
{
    let lines = split_lines(contents);
    let r = trim_all(&lines);
    proof {
        assert(views(r@) =~= trimmed_lines(contents@));
    }
    r
}

/// Returns, in order, the trimmed lines of `contents` that contain `query`.
pub fn search<'a>(query: &str, contents: &'a str) -> (r: Vec<&'a str>)
    ensures
        views(r@) == matching_lines(query@, contents@),
        contents@.len() == 0 ==> r@.len() == 0,
{
    let trimmed = trimmed_lines_of(contents);
    let r = select_matching(query, &trimmed, &trimmed);
    proof {
        lemma_selected_is_filter(
            views(trimmed@),
            views(trimmed@),
            query@,
            |t: Seq<char>| contains_seq(t, query@),
        );
    }
    r
}

/// The lower-case form of each line.
fn lowercase_all(lines: &Vec<&str>) -> (r: Vec<String>)
    ensures
        r.len() == lines.len(),
        forall|i: int| 0 <= i < r.len() ==> (#[trigger] r@[i])@ == lower_of(lines@[i]@),
{
    let mut out: Vec<String> = Vec::new();
    let mut i: usize = 0;
    while i < lines.len()
        invariant
            i <= lines.len(),
            out.len() == i,
            forall|j: int| 0 <= j < i ==> (#[trigger] out@[j])@ == lower_of(lines@[j]@),
        decreases lines.len() - i,
    {
        out.push(lowercase(lines[i]));
        i += 1;
    }
    out
}

/// Borrows each string as a slice.
fn as_slices<'a>(v: &'a Vec<String>) -> (r: Vec<&'a str>)
    ensures
        views(r@) == v@.map_values(|s: String| s@),
{
    let mut out: Vec<&'a str> = Vec::new();
    let mut i: usize = 0;
    while i < v.len()
        invariant
            i <= v.len(),
            out.len() == i,
            forall|j: int| 0 <= j < i ==> (#[trigger] out@[j])@ == v@[j]@,
        decreases v.len() - i,
    {
        out.push(v[i].as_str());
        i += 1;
    }
    proof {
        assert(views(out@) =~= v@.map_values(|s: String| s@));
    }
    out
}

/// Returns, in order, the trimmed lines of `contents` whose lower-case form
/// contains the lower-case form of `query`. The lines come back as they stand
/// in `contents`, not lower-cased.
pub fn search_case_insensitive<'a>(query: &str, contents: &'a str) -> (r: Vec<&'a str>)
    ensures
        views(r@) == matching_lines_ignoring_case(query@, contents@),
        contents@.len() == 0 ==> r@.len() == 0,
{
    let trimmed = trimmed_lines_of(contents);
    let folded = lowercase_all(&trimmed);
    let keys = as_slices(&folded);
    let folded_query = lowercase(query);
    let r = select_matching(folded_query.as_str(), &trimmed, &keys);
    proof {
        assert forall|i: int| 0 <= i < views(trimmed@).len() implies #[trigger] views(keys@)[i]
            == lower_of(views(trimmed@)[i]) by {
            assert(views(keys@)[i] == folded@[i]@);
        }
        lemma_selected_is_filter(
            views(trimmed@),
            views(keys@),
            lower_of(query@),
            |t: Seq<char>| contains_seq(lower_of(t), lower_of(query@)),
        );
        if contents@.len() == 0 {
            assert(views(trimmed@).len() == 0);
            assert(views(r@).len() == 0);
        }
    }
    r
}

/// Runs the search that `config` asks for on `contents`: case-insensitive
/// when `config.ignore_case` is set, case-sensitive otherwise.
pub fn find_matches<'a>(config: &Config, contents: &'a str) -> (r: Vec<&'a str>)
    ensures
        views(r@) == (if config.ignore_case {
            matching_lines_ignoring_case(config.query@, contents@)
        } else {
            matching_lines(config.query@, contents@)
        }),
{
    if config.ignore_case {
        search_case_insensitive(config.query.as_str(), contents)
    } else {
        search(config.query.as_str(), contents)
    }
}

/// `idx` picks `sub` out of `sup` at strictly increasing positions.
pub open spec fn embeds(sub: Seq<Seq<char>>, sup: Seq<Seq<char>>, idx: Seq<int>) -> bool {
    &&& idx.len() == sub.len()
    &&& forall|k: int|
        0 <= k < idx.len() ==> 0 <= #[trigger] idx[k] < sup.len() && sup[idx[k]] == sub[k]
    &&& forall|k: int, l: int| 0 <= k < l < idx.len() ==> idx[k] < idx[l]
}

/// `sub` consists of elements of `sup`, in the order they have there.
pub open spec fn is_ordered_subsequence(sub: Seq<Seq<char>>, sup: Seq<Seq<char>>) -> bool {
    exists|idx: Seq<int>| embeds(sub, sup, idx)
}

/// Filtering keeps the elements in their order: returns where each kept one stood.
proof fn lemma_filter_embeds(s: Seq<Seq<char>>, p: spec_fn(Seq<char>) -> bool) -> (idx: Seq<int>)
    ensures
        embeds(s.filter(p), s, idx),
    decreases s.len(),
{
    reveal_with_fuel(Seq::filter, 1);
    if s.len() == 0 {
        Seq::empty()
    } else {
        let rest = s.drop_last();
        let prev = lemma_filter_embeds(rest, p);
        assert forall|k: int| 0 <= k < prev.len() implies s[#[trigger] prev[k]] == rest[prev[k]] by {}
        if p(s.last()) {
            let idx = prev.push(s.len() - 1);
            assert forall|k: int| 0 <= k < idx.len() implies 0 <= #[trigger] idx[k] < s.len()
                && s[idx[k]] == s.filter(p)[k] by {
                if k < prev.len() {
                    assert(idx[k] == prev[k]);
                }
            }
            idx
        } else {
            prev
        }
    }
}

/// Every line that `search` returns contains the query and is a trimmed line
/// of the text, and every trimmed line that contains the query is returned.
pub proof fn search_returns_exactly_lines_with_query(query: Seq<char>, contents: Seq<char>)
    ensures
        forall|k: int|
            0 <= k < matching_lines(query, contents).len() ==> contains_seq(
                #[trigger] matching_lines(query, contents)[k],
                query,
            ) && trimmed_lines(contents).contains(matching_lines(query, contents)[k]),
        forall|i: int|
            0 <= i < trimmed_lines(contents).len() && contains_seq(
                #[trigger] trimmed_lines(contents)[i],
                query,
            ) ==> matching_lines(query, contents).contains(trimmed_lines(contents)[i]),
{
    broadcast use vstd::seq_lib::group_filter_ensures;

    let p = |t: Seq<char>| contains_seq(t, query);
    let idx = lemma_filter_embeds(trimmed_lines(contents), p);
    assert forall|k: int| 0 <= k < matching_lines(query, contents).len() implies trimmed_lines(
        contents,
    ).contains(#[trigger] matching_lines(query, contents)[k]) by {
        assert(trimmed_lines(contents)[idx[k]] == matching_lines(query, contents)[k]);
    }
}

/// Where each trimmed line that contains the query also does so once both are
/// lower-cased, every line that `search` returns is also returned by
/// `search_case_insensitive`.
pub proof fn case_insensitive_search_finds_what_search_finds(
    query: Seq<char>,
    contents: Seq<char>,
)
    requires
        forall|i: int|
            0 <= i < trimmed_lines(contents).len() && contains_seq(
                #[trigger] trimmed_lines(contents)[i],
                query,
            ) ==> contains_seq(lower_of(trimmed_lines(contents)[i]), lower_of(query)),
    ensures
        forall|k: int|
            0 <= k < matching_lines(query, contents).len()
                ==> matching_lines_ignoring_case(query, contents).contains(
                #[trigger] matching_lines(query, contents)[k],
            ),
{
    broadcast use vstd::seq_lib::group_filter_ensures;

    let lines = trimmed_lines(contents);
    let p = |t: Seq<char>| contains_seq(t, query);
    let q = |t: Seq<char>| contains_seq(lower_of(t), lower_of(query));
    let idx = lemma_filter_embeds(lines, p);
    assert forall|k: int| 0 <= k < matching_lines(query, contents).len() implies matching_lines_ignoring_case(
        query,
        contents,
    ).contains(#[trigger] matching_lines(query, contents)[k]) by {
        let i = idx[k];
        assert(lines[i] == lines.filter(p)[k]);
        assert(p(lines.filter(p)[k]));
        assert(q(lines[i]));
        lines.lemma_filter_contains(q, i);
    }
}

/// The result depends on the query and the text alone: two searches with the
/// same arguments return the same lines.
pub proof fn search_is_deterministic(
    query1: Seq<char>,
    contents1: Seq<char>,
    query2: Seq<char>,
    contents2: Seq<char>,
)
    requires
        query1 == query2,
        contents1 == contents2,
    ensures
        matching_lines(query1, contents1) == matching_lines(query2, contents2),
        matching_lines_ignoring_case(query1, contents1) == matching_lines_ignoring_case(
            query2,
            contents2,
        ),
{
}

/// Both searches return their lines in the order they stand in the text.
pub proof fn search_keeps_line_order(query: Seq<char>, contents: Seq<char>)
    ensures
        is_ordered_subsequence(matching_lines(query, contents), trimmed_lines(contents)),
        is_ordered_subsequence(
            matching_lines_ignoring_case(query, contents),
            trimmed_lines(contents),
        ),
{
    let lines = trimmed_lines(contents);
    let idx1 = lemma_filter_embeds(lines, |t: Seq<char>| contains_seq(t, query));
    let idx2 = lemma_filter_embeds(
        lines,
        |t: Seq<char>| contains_seq(lower_of(t), lower_of(query)),
    );
    assert(embeds(matching_lines(query, contents), lines, idx1));
    assert(embeds(matching_lines_ignoring_case(query, contents), lines, idx2));
}

/// A query equal to a whole trimmed line finds that line, in either search.
pub proof fn query_equal_to_a_line_finds_it(query: Seq<char>, contents: Seq<char>)
    requires
        trimmed_lines(contents).contains(query),
    ensures
        matching_lines(query, contents).contains(query),
        matching_lines_ignoring_case(query, contents).contains(query),
{
    broadcast use vstd::seq_lib::group_filter_ensures;

    let lines = trimmed_lines(contents);
    let i = choose|i: int| 0 <= i < lines.len() && lines[i] == query;
    assert(query.subrange(0int, 0int + query.len()) =~= query);
    assert(contains_seq(query, query));
    let l = lower_of(query);
    assert(l.subrange(0int, 0int + l.len()) =~= l);
    assert(contains_seq(l, l));
    lines.lemma_filter_contains(|t: Seq<char>| contains_seq(t, query), i);
    lines.lemma_filter_contains(|t: Seq<char>| contains_seq(lower_of(t), lower_of(query)), i);
}

} // verus!
