use vstd::prelude::*;
use crate::lines::{lines, lines_of};
use crate::text::{contains, has_substring, lower_of, lowercase};

verus! {

/// Whether `line` is reported for `query`: an exact substring test, or, when
/// case is ignored, a substring test between the lowercase forms of both.
pub open spec fn line_matches(query: Seq<char>, line: Seq<char>, ignore_case: bool) -> bool {
    if ignore_case {
        has_substring(lower_of(line), lower_of(query))
    } else {
        has_substring(line, query)
    }
}

/// The test that decides which lines are reported for `query`.
pub open spec fn match_pred(query: Seq<char>, ignore_case: bool) -> spec_fn(Seq<char>) -> bool {
    |l: Seq<char>| line_matches(query, l, ignore_case)
}

/// The lines of `contents` that match `query`, in their original order.
pub open spec fn matching_lines(query: Seq<char>, contents: Seq<char>, ignore_case: bool) -> Seq<
    Seq<char>,
> {
    lines_of(contents).filter(match_pred(query, ignore_case))
}

/// An absent case flag means an exact search.
pub open spec fn flag_of(ignore_case: Option<bool>) -> bool {
    match ignore_case {
        Some(b) => b,
        None => false,
    }
}

/// The text of each borrowed line.
pub open spec fn views(v: Seq<&str>) -> Seq<Seq<char>> {
    v.map_values(|l: &str| l@)
}

/// A filter that keeps every item gives back the whole sequence.
proof fn lemma_filter_keeps_all(s: Seq<Seq<char>>, pred: spec_fn(Seq<char>) -> bool)
    requires
        forall|i: int| 0 <= i < s.len() ==> pred(#[trigger] s[i]),
    ensures
        s.filter(pred) == s,
    decreases s.len(),
{
    reveal(Seq::filter);
    if s.len() > 0 {
        lemma_filter_keeps_all(s.drop_last(), pred);
        assert(s.drop_last().push(s.last()) =~= s);
    }
}

/// Searching is repeatable: two results that both meet the contract of
/// `search` for the same query, contents and case flag hold the same lines,
/// in the same order.
pub proof fn search_is_repeatable(
    query: &str,
    contents: &str,
    ignore_case: Option<bool>,
    first: Seq<&str>,
    second: Seq<&str>,
)
    requires
        views(first) == matching_lines(query@, contents@, flag_of(ignore_case)),
        views(second) == matching_lines(query@, contents@, flag_of(ignore_case)),
    ensures
        views(first) == views(second),
{
}

/// The lines of `contents` that contain `query`, in order, borrowed from
/// `contents`. With `ignore_case` set to `Some(true)` both sides are compared
/// in lowercase form; `None` means `Some(false)`.
pub fn search<'a>(query: &'a str, contents: &'a str, ignore_case: Option<bool>) -> (r: Vec<&'a str>)
    ensures
        views(r@) == matching_lines(query@, contents@, flag_of(ignore_case)),
        !flag_of(ignore_case) ==> views(r@) == lines_of(contents@).filter(
            |l: Seq<char>| has_substring(l, query@),
        ),
        flag_of(ignore_case) ==> views(r@) == lines_of(contents@).filter(
            |l: Seq<char>| has_substring(lower_of(l), lower_of(query@)),
        ),
        query@.len() == 0 ==> views(r@) == lines_of(contents@),
        contents@.len() == 0 ==> r@.len() == 0,
{
    let flag = match ignore_case {
        Some(b) => b,
        None => false,
    };
    let ghost pred = match_pred(query@, flag);
    let ghost all_lines = lines_of(contents@);
    let all = lines(contents);
    let lower_query = if flag {
        lowercase(query)
    } else {
        String::new()
    };
    let mut out: Vec<&'a str> = Vec::new();
    let mut i: usize = 0;
    while i < all.len()
        invariant
            i <= all@.len(),
            all@.len() == all_lines.len(),
            forall|k: int| 0 <= k < all@.len() ==> #[trigger] all@[k]@ == all_lines[k],
            flag ==> lower_query@ == lower_of(query@),
            pred == match_pred(query@, flag),
            views(out@) == all_lines.subrange(0, i as int).filter(pred),
        decreases all@.len() - i,
    {
        let line = all[i];
        let keep = if flag {
            let lower_line = lowercase(line);
            contains(lower_line.as_str(), lower_query.as_str())
        } else {
            contains(line, query)
        };
        proof {
            reveal(Seq::filter);
            let prefix = all_lines.subrange(0, i + 1);
            assert(prefix.drop_last() =~= all_lines.subrange(0, i as int));
            assert(prefix.last() == line@);
            assert(keep == pred(line@));
            assert(prefix.filter(pred) == if pred(line@) {
                all_lines.subrange(0, i as int).filter(pred).push(line@)
            } else {
                all_lines.subrange(0, i as int).filter(pred)
            });
        }
        if keep {
            out.push(line);
            proof {
                assert(views(out@) =~= views(out@.drop_last()).push(line@));
            }
        }
        i += 1;
    }
    proof {
        assert(all_lines.subrange(0, i as int) =~= all_lines);
        if query@.len() == 0 {
            assert forall|k: int| 0 <= k < all_lines.len() implies pred(#[trigger] all_lines[k]) by {
                let l = all_lines[k];
                if flag {
                    assert(lower_of(l).subrange(0, 0) =~= lower_of(query@));
                    assert(crate::text::occurs_at(lower_of(l), lower_of(query@), 0));
                } else {
                    assert(l.subrange(0, 0) =~= query@);
                    assert(crate::text::occurs_at(l, query@, 0));
                }
            }
            lemma_filter_keeps_all(all_lines, pred);
        }
        if flag {
            assert(pred =~= |l: Seq<char>| has_substring(lower_of(l), lower_of(query@)));
        } else {
            assert(pred =~= |l: Seq<char>| has_substring(l, query@));
        }
        if contents@.len() == 0 {
            reveal(Seq::filter);
        }
    }
    out
}

} // verus!
