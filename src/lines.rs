use vstd::prelude::*;
use vstd::utf8::*;
use crate::utf8_slice::{char_range, lemma_encode_push, lemma_prefix_bytes, utf8_width};

verus! {

/// Position of the first line feed in `s`, or `s.len()` when there is none.
pub open spec fn first_line_feed(s: Seq<char>) -> nat
    decreases s.len(),
{
    if s.len() == 0 {
        0
    } else if s[0] == '\n' {
        0
    } else {
        1 + first_line_feed(s.drop_first())
    }
}

/// A line taken from before a line feed loses one trailing carriage return.
pub open spec fn strip_cr(l: Seq<char>) -> Seq<char> {
    if l.len() > 0 && l.last() == '\r' {
        l.drop_last()
    } else {
        l
    }
}

/// The lines of `s`: the text between `"\n"` or `"\r\n"` terminators, without
/// them. A final line needs no terminator, and empty text has no lines.
pub open spec fn lines_of(s: Seq<char>) -> Seq<Seq<char>>
    decreases s.len(),
{
    if s.len() == 0 {
        seq![]
    } else if first_line_feed(s) < s.len() {
        let k = first_line_feed(s) as int;
        seq![strip_cr(s.subrange(0, k))] + lines_of(s.subrange(k + 1, s.len() as int))
    } else {
        seq![s]
    }
}

/// No line feed stands in `s` between positions `from` and `to`.
pub open spec fn no_line_feed(s: Seq<char>, from: int, to: int) -> bool {
    forall|j: int| from <= j < to ==> s[j] != '\n'
}

/// The first line feed of `t` stands at `m` (or there is none, and `m` is the end).
proof fn lemma_first_line_feed(t: Seq<char>, m: int)
    requires
        0 <= m <= t.len(),
        no_line_feed(t, 0, m),
        m == t.len() || t[m] == '\n',
    ensures
        first_line_feed(t) == m,
    decreases m,
{
    if m > 0 {
        let u = t.drop_first();
        assert(no_line_feed(u, 0, m - 1)) by {
            assert forall|j: int| 0 <= j < m - 1 implies u[j] != '\n' by {
                assert(u[j] == t[j + 1]);
            }
        }
        lemma_first_line_feed(u, m - 1);
    }
}

/// The lines of `contents`, in order, each borrowed from `contents`.
pub fn lines<'a>(contents: &'a str) -> (r: Vec<&'a str>)
    ensures
        r@.len() == lines_of(contents@).len(),
        forall|i: int| 0 <= i < r@.len() ==> #[trigger] r@[i]@ == lines_of(contents@)[i],
{
    let ghost s = contents@;
    let ghost n = s.len() as int;
    let ghost mut done: Seq<Seq<char>> = seq![];
    let ghost mut ls: int = 0;
    let mut out: Vec<&'a str> = Vec::new();
    // byte offsets of the current character, of the line's start and of the
    // character before the current one
    let mut bi: usize = 0;
    let mut lb: usize = 0;
    let mut prev_b: usize = 0;
    let mut last_cr: bool = false;
    let mut pending: bool = false;
    let total: usize = contents.as_bytes().len();
    proof {
        lemma_prefix_bytes(s, 0);
        assert(s.subrange(ls, n) =~= s);
    }
    for c in it: contents.chars()
        invariant
            s == contents@,
            n == s.len(),
            it.seq() == s,
            0 <= ls <= it.index() <= n,
            total as int == encode_utf8(s).len(),
            pending == (ls < it.index()),
            bi as int == encode_utf8(s.subrange(0, it.index() as int)).len(),
            lb as int == encode_utf8(s.subrange(0, ls)).len(),
            no_line_feed(s, ls, it.index() as int),
            last_cr ==> ls < it.index() && s[it.index() - 1] == '\r' && prev_b as int
                == encode_utf8(s.subrange(0, it.index() - 1)).len(),
            !last_cr ==> !(ls < it.index() && s[it.index() - 1] == '\r'),
            lines_of(s) == done + lines_of(s.subrange(ls, n)),
            out@.len() == done.len(),
            forall|i: int| 0 <= i < out@.len() ==> #[trigger] out@[i]@ == done[i],
    {
        let ghost ci = it.index() as int;
        let w = utf8_width(c);
        proof {
            assert(s[ci] == c);
            assert(s.subrange(0, ci + 1) =~= s.subrange(0, ci).push(c));
            lemma_encode_push(s.subrange(0, ci), c);
            lemma_prefix_bytes(s, ci + 1);
        }
        if c == '\n' {
            let end_b = if last_cr {
                prev_b
            } else {
                bi
            };
            let ghost e = if last_cr {
                ci - 1
            } else {
                ci
            };
            let line = char_range(contents, lb, end_b, Ghost(ls), Ghost(e));
            out.push(line);
            proof {
                let t = s.subrange(ls, n);
                let m = ci - ls;
                assert(no_line_feed(t, 0, m)) by {
                    assert forall|j: int| 0 <= j < m implies t[j] != '\n' by {
                        assert(t[j] == s[ls + j]);
                    }
                }
                assert(t[m] == s[ci]);
                lemma_first_line_feed(t, m);
                assert(t.subrange(0, m) =~= s.subrange(ls, ci));
                assert(t.subrange(m + 1, t.len() as int) =~= s.subrange(ci + 1, n));
                let l = s.subrange(ls, ci);
                if last_cr {
                    assert(l.drop_last() =~= s.subrange(ls, e));
                } else {
                    assert(l =~= s.subrange(ls, e));
                }
                assert(strip_cr(l) == s.subrange(ls, e));
                assert(lines_of(t) == seq![s.subrange(ls, e)] + lines_of(s.subrange(ci + 1, n)));
                let before = done;
                done = done.push(s.subrange(ls, e));
                assert(before + (seq![s.subrange(ls, e)] + lines_of(s.subrange(ci + 1, n)))
                    =~= done + lines_of(s.subrange(ci + 1, n)));
                ls = ci + 1;
            }
            lb = bi + w;
            last_cr = false;
            pending = false;
        } else {
            last_cr = c == '\r';
            pending = true;
        }
        prev_b = bi;
        bi = bi + w;
    }
    proof {
        assert(s.subrange(0, n) =~= s);
    }
    if pending {
        let line = char_range(contents, lb, bi, Ghost(ls), Ghost(n));
        out.push(line);
        proof {
            let t = s.subrange(ls, n);
            assert(no_line_feed(t, 0, n - ls)) by {
                assert forall|j: int| 0 <= j < n - ls implies t[j] != '\n' by {
                    assert(t[j] == s[ls + j]);
                }
            }
            lemma_first_line_feed(t, n - ls);
            assert(lines_of(t) == seq![t]);
            assert(done + seq![t] =~= done.push(t));
            done = done.push(t);
        }
    } else {
        proof {
            assert(s.subrange(ls, n) =~= Seq::<char>::empty());
            assert(done + lines_of(s.subrange(ls, n)) =~= done);
        }
    }
    out
}

} // verus!
