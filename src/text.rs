use vstd::prelude::*;

verus! {

/// The characters of `s`, in order.
pub fn chars_of(s: &str) -> (r: Vec<char>)
    ensures
        r@ == s@,
{
    let mut out: Vec<char> = Vec::new();
    for c in it: s.chars()
        invariant
            out@ == it.seq().subrange(0, it.index() as int),
    {
        out.push(c);
    }
    assert(out@ =~= s@);
    out
}

/// `query` occurs in `text` starting at position `i`.
pub open spec fn occurs_at(text: Seq<char>, query: Seq<char>, i: int) -> bool {
    0 <= i && i + query.len() <= text.len() && text.subrange(i, i + query.len()) == query
}

/// `query` is a contiguous part of `text`.
pub open spec fn has_substring(text: Seq<char>, query: Seq<char>) -> bool {
    exists|i: int| occurs_at(text, query, i)
}

/// The characters of `text` from `i` on agree with all of `query`.
fn matches_at(text: &Vec<char>, query: &Vec<char>, i: usize) -> (r: bool)
    requires
        i + query.len() <= text.len(),
    ensures
        r == (text@.subrange(i as int, i + query@.len()) == query@),
{
    let mut j: usize = 0;
    while j < query.len()
        invariant
            j <= query@.len(),
            i + query.len() <= text.len(),
            forall|m: int| 0 <= m < j ==> text@[i + m] == query@[m],
        decreases query@.len() - j,
    {
        if text[i + j] != query[j] {
            assert(text@.subrange(i as int, i + query@.len())[j as int] != query@[j as int]);
            return false;
        }
        j += 1;
    }
    assert(text@.subrange(i as int, i + query@.len()) =~= query@);
    true
}

/// Whether `query` occurs in `text` as a contiguous run of characters.
pub fn contains(text: &str, query: &str) -> (r: bool)
    ensures
        r == has_substring(text@, query@),
{
    let t = chars_of(text);
    let q = chars_of(query);
    if q.len() > t.len() {
        return false;
    }
    let last: usize = t.len() - q.len();
    let mut i: usize = 0;
    loop
        invariant
            last + q@.len() == t@.len(),
            i <= last,
            t@ == text@,
            q@ == query@,
            forall|k: int| 0 <= k < i ==> !occurs_at(text@, query@, k),
        decreases last - i,
    {
        if matches_at(&t, &q, i) {
            assert(occurs_at(text@, query@, i as int));
            return true;
        }
        if i == last {
            assert forall|k: int| !occurs_at(text@, query@, k) by {
                if 0 <= k <= i {
                }
            }
            return false;
        }
        i += 1;
    }
}

/// Whether two strings hold the same characters.
pub fn same_text(a: &str, b: &str) -> (r: bool)
    ensures
        r == (a@ == b@),
{
    let x = chars_of(a);
    let y = chars_of(b);
    if x.len() != y.len() {
        return false;
    }
    let mut i: usize = 0;
    while i < x.len()
        invariant
            x@ == a@,
            y@ == b@,
            x@.len() == y@.len(),
            i <= x@.len(),
            forall|m: int| 0 <= m < i ==> x@[m] == y@[m],
        decreases x@.len() - i,
    {
        if x[i] != y[i] {
            assert(a@[i as int] != b@[i as int]);
            return false;
        }
        i += 1;
    }
    assert(x@ =~= y@);
    true
}

/// What `str::to_lowercase` makes of a sequence of characters: the full
/// Unicode lowercase mapping, which depends on the characters alone.
pub uninterp spec fn lower_of(s: Seq<char>) -> Seq<char>;

/// Relies on `str::to_lowercase`: its result is determined by the characters
/// of the argument, and the empty string maps to the empty string.
#[verifier::external_body]
pub(crate) fn lowercase(s: &str) -> (r: String)
    ensures
        r@ == lower_of(s@),
        s@.len() == 0 ==> r@.len() == 0,
{
    s.to_lowercase()
}

} // verus!
