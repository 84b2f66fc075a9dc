use vstd::prelude::*;
use vstd::utf8::*;

verus! {

/// Encoding a concatenation encodes each part in turn.
proof fn lemma_encode_concat(a: Seq<char>, b: Seq<char>)
    ensures
        encode_utf8(a + b) == encode_utf8(a) + encode_utf8(b),
    decreases a.len(),
{
    if a.len() == 0 {
        assert(a + b =~= b);
        assert(encode_utf8(a) + encode_utf8(b) =~= encode_utf8(b));
    } else {
        lemma_encode_concat(a.drop_first(), b);
        assert((a + b).drop_first() =~= a.drop_first() + b);
        assert((a + b)[0] == a[0]);
        assert(encode_utf8(a + b) =~= encode_utf8(a) + encode_utf8(b));
    }
}

/// Two character sequences with the same encoding are equal.
proof fn lemma_encode_injective(x: Seq<char>, y: Seq<char>)
    requires
        encode_utf8(x) == encode_utf8(y),
    ensures
        x == y,
{
    encode_utf8_decode_utf8(x);
    encode_utf8_decode_utf8(y);
}

/// The encoding of a prefix ends on a character boundary of the whole encoding.
proof fn lemma_prefix_boundary(a: Seq<char>, b: Seq<char>)
    ensures
        is_char_boundary(encode_utf8(a + b), encode_utf8(a).len() as int),
    decreases a.len(),
{
    let s = a + b;
    let bytes = encode_utf8(s);
    encode_utf8_valid_utf8(s);
    if a.len() == 0 {
    } else {
        encode_utf8_first_scalar(s);
        assert(s.drop_first() =~= a.drop_first() + b);
        assert(s[0] == a[0]);
        lemma_encode_concat(s.drop_first(), seq![]);
        lemma_encode_concat(a.drop_first(), b);
        assert(pop_first_scalar(bytes) =~= encode_utf8(s.drop_first()));
        lemma_prefix_boundary(a.drop_first(), b);
        char_is_scalar(a[0]);
        assert(encode_scalar(a[0] as u32).len() >= 1);
    }
}

/// Facts on the bytes of a prefix of `s` that is `k` characters long.
pub(crate) proof fn lemma_prefix_bytes(s: Seq<char>, k: int)
    requires
        0 <= k <= s.len(),
    ensures
        is_char_boundary(encode_utf8(s), encode_utf8(s.subrange(0, k)).len() as int),
        encode_utf8(s.subrange(0, k)).len() <= encode_utf8(s).len(),
        encode_utf8(s).subrange(0, encode_utf8(s.subrange(0, k)).len() as int) == encode_utf8(
            s.subrange(0, k),
        ),
        encode_utf8(s).subrange(
            encode_utf8(s.subrange(0, k)).len() as int,
            encode_utf8(s).len() as int,
        ) == encode_utf8(s.subrange(k, s.len() as int)),
{
    let a = s.subrange(0, k);
    let b = s.subrange(k, s.len() as int);
    assert(a + b =~= s);
    lemma_encode_concat(a, b);
    lemma_prefix_boundary(a, b);
    assert(encode_utf8(s).subrange(0, encode_utf8(a).len() as int) =~= encode_utf8(a));
    assert(encode_utf8(s).subrange(encode_utf8(a).len() as int, encode_utf8(s).len() as int)
        =~= encode_utf8(b));
}

/// Encoding one more character appends that character's encoding.
pub(crate) proof fn lemma_encode_push(a: Seq<char>, c: char)
    ensures
        encode_utf8(a.push(c)) == encode_utf8(a) + encode_scalar(c as u32),
{
    lemma_encode_concat(a, seq![c]);
    assert(a + seq![c] =~= a.push(c));
    let one = seq![c];
    assert(one.drop_first() =~= Seq::<char>::empty());
    assert(one[0] == c);
    assert(encode_utf8(one.drop_first()) =~= Seq::<u8>::empty());
    assert(encode_utf8(one) =~= encode_scalar(c as u32));
}

/// The number of bytes in the UTF-8 encoding of `c`.
pub(crate) fn utf8_width(c: char) -> (n: usize)
    ensures
        n as int == encode_scalar(c as u32).len(),
        1 <= n <= 4,
{
    proof {
        char_is_scalar(c);
    }
    let v = c as u32;
    if v <= 0x7f {
        1
    } else if v <= 0x7ff {
        2
    } else if v <= 0xffff {
        3
    } else {
        4
    }
}

/// The part of `text` between character positions `from` and `to`, located by
/// the byte offsets at which those positions begin. No text is copied.
pub(crate) fn char_range<'a>(
    text: &'a str,
    from_byte: usize,
    to_byte: usize,
    Ghost(from): Ghost<int>,
    Ghost(to): Ghost<int>,
) -> (r: &'a str)
    requires
        0 <= from <= to <= text@.len(),
        from_byte == encode_utf8(text@.subrange(0, from)).len(),
        to_byte == encode_utf8(text@.subrange(0, to)).len(),
    ensures
        r@ == text@.subrange(from, to),
{
    let ghost s = text@;
    proof {
        lemma_prefix_bytes(s, to);
    }
    let (head, _) = text.split_at(to_byte);
    proof {
        lemma_encode_injective(head@, s.subrange(0, to));
        let h = head@;
        assert(h.subrange(0, from) =~= s.subrange(0, from));
        assert(h.subrange(from, h.len() as int) =~= s.subrange(from, to));
        lemma_prefix_bytes(h, from);
    }
    let (_, piece) = head.split_at(from_byte);
    proof {
        lemma_encode_injective(piece@, s.subrange(from, to));
    }
    piece
}

} // verus!
