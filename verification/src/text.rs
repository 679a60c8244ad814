//! Source text as a sequence of characters, and the byte offsets of its
//! UTF-8 encoding.
use vstd::prelude::*;
use vstd::utf8::*;
use vstd::string::*;

verus! {

/// Number of bytes that `c` occupies in UTF-8.
pub open spec fn char_width(c: char) -> int {
    encode_scalar(c as u32).len() as int
}

/// Byte offset, in the UTF-8 encoding of `src`, at which the character with
/// index `i` starts. For `i == src.len()` this is the length of the encoding.
pub open spec fn offset_of(src: Seq<char>, i: int) -> int
    recommends
        0 <= i <= src.len(),
{
    encode_utf8(src.subrange(0, i)).len() as int
}

/// Every character takes between one and four bytes.
pub proof fn lemma_char_width_bounds(c: char)
    ensures
        1 <= char_width(c) <= 4,
        c <= '\u{7f}' ==> char_width(c) == 1,
{
}

/// The encoding of a concatenation is the concatenation of the encodings.
pub proof fn lemma_encode_concat(a: Seq<char>, b: Seq<char>)
    ensures
        encode_utf8(a + b) == encode_utf8(a) + encode_utf8(b),
    decreases a.len(),
{
    if a.len() == 0 {
        assert(a + b =~= b);
        assert(encode_utf8(a) + encode_utf8(b) =~= encode_utf8(b));
    } else {
        lemma_encode_concat(a.drop_first(), b);
        assert((a + b).drop_first() =~= a.drop_first() + b);
        assert(encode_utf8(a + b) =~= encode_utf8(a) + encode_utf8(b));
    }
}

/// Two texts with the same encoding are the same text.
pub proof fn lemma_encode_injective(a: Seq<char>, b: Seq<char>)
    requires
        encode_utf8(a) == encode_utf8(b),
    ensures
        a == b,
{
    encode_utf8_decode_utf8(a);
    encode_utf8_decode_utf8(b);
}

/// The bytes between the offsets of two character indices encode exactly the
/// characters between them.
pub proof fn lemma_encode_subrange(src: Seq<char>, i: int, j: int)
    requires
        0 <= i <= j <= src.len(),
    ensures
        offset_of(src, i) <= offset_of(src, j) <= encode_utf8(src).len(),
        encode_utf8(src).subrange(offset_of(src, i), offset_of(src, j)) == encode_utf8(
            src.subrange(i, j),
        ),
{
    let a = src.subrange(0, i);
    let b = src.subrange(i, j);
    let c = src.subrange(j, src.len() as int);
    lemma_encode_concat(a, b);
    lemma_encode_concat(a + b, c);
    assert(a + b =~= src.subrange(0, j));
    assert((a + b) + c =~= src);
    assert(encode_utf8(src).subrange(offset_of(src, i), offset_of(src, j)) =~= encode_utf8(b));
}

/// Offsets grow by the width of each character passed.
pub proof fn lemma_offset_step(src: Seq<char>, i: int)
    requires
        0 <= i < src.len(),
    ensures
        offset_of(src, i + 1) == offset_of(src, i) + char_width(src[i]),
        offset_of(src, 0) == 0,
{
    lemma_encode_subrange(src, i, i + 1);
    let one = src.subrange(i, i + 1);
    assert(one.drop_first() =~= Seq::<char>::empty());
    assert(encode_utf8(one) =~= encode_scalar(src[i] as u32)) by {
        reveal_with_fuel(encode_utf8, 2);
    }
    assert(src.subrange(0, 0) =~= Seq::<char>::empty());
}

/// Offsets are monotone in the character index.
pub proof fn lemma_offset_monotone(src: Seq<char>, i: int, j: int)
    requires
        0 <= i <= j <= src.len(),
    ensures
        offset_of(src, i) + (j - i) <= offset_of(src, j),
        offset_of(src, j) <= encode_utf8(src).len(),
        offset_of(src, src.len() as int) == encode_utf8(src).len(),
    decreases j - i,
{
    lemma_encode_subrange(src, i, j);
    assert(src.subrange(0, src.len() as int) =~= src);
    if i < j {
        lemma_offset_monotone(src, i, j - 1);
        lemma_offset_step(src, j - 1);
        lemma_char_width_bounds(src[j - 1]);
    }
}

/// The offset of every character index is a character boundary of the
/// encoding.
pub proof fn lemma_offset_is_boundary(src: Seq<char>, i: int)
    requires
        0 <= i <= src.len(),
    ensures
        is_char_boundary(encode_utf8(src), offset_of(src, i)),
    decreases i,
{
    let bytes = encode_utf8(src);
    encode_utf8_valid_utf8(src);
    if i == 0 {
        lemma_offset_step_zero(src);
    } else {
        let rest = src.drop_first();
        encode_utf8_first_scalar(src);
        assert(pop_first_scalar(bytes) =~= encode_utf8(rest));
        lemma_offset_is_boundary(rest, i - 1);
        lemma_encode_concat(seq![src[0]], rest.subrange(0, i - 1));
        assert(seq![src[0]] + rest.subrange(0, i - 1) =~= src.subrange(0, i));
        assert(seq![src[0]].drop_first() =~= Seq::<char>::empty());
        assert(encode_utf8(seq![src[0]]) =~= encode_scalar(src[0] as u32)) by {
            reveal_with_fuel(encode_utf8, 2);
        }
        lemma_char_width_bounds(src[0]);
        lemma_offset_monotone(src, 0, i);
        assert(offset_of(src, i) == length_of_first_scalar(bytes) + offset_of(rest, i - 1));
    }
}

proof fn lemma_offset_step_zero(src: Seq<char>)
    ensures
        offset_of(src, 0) == 0,
{
    assert(src.subrange(0, 0) =~= Seq::<char>::empty());
}

/// Number of bytes that `c` occupies in UTF-8.
pub fn utf8_width(c: char) -> (w: usize)
    ensures
        w == char_width(c),
        1 <= w <= 4,
{
    let code: u32 = c as u32;
    if code < 0x80 {
        1
    } else if code < 0x800 {
        2
    } else if code < 0x10000 {
        3
    } else {
        4
    }
}

/// Whether two strings hold the same text.
pub fn text_eq(a: &str, b: &str) -> (same: bool)
    ensures
        same == (a@ == b@),
{
    let x = a.as_bytes();
    let y = b.as_bytes();
    if x.len() != y.len() {
        return false;
    }
    let mut k: usize = 0;
    while k < x.len()
        invariant
            k <= x.len(),
            x.len() == y.len(),
            x@ == encode_utf8(a@),
            y@ == encode_utf8(b@),
            forall|m: int| 0 <= m < k ==> x@[m] == y@[m],
        decreases x.len() - k,
    {
        if x[k] != y[k] {
            return false;
        }
        k += 1;
    }
    proof {
        assert(x@ =~= y@);
        lemma_encode_injective(a@, b@);
    }
    true
}

/// Splits off the first character of `s`: the character, its width in bytes
/// and the text after it; `None` for the empty string.
pub fn split_first<'a>(s: &'a str) -> (r: Option<(char, usize, &'a str)>)
    ensures
        s@.len() == 0 <==> r is None,
        r matches Some((c, w, tail)) ==> c == s@[0] && w == char_width(c) && tail@
            == s@.drop_first(),
{
    if s.is_empty() {
        return None;
    }
    let c = s.get_char(0);
    let w = utf8_width(c);
    proof {
        lemma_offset_is_boundary(s@, 1);
        lemma_offset_step(s@, 0);
    }
    let (_, tail) = s.split_at(w);
    proof {
        lemma_encode_subrange(s@, 1, s@.len() as int);
        lemma_offset_monotone(s@, 0, s@.len() as int);
        assert(s@.subrange(1, s@.len() as int) =~= s@.drop_first());
        lemma_encode_injective(tail@, s@.drop_first());
    }
    Some((c, w, tail))
}

/// The text of `s` between two byte offsets that are the offsets of the
/// character indices `i` and `j`.
pub(crate) fn span_text<'a>(
    s: &'a str,
    start: usize,
    end: usize,
    Ghost(i): Ghost<int>,
    Ghost(j): Ghost<int>,
) -> (t: &'a str)
    requires
        0 <= i <= j <= s@.len(),
        start == offset_of(s@, i),
        end == offset_of(s@, j),
    ensures
        t@ == s@.subrange(i, j),
{
    let ghost n = s@.len() as int;
    proof {
        lemma_offset_is_boundary(s@, i);
        lemma_offset_monotone(s@, i, j);
    }
    let (_, tail) = s.split_at(start);
    proof {
        lemma_encode_subrange(s@, i, n);
        lemma_offset_monotone(s@, i, n);
        lemma_encode_injective(tail@, s@.subrange(i, n));
        lemma_offset_is_boundary(tail@, j - i);
        lemma_encode_subrange(s@, i, j);
        assert(tail@.subrange(0, j - i) =~= s@.subrange(i, j));
        lemma_offset_step_zero(s@);
    }
    let (t, _) = tail.split_at(end - start);
    proof {
        lemma_encode_subrange(tail@, 0, j - i);
        lemma_offset_step_zero(tail@);
        lemma_encode_injective(t@, s@.subrange(i, j));
    }
    t
}

} // verus!
