//! Byte offsets into UTF-8 text: where the `i`-th character of a string starts in its
//! encoding, and back.
use vstd::prelude::*;
use vstd::utf8::{encode_scalar, encode_utf8};

verus! {

/// The number of bytes taken by the UTF-8 encoding of the first `i` characters of `s`.
pub open spec fn byte_offset(s: Seq<char>, i: int) -> int {
    encode_utf8(s.take(i)).len() as int
}

/// The length of the UTF-8 encoding of `s`.
pub open spec fn byte_len(s: Seq<char>) -> int {
    encode_utf8(s).len() as int
}

/// Whether `b` is the byte offset at which some character of `s` starts, or the end of `s`.
pub open spec fn is_char_offset(s: Seq<char>, b: int) -> bool {
    exists|i: int| 0 <= i <= s.len() && #[trigger] byte_offset(s, i) == b
}

/// The character index that starts at byte offset `b` (meaningful when `is_char_offset`).
pub open spec fn char_index(s: Seq<char>, b: int) -> int {
    choose|i: int| 0 <= i <= s.len() && #[trigger] byte_offset(s, i) == b
}

/// Encoding one more character adds its width, between one and four bytes.
pub proof fn lemma_encode_push(s: Seq<char>, c: char)
    ensures
        encode_utf8(s.push(c)).len() == encode_utf8(s).len() + encode_scalar(c as u32).len(),
        1 <= encode_scalar(c as u32).len() <= 4,
    decreases s.len(),
{
    if s.len() == 0 {
        assert(s.push(c).drop_first() =~= Seq::<char>::empty());
        assert(encode_utf8(Seq::<char>::empty()) =~= Seq::<u8>::empty());
    } else {
        assert(s.push(c).drop_first() =~= s.drop_first().push(c));
        assert(s.push(c)[0] == s[0]);
        lemma_encode_push(s.drop_first(), c);
    }
}

/// The offset of the next character is that of the previous one plus its width.
pub proof fn lemma_offset_step(s: Seq<char>, i: int)
    requires
        0 <= i < s.len(),
    ensures
        byte_offset(s, i + 1) == byte_offset(s, i) + encode_scalar(s[i] as u32).len(),
        byte_offset(s, i) < byte_offset(s, i + 1),
{
    assert(s.take(i + 1) =~= s.take(i).push(s[i]));
    lemma_encode_push(s.take(i), s[i]);
}

/// Byte offsets grow strictly with the character index.
pub proof fn lemma_offset_strict(s: Seq<char>, i: int, j: int)
    requires
        0 <= i < j <= s.len(),
    ensures
        byte_offset(s, i) < byte_offset(s, j),
    decreases j - i,
{
    lemma_offset_step(s, j - 1);
    if i < j - 1 {
        lemma_offset_strict(s, i, j - 1);
    }
}

/// The offset of the whole text is its encoded length.
pub proof fn lemma_offset_end(s: Seq<char>)
    ensures
        byte_offset(s, s.len() as int) == byte_len(s),
        byte_offset(s, 0) == 0,
{
    assert(s.take(s.len() as int) =~= s);
    assert(s.take(0) =~= Seq::<char>::empty());
}

/// Reading a character offset back gives the character index it came from.
pub proof fn lemma_char_index_of_offset(s: Seq<char>, i: int)
    requires
        0 <= i <= s.len(),
    ensures
        is_char_offset(s, byte_offset(s, i)),
        char_index(s, byte_offset(s, i)) == i,
{
    assert(is_char_offset(s, byte_offset(s, i)));
    let k = char_index(s, byte_offset(s, i));
    if k < i {
        lemma_offset_strict(s, k, i);
    } else if i < k {
        lemma_offset_strict(s, i, k);
    }
}

/// Character indices keep the order of the offsets they come from, and lie inside the text.
pub proof fn lemma_char_index_order(s: Seq<char>, a: int, b: int)
    requires
        is_char_offset(s, a),
        is_char_offset(s, b),
        a <= b,
    ensures
        0 <= char_index(s, a) <= char_index(s, b) <= s.len(),
        byte_offset(s, char_index(s, a)) == a,
        byte_offset(s, char_index(s, b)) == b,
{
    let i = char_index(s, a);
    let j = char_index(s, b);
    if j < i {
        lemma_offset_strict(s, j, i);
    }
}

/// The number of bytes in the UTF-8 encoding of `c` (`char::len_utf8`).
pub fn char_width(c: char) -> (w: usize)
    ensures
        w == encode_scalar(c as u32).len(),
{
    let v = c as u32;
    if v < 0x80 {
        1
    } else if v < 0x800 {
        2
    } else if v < 0x10000 {
        3
    } else {
        4
    }
}

/// The byte offset of every character of `t`, and of its end.
pub fn byte_offsets(t: &[char], total: usize) -> (r: Vec<usize>)
    requires
        total == byte_len(t@),
    ensures
        r@.len() == t@.len() + 1,
        forall|i: int| 0 <= i <= t@.len() ==> #[trigger] r@[i] == byte_offset(t@, i),
{
    let mut r: Vec<usize> = Vec::new();
    let mut acc: usize = 0;
    let mut i: usize = 0;
    proof {
        lemma_offset_end(t@);
    }
    r.push(0);
    while i < t.len()
        invariant
            total == byte_len(t@),
            i <= t@.len(),
            r@.len() == i + 1,
            acc == byte_offset(t@, i as int),
            forall|k: int| 0 <= k <= i ==> #[trigger] r@[k] == byte_offset(t@, k),
        decreases t@.len() - i,
    {
        proof {
            lemma_offset_step(t@, i as int);
            if i + 1 < t@.len() {
                lemma_offset_strict(t@, i + 1, t@.len() as int);
            }
            lemma_offset_end(t@);
        }
        let w = char_width(t[i]);
        acc = acc + w;
        r.push(acc);
        i = i + 1;
    }
    r
}

/// The character index at which byte offset `b` starts, given the offsets of `t`.
pub fn index_at_offset(t: &[char], offs: &Vec<usize>, b: usize) -> (r: usize)
    requires
        offs@.len() == t@.len() + 1,
        forall|i: int| 0 <= i <= t@.len() ==> #[trigger] offs@[i] == byte_offset(t@, i),
        is_char_offset(t@, b as int),
    ensures
        r <= t@.len(),
        r as int == char_index(t@, b as int),
{
    let ghost k = char_index(t@, b as int);
    proof {
        lemma_char_index_of_offset(t@, k);
    }
    let mut i: usize = 0;
    while i < t.len()
        invariant
            offs@.len() == t@.len() + 1,
            forall|j: int| 0 <= j <= t@.len() ==> #[trigger] offs@[j] == byte_offset(t@, j),
            k == char_index(t@, b as int),
            0 <= k <= t@.len(),
            byte_offset(t@, k) == b,
            i <= k,
        decreases t@.len() - i,
    {
        if offs[i] == b {
            proof {
                if i < k {
                    lemma_offset_strict(t@, i as int, k);
                }
            }
            return i;
        }
        i = i + 1;
    }
    i
}

} // verus!
