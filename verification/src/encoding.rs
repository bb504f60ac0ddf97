//! The UTF-8 byte layout of a text, and the char-boundary arithmetic that
//! the editor's byte-offset cursor rests on.
use vstd::prelude::*;
use vstd::string::StringExecFns;
use vstd::utf8::*;

verus! {

/// Number of bytes that the UTF-8 encoding of `s` occupies.
pub open spec fn byte_len(s: Seq<char>) -> nat {
    encode_utf8(s).len()
}

/// Number of bytes that the UTF-8 encoding of one char occupies.
pub open spec fn char_width(c: char) -> nat {
    encode_scalar(c as u32).len()
}

/// Byte offset `b` lies on a char boundary of `s`: it is the byte length of
/// some prefix of `s` (the end of the text included).
pub open spec fn is_boundary(s: Seq<char>, b: int) -> bool {
    exists|k: int| 0 <= k <= s.len() && #[trigger] byte_len(s.take(k)) == b
}

/// The number of chars before byte offset `b`, for a boundary `b`.
pub open spec fn char_index(s: Seq<char>, b: int) -> int {
    choose|k: int| 0 <= k <= s.len() && #[trigger] byte_len(s.take(k)) == b
}

/// The encoding of a concatenation is the concatenation of the encodings.
pub proof fn lemma_encode_concat(a: Seq<char>, b: Seq<char>)
    ensures
        encode_utf8(a + b) == encode_utf8(a) + encode_utf8(b),
    decreases a.len(),
{
    if a.len() == 0 {
        assert(a + b =~= b);
        assert(encode_utf8(a) =~= Seq::<u8>::empty());
        assert(encode_utf8(a) + encode_utf8(b) =~= encode_utf8(b));
    } else {
        assert((a + b).drop_first() =~= a.drop_first() + b);
        assert((a + b)[0] == a[0]);
        lemma_encode_concat(a.drop_first(), b);
        assert(encode_utf8(a + b) =~= encode_utf8(a) + encode_utf8(b));
    }
}

/// Every char takes one to four bytes.
pub proof fn lemma_char_width_bounds(c: char)
    ensures
        1 <= char_width(c) <= 4,
{
}

/// The encoding of a single char is its scalar encoding.
pub proof fn lemma_encode_single(c: char)
    ensures
        encode_utf8(seq![c]) == encode_scalar(c as u32),
        byte_len(seq![c]) == char_width(c),
{
    assert(seq![c].drop_first() =~= Seq::<char>::empty());
    assert(seq![c][0] == c);
    assert(encode_utf8(Seq::<char>::empty()) =~= Seq::<u8>::empty());
    assert(encode_utf8(seq![c]) =~= encode_scalar(c as u32) + encode_utf8(Seq::<char>::empty()));
    assert(encode_utf8(seq![c]) =~= encode_scalar(c as u32));
}

/// Growing a prefix by one char adds that char's width.
pub proof fn lemma_prefix_step(s: Seq<char>, k: int)
    requires
        0 <= k < s.len(),
    ensures
        byte_len(s.take(k + 1)) == byte_len(s.take(k)) + char_width(s[k]),
{
    assert(s.take(k + 1) =~= s.take(k) + seq![s[k]]);
    lemma_encode_concat(s.take(k), seq![s[k]]);
    lemma_encode_single(s[k]);
}

/// Longer prefixes take strictly more bytes.
pub proof fn lemma_prefix_strict(s: Seq<char>, i: int, j: int)
    requires
        0 <= i < j <= s.len(),
    ensures
        byte_len(s.take(i)) < byte_len(s.take(j)),
    decreases j - i,
{
    lemma_prefix_step(s, j - 1);
    lemma_char_width_bounds(s[j - 1]);
    if i < j - 1 {
        lemma_prefix_strict(s, i, j - 1);
    }
}

/// Prefixes never take more bytes than the whole text.
pub proof fn lemma_prefix_le(s: Seq<char>, i: int)
    requires
        0 <= i <= s.len(),
    ensures
        byte_len(s.take(i)) <= byte_len(s),
        i == 0 ==> byte_len(s.take(i)) == 0,
{
    assert(s.take(s.len() as int) =~= s);
    if i < s.len() {
        lemma_prefix_strict(s, i, s.len() as int);
    }
    if i == 0 {
        assert(s.take(0) =~= Seq::<char>::empty());
    }
}

/// The char index of a boundary is the unique prefix length that reaches it.
pub proof fn lemma_char_index(s: Seq<char>, k: int)
    requires
        0 <= k <= s.len(),
    ensures
        is_boundary(s, byte_len(s.take(k)) as int),
        char_index(s, byte_len(s.take(k)) as int) == k,
{
    let b = byte_len(s.take(k)) as int;
    assert(byte_len(s.take(k)) == b);
    let j = char_index(s, b);
    if j < k {
        lemma_prefix_strict(s, j, k);
    } else if k < j {
        lemma_prefix_strict(s, k, j);
    }
}

/// A boundary has a char index within the text that reaches it.
pub proof fn lemma_boundary_index(s: Seq<char>, b: int)
    requires
        is_boundary(s, b),
    ensures
        0 <= char_index(s, b) <= s.len(),
        byte_len(s.take(char_index(s, b))) == b,
{
}


/// The encoding of a nonempty text is its first char's encoding followed by
/// the encoding of the rest.
proof fn lemma_encode_first(s: Seq<char>)
    requires
        s.len() > 0,
    ensures
        length_of_first_scalar(encode_utf8(s)) == char_width(s[0]),
        pop_first_scalar(encode_utf8(s)) == encode_utf8(s.drop_first()),
        valid_utf8(encode_utf8(s)),
{
    encode_utf8_first_scalar(s);
    encode_utf8_valid_utf8(s);
    assert(pop_first_scalar(encode_utf8(s)) =~= encode_utf8(s.drop_first()));
}

/// A prefix of `k + 1` chars is the first char followed by `k` chars of the rest.
proof fn lemma_prefix_after_first(s: Seq<char>, k: int)
    requires
        0 < k <= s.len(),
    ensures
        byte_len(s.take(k)) == char_width(s[0]) + byte_len(s.drop_first().take(k - 1)),
{
    assert(s.take(k) =~= seq![s[0]] + s.drop_first().take(k - 1));
    lemma_encode_concat(seq![s[0]], s.drop_first().take(k - 1));
    lemma_encode_single(s[0]);
}

/// The byte length of every prefix is a char boundary of the encoding.
pub proof fn lemma_prefix_is_char_boundary(s: Seq<char>, k: int)
    requires
        0 <= k <= s.len(),
    ensures
        valid_utf8(encode_utf8(s)),
        is_char_boundary(encode_utf8(s), byte_len(s.take(k)) as int),
    decreases k,
{
    encode_utf8_valid_utf8(s);
    lemma_prefix_le(s, k);
    if k > 0 {
        lemma_encode_first(s);
        lemma_prefix_after_first(s, k);
        lemma_char_width_bounds(s[0]);
        lemma_prefix_is_char_boundary(s.drop_first(), k - 1);
    }
}

/// Every char boundary of the encoding is the byte length of a prefix.
pub proof fn lemma_char_boundary_is_prefix(s: Seq<char>, i: int)
    requires
        is_char_boundary(encode_utf8(s), i),
    ensures
        is_boundary(s, i),
    decreases s.len(),
{
    encode_utf8_valid_utf8(s);
    if i == 0 {
        lemma_prefix_le(s, 0);
        assert(byte_len(s.take(0)) == 0);
    } else {
        if s.len() == 0 {
            assert(encode_utf8(s) =~= Seq::<u8>::empty());
        } else {
            lemma_encode_first(s);
            let w = char_width(s[0]) as int;
            lemma_char_boundary_is_prefix(s.drop_first(), i - w);
            let k = char_index(s.drop_first(), i - w);
            lemma_prefix_after_first(s, k + 1);
            assert(s.drop_first().take(k) == s.drop_first().take(k + 1 - 1));
            assert(byte_len(s.take(k + 1)) == i);
        }
    }
}

/// Encodings are injective: equal encodings come from equal texts.
pub proof fn lemma_encode_injective(a: Seq<char>, b: Seq<char>)
    requires
        encode_utf8(a) == encode_utf8(b),
    ensures
        a == b,
{
    encode_utf8_decode_utf8(a);
    encode_utf8_decode_utf8(b);
}

/// Splitting the encoding at the byte length of a prefix splits the text there.
pub proof fn lemma_split_encoding(s: Seq<char>, k: int)
    requires
        0 <= k <= s.len(),
    ensures
        encode_utf8(s).subrange(0, byte_len(s.take(k)) as int) == encode_utf8(s.take(k)),
        encode_utf8(s).subrange(byte_len(s.take(k)) as int, byte_len(s) as int)
            == encode_utf8(s.skip(k)),
{
    assert(s =~= s.take(k) + s.skip(k));
    lemma_encode_concat(s.take(k), s.skip(k));
    assert(encode_utf8(s).subrange(0, byte_len(s.take(k)) as int) =~= encode_utf8(s.take(k)));
    assert(encode_utf8(s).subrange(byte_len(s.take(k)) as int, byte_len(s) as int)
        =~= encode_utf8(s.skip(k)));
}

/// Splits `t` at the boundary `b` into the chars before and after it.
pub fn split_text(t: &str, b: usize) -> (res: (&str, &str))
    requires
        is_boundary(t@, b as int),
    ensures
        res.0@ == t@.take(char_index(t@, b as int)),
        res.1@ == t@.skip(char_index(t@, b as int)),
{
    let ghost k = char_index(t@, b as int);
    proof {
        lemma_prefix_is_char_boundary(t@, k);
    }
    let (left, right) = t.split_at(b);
    proof {
        lemma_split_encoding(t@, k);
        lemma_encode_injective(left@, t@.take(k));
        lemma_encode_injective(right@, t@.skip(k));
    }
    (left, right)
}

/// The char right after the boundary `b`, if the text goes on there.
pub fn char_at(t: &str, b: usize) -> (res: Option<char>)
    requires
        is_boundary(t@, b as int),
    ensures
        char_index(t@, b as int) < t@.len() ==> res == Some(t@[char_index(t@, b as int)]),
        char_index(t@, b as int) == t@.len() ==> res is None,
{
    broadcast use vstd::string::group_string_axioms;
    let (_, right) = split_text(t, b);
    let mut it = right.chars();
    it.next()
}


/// Number of bytes that `c` takes in UTF-8.
pub fn utf8_width(c: char) -> (w: usize)
    ensures
        w == char_width(c),
        1 <= w <= 4,
{
    proof {
        char_is_scalar(c);
    }
    let u = c as u32;
    if u <= 0x7f {
        1
    } else if u <= 0x7ff {
        2
    } else if u <= 0xffff {
        3
    } else {
        4
    }
}

/// Byte length of `t`: the end of the text, which is a boundary.
pub fn text_len(t: &str) -> (n: usize)
    ensures
        n == byte_len(t@),
        is_boundary(t@, n as int),
        char_index(t@, n as int) == t@.len(),
{
    proof {
        assert(t@.take(t@.len() as int) =~= t@);
        lemma_char_index(t@, t@.len() as int);
    }
    t.as_bytes().len()
}

/// Between two consecutive prefix lengths no byte starts a char.
proof fn lemma_no_boundary_between(s: Seq<char>, k: int, p: int)
    requires
        0 < k <= s.len(),
        byte_len(s.take(k - 1)) < p < byte_len(s.take(k)),
    ensures
        !is_boundary(s, p),
{
    if is_boundary(s, p) {
        let j = char_index(s, p);
        if j <= k - 1 {
            if j < k - 1 {
                lemma_prefix_strict(s, j, k - 1);
            }
        } else {
            if j > k {
                lemma_prefix_strict(s, k, j);
            }
        }
    }
}

/// The boundary one char before the boundary `b`, for `b > 0`.
pub fn prev_boundary(t: &str, b: usize) -> (p: usize)
    requires
        is_boundary(t@, b as int),
        b > 0,
    ensures
        0 < char_index(t@, b as int),
        p == byte_len(t@.take(char_index(t@, b as int) - 1)),
        is_boundary(t@, p as int),
        char_index(t@, p as int) == char_index(t@, b as int) - 1,
{
    let ghost s = t@;
    let ghost k = char_index(s, b as int);
    let ghost q = byte_len(s.take(k - 1)) as int;
    proof {
        lemma_boundary_index(s, b as int);
        if k == 0 {
            lemma_prefix_le(s, 0);
        }
        lemma_prefix_strict(s, k - 1, k);
        lemma_prefix_le(s, k);
        lemma_prefix_is_char_boundary(s, k - 1);
        is_char_boundary_iff_not_is_continuation_byte(encode_utf8(s), q);
        lemma_char_index(s, k - 1);
    }
    let bytes = t.as_bytes();
    assert(bytes@ == encode_utf8(s));
    let mut p: usize = b - 1;
    while p > 0 && 0x80 <= bytes[p] && bytes[p] <= 0xbf
        invariant
            bytes@ == encode_utf8(s),
            valid_utf8(encode_utf8(s)),
            q <= p < b,
            b == byte_len(s.take(k)),
            b <= bytes@.len(),
            0 < k <= s.len(),
            q == byte_len(s.take(k - 1)),
            !is_continuation_byte(bytes@[q]),
        decreases p,
    {
        p = p - 1;
    }
    proof {
        if p > q {
            is_char_boundary_iff_not_is_continuation_byte(encode_utf8(s), p as int);
            lemma_char_boundary_is_prefix(s, p as int);
            lemma_no_boundary_between(s, k, p as int);
        }
    }
    p
}

/// The boundary one char after the boundary `b`, for `b` before the end.
pub fn next_boundary(t: &str, b: usize) -> (p: usize)
    requires
        is_boundary(t@, b as int),
        char_index(t@, b as int) < t@.len(),
    ensures
        p == byte_len(t@.take(char_index(t@, b as int) + 1)),
        is_boundary(t@, p as int),
        char_index(t@, p as int) == char_index(t@, b as int) + 1,
{
    let ghost s = t@;
    let ghost k = char_index(s, b as int);
    proof {
        lemma_boundary_index(s, b as int);
        lemma_prefix_step(s, k);
        lemma_prefix_le(s, k + 1);
        lemma_char_index(s, k + 1);
    }
    let n = text_len(t);
    let c = char_at(t, b);
    match c {
        Some(c) => b + utf8_width(c),
        None => n,
    }
}


/// A new text made of the chars of `t` before boundary `a`, then `ins`, then
/// the chars of `t` from boundary `b` on.
pub fn splice(t: &str, a: usize, b: usize, ins: &str) -> (res: String)
    requires
        is_boundary(t@, a as int),
        is_boundary(t@, b as int),
    ensures
        res@ == t@.take(char_index(t@, a as int)) + ins@ + t@.skip(char_index(t@, b as int)),
{
    let (left, _) = split_text(t, a);
    let (_, right) = split_text(t, b);
    let mut res = left.to_owned();
    res.append(ins);
    res.append(right);
    res
}

/// A new text made of the chars of `t` before boundary `a` and those from
/// boundary `b` on.
pub fn cut(t: &str, a: usize, b: usize) -> (res: String)
    requires
        is_boundary(t@, a as int),
        is_boundary(t@, b as int),
    ensures
        res@ == t@.take(char_index(t@, a as int)) + t@.skip(char_index(t@, b as int)),
{
    let (left, _) = split_text(t, a);
    let (_, right) = split_text(t, b);
    let mut res = left.to_owned();
    res.append(right);
    res
}


/// The char right before the boundary `b`, if there is one.
pub fn char_before(t: &str, b: usize) -> (res: Option<char>)
    requires
        is_boundary(t@, b as int),
    ensures
        char_index(t@, b as int) > 0 ==> res == Some(t@[char_index(t@, b as int) - 1]),
        char_index(t@, b as int) == 0 ==> res is None,
{
    proof {
        lemma_boundary_index(t@, b as int);
        if char_index(t@, b as int) > 0 {
            lemma_prefix_strict(t@, 0, char_index(t@, b as int));
            lemma_prefix_le(t@, 0);
        }
        lemma_char_index(t@, 0);
        lemma_prefix_le(t@, 0);
    }
    if b == 0 {
        None
    } else {
        let p = prev_boundary(t, b);
        char_at(t, p)
    }
}


/// Whether two texts hold the same chars.
pub fn same_text(a: &str, b: &str) -> (r: bool)
    ensures
        r == (a@ == b@),
{
    let x = a.as_bytes();
    let y = b.as_bytes();
    if x.len() != y.len() {
        return false;
    }
    let mut i: usize = 0;
    while i < x.len()
        invariant
            x@ == encode_utf8(a@),
            y@ == encode_utf8(b@),
            x@.len() == y@.len(),
            i <= x@.len(),
            forall|j: int| 0 <= j < i ==> x@[j] == y@[j],
        decreases x@.len() - i,
    {
        if x[i] != y[i] {
            return false;
        }
        i = i + 1;
    }
    proof {
        assert(x@ =~= y@);
        lemma_encode_injective(a@, b@);
    }
    true
}


/// Calls `char::encode_utf8`, which writes the UTF-8 encoding of `c` into
/// `buf` and returns the part of `buf` that holds it, as a text of the one
/// char `c`.
#[verifier::external_body]
pub(crate) fn encode_char<'a>(c: char, buf: &'a mut [u8; 4]) -> (t: &'a str)
    ensures
        t@ == seq![c],
{
    c.encode_utf8(buf)
}

} // verus!
