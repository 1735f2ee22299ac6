//! Texts read back from the system: C string buffers and state names.

use vstd::prelude::*;
use vstd::utf8::{decode_utf8, encode_scalar, encode_utf8, is_scalar, valid_utf8};

verus! {

/// What `String::from_utf8_lossy` returns for a byte string: its UTF-8 decoding, each
/// invalid sequence replaced by U+FFFD.
pub uninterp spec fn utf8_lossy(bytes: Seq<u8>) -> Seq<char>;

/// Calls `String::from_utf8_lossy` and takes the result as an owned `String`; valid
/// UTF-8 comes back as the text it encodes.
#[verifier::external_body]
fn decode_lossy(bytes: &[u8]) -> (s: String)
    ensures
        s@ == utf8_lossy(bytes@),
        valid_utf8(bytes@) ==> s@ == decode_utf8(bytes@),
{
    String::from_utf8_lossy(bytes).into_owned()
}

/// The bytes of `buf` before its first NUL byte (all of them when there is none).
pub open spec fn before_nul(buf: Seq<u8>) -> Seq<u8>
    decreases buf.len(),
{
    if buf.len() == 0 || buf[0] == 0 {
        Seq::empty()
    } else {
        seq![buf[0]].add(before_nul(buf.drop_first()))
    }
}

/// The length of the text before the first NUL byte of `buf`.
fn nul_position(buf: &[u8]) -> (n: usize)
    ensures
        n <= buf@.len(),
        buf@.subrange(0, n as int) == before_nul(buf@),
{
    let mut i: usize = 0;
    assert(buf@.subrange(0, buf@.len() as int) =~= buf@);
    assert(buf@.subrange(0, 0) + before_nul(buf@) =~= before_nul(buf@));
    while i < buf.len() && buf[i] != 0
        invariant
            0 <= i <= buf@.len(),
            forall|j: int| 0 <= j < i ==> buf@[j] != 0,
            before_nul(buf@) == buf@.subrange(0, i as int) + before_nul(buf@.subrange(i as int, buf@.len() as int)),
        decreases buf@.len() - i,
    {
        let ghost rest = buf@.subrange(i as int, buf@.len() as int);
        assert(rest.drop_first() =~= buf@.subrange(i + 1, buf@.len() as int));
        assert(buf@.subrange(0, i as int) + seq![rest[0]] =~= buf@.subrange(0, i + 1));
        assert(before_nul(rest) == seq![rest[0]].add(before_nul(rest.drop_first())));
        assert(buf@.subrange(0, i as int) + before_nul(rest) =~= buf@.subrange(0, i + 1) + before_nul(
            buf@.subrange(i + 1, buf@.len() as int),
        ));
        i = i + 1;
    }
    assert(before_nul(buf@.subrange(i as int, buf@.len() as int)) =~= Seq::<u8>::empty());
    assert(buf@.subrange(0, i as int) + Seq::<u8>::empty() =~= buf@.subrange(0, i as int));
    i
}

/// The text that a C string buffer holds: empty when the copy into it failed, else the
/// lossy UTF-8 decoding of its bytes before the first NUL.
pub fn c_buffer_text(copied: bool, buf: &[u8]) -> (s: String)
    ensures
        !copied ==> s@ == Seq::<char>::empty(),
        copied ==> s@ == utf8_lossy(before_nul(buf@)),
        copied && valid_utf8(before_nul(buf@)) ==> s@ == decode_utf8(before_nul(buf@)),
{
    if !copied {
        return String::new();
    }
    let n = nul_position(buf);
    let text = slice_prefix(buf, n);
    decode_lossy(text)
}

/// The first `n` bytes of `buf`.
fn slice_prefix(buf: &[u8], n: usize) -> (p: &[u8])
    requires
        n <= buf@.len(),
    ensures
        p@ == buf@.subrange(0, n as int),
{
    vstd::slice::slice_subrange(buf, 0, n)
}

/// No byte of the UTF-8 encoding of a scalar other than zero is zero.
proof fn lemma_scalar_encoding_has_no_nul(v: u32)
    requires
        is_scalar(v),
        v != 0,
    ensures
        forall|i: int| 0 <= i < encode_scalar(v).len() ==> #[trigger] encode_scalar(v)[i] != 0,
{
    assert(1 <= v <= 0x7F ==> (v & 0x7F) as u8 != 0) by (bit_vector);
    assert(forall|x: u8| #[trigger] (0xC0u8 | x) != 0) by (bit_vector);
    assert(forall|x: u8| #[trigger] (0xE0u8 | x) != 0) by (bit_vector);
    assert(forall|x: u8| #[trigger] (0xF0u8 | x) != 0) by (bit_vector);
    assert(forall|x: u8| #[trigger] (0x80u8 | x) != 0) by (bit_vector);
}

/// The UTF-8 encoding of a text without NUL characters has no zero byte.
proof fn lemma_encoding_has_no_nul(s: Seq<char>)
    requires
        forall|i: int| 0 <= i < s.len() ==> #[trigger] s[i] != '\0',
    ensures
        forall|i: int| 0 <= i < encode_utf8(s).len() ==> #[trigger] encode_utf8(s)[i] != 0,
    decreases s.len(),
{
    if s.len() > 0 {
        let c = s[0];
        vstd::utf8::char_is_scalar(c);
        assert(c as u32 != 0) by {
            vstd::utf8::char_u32_cast(c, c as u32);
            assert(c != '\0');
        }
        lemma_scalar_encoding_has_no_nul(c as u32);
        lemma_encoding_has_no_nul(s.drop_first());
        let head = encode_scalar(c as u32);
        let tail = encode_utf8(s.drop_first());
        assert(encode_utf8(s) == head + tail);
        assert forall|i: int| 0 <= i < encode_utf8(s).len() implies #[trigger] encode_utf8(s)[i]
            != 0 by {
            if i < head.len() {
                assert(encode_utf8(s)[i] == head[i]);
            } else {
                assert(encode_utf8(s)[i] == tail[i - head.len()]);
            }
        }
    }
}

/// The text before the first NUL of bytes that start with a NUL-free run and a NUL is
/// that run.
proof fn lemma_before_nul_of_terminated(b: Seq<u8>, buf: Seq<u8>)
    requires
        forall|i: int| 0 <= i < b.len() ==> #[trigger] b[i] != 0,
        b.len() < buf.len(),
        buf.subrange(0, b.len() as int) == b,
        buf[b.len() as int] == 0,
    ensures
        before_nul(buf) == b,
    decreases b.len(),
{
    if b.len() > 0 {
        assert(buf[0] == b[0]);
        let rest = buf.drop_first();
        assert(rest.subrange(0, b.len() - 1) =~= b.drop_first());
        lemma_before_nul_of_terminated(b.drop_first(), rest);
        assert(seq![buf[0]].add(b.drop_first()) =~= b);
    } else {
        assert(b =~= Seq::<u8>::empty());
    }
}

/// A buffer holding the UTF-8 encoding of a text without NUL characters, followed by a
/// NUL, reads back as that text: its bytes before the first NUL are the encoding, which
/// is valid UTF-8 and decodes to the text (so `c_buffer_text` returns the text).
pub proof fn lemma_c_buffer_round_trip(s: Seq<char>, buf: Seq<u8>)
    requires
        forall|i: int| 0 <= i < s.len() ==> #[trigger] s[i] != '\0',
        encode_utf8(s).len() < buf.len(),
        buf.subrange(0, encode_utf8(s).len() as int) == encode_utf8(s),
        buf[encode_utf8(s).len() as int] == 0,
    ensures
        before_nul(buf) == encode_utf8(s),
        valid_utf8(before_nul(buf)),
        decode_utf8(before_nul(buf)) == s,
{
    lemma_encoding_has_no_nul(s);
    lemma_before_nul_of_terminated(encode_utf8(s), buf);
    vstd::utf8::encode_utf8_valid_utf8(s);
    vstd::utf8::encode_utf8_decode_utf8(s);
}

/// The character of a decimal digit.
pub open spec fn digit_char(d: int) -> char {
    (48 + d) as char
}

/// The decimal digits of `n`, most significant first.
pub open spec fn decimal(n: nat) -> Seq<char>
    decreases n,
{
    if n < 10 {
        seq![digit_char(n as int)]
    } else {
        decimal(n / 10).push(digit_char((n % 10) as int))
    }
}

/// The one-character text of a decimal digit.
fn digit_text(d: u32) -> (t: &'static str)
    requires
        d < 10,
    ensures
        t@ == seq![digit_char(d as int)],
{
    proof {
        reveal_strlit("0");
        reveal_strlit("1");
        reveal_strlit("2");
        reveal_strlit("3");
        reveal_strlit("4");
        reveal_strlit("5");
        reveal_strlit("6");
        reveal_strlit("7");
        reveal_strlit("8");
        reveal_strlit("9");
    }
    let t = if d == 0 {
        "0"
    } else if d == 1 {
        "1"
    } else if d == 2 {
        "2"
    } else if d == 3 {
        "3"
    } else if d == 4 {
        "4"
    } else if d == 5 {
        "5"
    } else if d == 6 {
        "6"
    } else if d == 7 {
        "7"
    } else if d == 8 {
        "8"
    } else {
        "9"
    };
    assert(t@ =~= seq![digit_char(d as int)]);
    t
}

/// The decimal digits of `n`, most significant first.
fn decimal_text(n: u32) -> (s: String)
    ensures
        s@ == decimal(n as nat),
    decreases n,
{
    if n < 10 {
        digit_text(n).to_owned()
    } else {
        let mut s = decimal_text(n / 10);
        s.append(digit_text(n % 10));
        assert(s@ =~= decimal((n / 10) as nat).push(digit_char((n % 10) as int)));
        s
    }
}

/// The name of the `index`-th performance state: the name the system gives it, or
/// `S<index>` where it gives none.
pub fn residency_state_name(index: i32, name: Option<String>) -> (s: String)
    requires
        index >= 0,
    ensures
        name matches Some(n) ==> s == n,
        name is None ==> s@ == seq!['S'] + decimal(index as nat),
{
    match name {
        Some(n) => n,
        None => {
            let digits = decimal_text(index as u32);
            let prefix = "S".to_owned();
            proof {
                reveal_strlit("S");
            }
            let s = prefix.concat(digits.as_str());
            assert(s@ =~= seq!['S'] + decimal(index as nat));
            s
        },
    }
}

} // verus!
