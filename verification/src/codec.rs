//! Percent-encoding of object keys and query values.
//!
//! The encoding is specified byte by byte over the UTF-8 encoding of the
//! text: every byte except ASCII alphanumerics and `-`, `.`, `_`, `~` becomes
//! `%` followed by two uppercase hex digits.

use vstd::prelude::*;
use vstd::string::StringSliceAdditionalSpecFns;
use vstd::utf8::encode_utf8;
use crate::strutil::starts_with;
use crate::strutil::str_char_len;

verus! {

/// Bytes that percent-encoding leaves as they are.
pub open spec fn is_unreserved_byte(b: u8) -> bool {
    (0x30 <= b <= 0x39)  // 0-9
    || (0x41 <= b <= 0x5a)  // A-Z
    || (0x61 <= b <= 0x7a)  // a-z
    || b == 0x2d  // -
    || b == 0x2e  // .
    || b == 0x5f  // _
    || b == 0x7e  // ~

}

/// The uppercase hex digit character for a value below sixteen.
pub open spec fn hex_char(d: int) -> char {
    if d == 0 {
        '0'
    } else if d == 1 {
        '1'
    } else if d == 2 {
        '2'
    } else if d == 3 {
        '3'
    } else if d == 4 {
        '4'
    } else if d == 5 {
        '5'
    } else if d == 6 {
        '6'
    } else if d == 7 {
        '7'
    } else if d == 8 {
        '8'
    } else if d == 9 {
        '9'
    } else if d == 10 {
        'A'
    } else if d == 11 {
        'B'
    } else if d == 12 {
        'C'
    } else if d == 13 {
        'D'
    } else if d == 14 {
        'E'
    } else {
        'F'
    }
}

/// What one byte contributes to a percent-encoded string.
pub open spec fn pct_byte_chars(b: u8) -> Seq<char> {
    if is_unreserved_byte(b) {
        seq![b as char]
    } else {
        seq!['%', hex_char((b >> 4) as int), hex_char((b & 0xf) as int)]
    }
}

/// Percent-encoding of a byte string.
pub open spec fn url_encoded(bytes: Seq<u8>) -> Seq<char>
    decreases bytes.len(),
{
    if bytes.len() == 0 {
        Seq::<char>::empty()
    } else {
        pct_byte_chars(bytes[0]) + url_encoded(bytes.drop_first())
    }
}

/// What one byte contributes to an encoded object key: path separators stay.
pub open spec fn key_byte_chars(b: u8) -> Seq<char> {
    if b == 0x2f {
        seq!['/']
    } else {
        pct_byte_chars(b)
    }
}

/// Percent-encoding of an object key: every path segment is encoded and the
/// `/` separators are kept.
pub open spec fn key_encoded(bytes: Seq<u8>) -> Seq<char>
    decreases bytes.len(),
{
    if bytes.len() == 0 {
        Seq::<char>::empty()
    } else {
        key_byte_chars(bytes[0]) + key_encoded(bytes.drop_first())
    }
}

/// Relies on `urlencoding::encode`: every byte of the UTF-8 encoding of the
/// input except ASCII alphanumerics and `-`, `.`, `_`, `~` becomes `%` and
/// two uppercase hex digits.
#[verifier::external_body]
pub fn url_encode(s: &str) -> (r: String)
    ensures
        r@ == url_encoded(s.spec_bytes()),
{
    urlencoding::encode(s).into_owned()
}

pub proof fn lemma_key_encoded_concat(b1: Seq<u8>, b2: Seq<u8>)
    ensures
        key_encoded(b1 + b2) == key_encoded(b1) + key_encoded(b2),
    decreases b1.len(),
{
    if b1.len() == 0 {
        assert(b1 + b2 =~= b2);
        assert(key_encoded(b1) + key_encoded(b2) =~= key_encoded(b2));
    } else {
        lemma_key_encoded_concat(b1.drop_first(), b2);
        assert((b1 + b2).drop_first() =~= b1.drop_first() + b2);
        assert(key_byte_chars(b1[0]) + (key_encoded(b1.drop_first()) + key_encoded(b2))
            =~= (key_byte_chars(b1[0]) + key_encoded(b1.drop_first())) + key_encoded(b2));
    }
}

/// On bytes without the `/` separator the two encodings agree.
pub proof fn lemma_url_encoded_no_slash(b: Seq<u8>)
    requires
        forall|i: int| 0 <= i < b.len() ==> b[i] != 0x2f,
    ensures
        url_encoded(b) == key_encoded(b),
    decreases b.len(),
{
    if b.len() > 0 {
        lemma_url_encoded_no_slash(b.drop_first());
    }
}

pub proof fn lemma_encode_utf8_concat(c1: Seq<char>, c2: Seq<char>)
    ensures
        encode_utf8(c1 + c2) == encode_utf8(c1) + encode_utf8(c2),
    decreases c1.len(),
{
    if c1.len() == 0 {
        assert(c1 + c2 =~= c2);
        assert(encode_utf8(c1) + encode_utf8(c2) =~= encode_utf8(c2));
    } else {
        lemma_encode_utf8_concat(c1.drop_first(), c2);
        assert((c1 + c2).drop_first() =~= c1.drop_first() + c2);
        assert((c1 + c2)[0] == c1[0]);
        assert(vstd::utf8::encode_scalar(c1[0] as u32) + (encode_utf8(c1.drop_first())
            + encode_utf8(c2)) =~= (vstd::utf8::encode_scalar(c1[0] as u32) + encode_utf8(
            c1.drop_first(),
        )) + encode_utf8(c2));
    }
}

/// The UTF-8 encoding of text without `/` holds no `/` byte: the one-byte
/// encodings are the characters' own code points, and every byte of a longer
/// encoding has its high bit set.
pub proof fn lemma_encode_utf8_no_slash(chars: Seq<char>)
    requires
        forall|i: int| 0 <= i < chars.len() ==> chars[i] != '/',
    ensures
        forall|i: int| 0 <= i < encode_utf8(chars).len() ==> encode_utf8(chars)[i] != 0x2f,
    decreases chars.len(),
{
    if chars.len() > 0 {
        let c = chars[0];
        let u = c as u32;
        let head = vstd::utf8::encode_scalar(u);
        assert forall|i: int| 0 <= i < head.len() implies head[i] != 0x2f by {
            lemma_encode_scalar_char_no_slash(c, i);
        }
        lemma_encode_utf8_no_slash(chars.drop_first());
        let tail = encode_utf8(chars.drop_first());
        assert forall|i: int| 0 <= i < encode_utf8(chars).len() implies encode_utf8(chars)[i]
            != 0x2f by {
            if i < head.len() {
                assert(encode_utf8(chars)[i] == head[i]);
            } else {
                assert(encode_utf8(chars)[i] == tail[i - head.len()]);
            }
        }
    }
}

proof fn lemma_encode_scalar_char_no_slash(c: char, i: int)
    requires
        c != '/',
        0 <= i < vstd::utf8::encode_scalar(c as u32).len(),
    ensures
        vstd::utf8::encode_scalar(c as u32)[i] != 0x2f,
{
    let u = c as u32;
    vstd::utf8::char_is_scalar(c);
    if vstd::utf8::has_width_1_encoding(u) {
        assert(u != 0x2f) by {
            if u == 0x2f {
                vstd::utf8::char_u32_cast(c, u);
                assert(('/' as u32) == 0x2f);
                vstd::utf8::char_u32_cast('/', 0x2f);
            }
        }
        assert((u & 0x7f) as u8 != 0x2f) by (bit_vector)
            requires
                u <= 0x7f && u != 0x2f,
        ;
    } else {
        if vstd::utf8::has_width_2_encoding(u) {
            if i == 0 {
                lemma_high_bit_not_slash(((u >> 6) & 0x1f) as u8);
            } else {
                lemma_high_bit_not_slash((u & 0x3f) as u8);
            }
        } else if vstd::utf8::has_width_3_encoding(u) {
            if i == 0 {
                lemma_high_bit_not_slash(((u >> 12) & 0x0f) as u8);
            } else if i == 1 {
                lemma_high_bit_not_slash(((u >> 6) & 0x3f) as u8);
            } else {
                lemma_high_bit_not_slash((u & 0x3f) as u8);
            }
        } else {
            if i == 0 {
                lemma_high_bit_not_slash(((u >> 18) & 0x7) as u8);
            } else if i == 1 {
                lemma_high_bit_not_slash(((u >> 12) & 0x3f) as u8);
            } else if i == 2 {
                lemma_high_bit_not_slash(((u >> 6) & 0x3f) as u8);
            } else {
                lemma_high_bit_not_slash((u & 0x3f) as u8);
            }
        }
    }
}

/// A byte with its high bit set is not the `/` byte.
proof fn lemma_high_bit_not_slash(y: u8)
    ensures
        (0x80u8 | y) != 0x2f,
        (0xc0u8 | y) != 0x2f,
        (0xe0u8 | y) != 0x2f,
        (0xf0u8 | y) != 0x2f,
{
    assert((0x80u8 | y) != 0x2f && (0xc0u8 | y) != 0x2f && (0xe0u8 | y) != 0x2f && (0xf0u8 | y)
        != 0x2f) by (bit_vector);
}

/// Hex digit characters, in either case.
pub open spec fn is_hex_char(c: char) -> bool {
    (0x30 <= (c as u32) <= 0x39) || (0x41 <= (c as u32) <= 0x46) || (0x61 <= (c as u32) <= 0x66)
}

/// The value of a hex digit character.
pub open spec fn hex_val(c: char) -> int {
    if 0x30 <= (c as u32) <= 0x39 {
        (c as u32) - 0x30
    } else if 0x41 <= (c as u32) <= 0x46 {
        (c as u32) - 0x41 + 10
    } else if 0x61 <= (c as u32) <= 0x66 {
        (c as u32) - 0x61 + 10
    } else {
        0
    }
}

/// The bytes that percent-decoding yields on ASCII text: `%` followed by two
/// hex digits becomes one byte, and every other character stands for its own
/// code point.
pub open spec fn pct_decoded_bytes(s: Seq<char>) -> Seq<u8>
    decreases s.len(),
{
    if s.len() == 0 {
        Seq::<u8>::empty()
    } else if s[0] == '%' && s.len() >= 3 && is_hex_char(s[1]) && is_hex_char(s[2]) {
        seq![(hex_val(s[1]) * 16 + hex_val(s[2])) as u8] + pct_decoded_bytes(s.skip(3))
    } else {
        seq![((s[0] as u32) as u8)] + pct_decoded_bytes(s.drop_first())
    }
}

/// The uppercase hex digits are hex characters, none of them is `%`, and
/// their values read back.
proof fn lemma_hex_char_val(d: int)
    requires
        0 <= d < 16,
    ensures
        is_hex_char(hex_char(d)),
        hex_val(hex_char(d)) == d,
        hex_char(d) != '%',
{
    assert(('%' as u32) == 0x25);
}

/// Percent-decoding undoes the encoding of an object key, byte for byte.
pub proof fn lemma_pct_roundtrip_bytes(b: Seq<u8>)
    ensures
        pct_decoded_bytes(key_encoded(b)) == b,
    decreases b.len(),
{
    if b.len() == 0 {
        assert(pct_decoded_bytes(key_encoded(b)) =~= b);
    } else {
        lemma_pct_roundtrip_bytes(b.drop_first());
        let b0 = b[0];
        let rest = key_encoded(b.drop_first());
        let s = key_encoded(b);
        assert(s == key_byte_chars(b0) + rest);
        if b0 == 0x2f {
            assert(s[0] == '/');
            assert(('/' as u32) == 0x2f);
            assert(('%' as u32) == 0x25);
            assert(s[0] != '%');
            assert(s.drop_first() =~= rest);
            assert(((s[0] as u32) as u8) == b0);
            assert(pct_decoded_bytes(s) =~= b);
        } else if is_unreserved_byte(b0) {
            assert(s[0] == (b0 as char));
            assert(((b0 as char) as u32) == b0);
            assert(s[0] != '%') by {
                assert(('%' as u32) == 0x25);
            }
            assert(s.drop_first() =~= rest);
            assert(((s[0] as u32) as u8) == b0);
            assert(pct_decoded_bytes(s) =~= b);
        } else {
            let h = hex_char((b0 >> 4) as int);
            let l = hex_char((b0 & 0xf) as int);
            assert((b0 >> 4) < 16 && (b0 & 0xf) < 16) by (bit_vector);
            lemma_hex_char_val((b0 >> 4) as int);
            lemma_hex_char_val((b0 & 0xf) as int);
            assert(s[0] == '%' && s[1] == h && s[2] == l);
            assert(s.len() >= 3);
            assert((hex_val(h) * 16 + hex_val(l)) == ((b0 >> 4) as int) * 16 + ((b0 & 0xf) as int));
            assert(((b0 >> 4) * 16 + (b0 & 0xf)) == b0) by (bit_vector);
            assert(s.skip(3) =~= rest);
            assert(pct_decoded_bytes(s) =~= b);
        }
    }
}

/// Round trip: percent-decoding an encoded object key gives back the key's
/// exact text, so encoding the decoded key reproduces the encoded key.
pub proof fn lemma_key_encode_roundtrip(key: Seq<char>)
    ensures
        vstd::utf8::decode_utf8(pct_decoded_bytes(key_encoded(encode_utf8(key)))) == key,
        key_encoded(
            encode_utf8(vstd::utf8::decode_utf8(pct_decoded_bytes(key_encoded(encode_utf8(key))))),
        ) == key_encoded(encode_utf8(key)),
{
    lemma_pct_roundtrip_bytes(encode_utf8(key));
    vstd::utf8::encode_utf8_decode_utf8(key);
}

/// Percent-encodes an object key path: each `/`-separated segment is encoded
/// and the separators are kept.
pub fn encode_key_path(key: &str) -> (r: String)
    ensures
        r@ == key_encoded(key.spec_bytes()),
{
    let n = str_char_len(key);
    let mut out = String::new();
    let mut seg_start: usize = 0;
    let mut i: usize = 0;
    proof {
        assert(key@.subrange(0, 0) =~= Seq::<char>::empty());
        assert(out@ =~= key_encoded(encode_utf8(key@.subrange(0, 0))));
    }
    while i < n
        invariant
            n == key@.len(),
            0 <= seg_start <= i <= n,
            out@ == key_encoded(encode_utf8(key@.subrange(0, seg_start as int))),
            forall|j: int| seg_start <= j < i ==> key@[j] != '/',
        decreases n - i,
    {
        let c = key.get_char(i);
        if c == '/' {
            let seg = key.substring_char(seg_start, i);
            let enc = url_encode(seg);
            out.append(enc.as_str());
            let mut slash = String::new();
            crate::strutil::push_char(&mut slash, '/');
            out.append(slash.as_str());
            proof {
                lemma_segment_step(key@, seg_start as int, i as int, seg@);
                assert(out@ == key_encoded(encode_utf8(key@.subrange(0, i + 1))));
            }
            seg_start = i + 1;
        }
        i = i + 1;
    }
    let seg = key.substring_char(seg_start, n);
    let enc = url_encode(seg);
    out.append(enc.as_str());
    proof {
        lemma_segment_final(key@, seg_start as int, seg@);
    }
    out
}

/// Consuming one full segment and its `/` extends the encoded prefix.
proof fn lemma_segment_step(key: Seq<char>, seg_start: int, i: int, seg: Seq<char>)
    requires
        0 <= seg_start <= i < key.len(),
        seg == key.subrange(seg_start, i),
        forall|j: int| seg_start <= j < i ==> key[j] != '/',
        key[i] == '/',
    ensures
        key_encoded(encode_utf8(key.subrange(0, seg_start))) + url_encoded(encode_utf8(seg))
            + seq!['/'] == key_encoded(encode_utf8(key.subrange(0, i + 1))),
{
    let prefix = key.subrange(0, seg_start);
    assert(key.subrange(0, i + 1) =~= prefix + seg + seq![key[i]]);
    lemma_encode_utf8_concat(prefix + seg, seq![key[i]]);
    lemma_encode_utf8_concat(prefix, seg);
    assert(('/' as u32) == 0x2f);
    assert(key[i] as u32 == 0x2f);
    assert(vstd::utf8::encode_scalar(0x2f) =~= seq![0x2fu8]) by {
        assert(((0x2fu32 & 0x7f) as u8) == 0x2fu8) by (bit_vector);
    }
    assert(encode_utf8(seq![key[i]]) =~= seq![0x2fu8]) by {
        assert(seq![key[i]].drop_first() =~= Seq::<char>::empty());
        assert(encode_utf8(Seq::<char>::empty()) =~= Seq::<u8>::empty());
        assert(encode_utf8(seq![key[i]]) == vstd::utf8::encode_scalar(key[i] as u32) + encode_utf8(
            seq![key[i]].drop_first(),
        ));
    }
    lemma_key_encoded_concat(encode_utf8(prefix) + encode_utf8(seg), seq![0x2fu8]);
    lemma_key_encoded_concat(encode_utf8(prefix), encode_utf8(seg));
    lemma_encode_utf8_no_slash(seg);
    lemma_url_encoded_no_slash(encode_utf8(seg));
    assert(key_encoded(seq![0x2fu8]) =~= seq!['/']) by {
        assert(seq![0x2fu8].drop_first() =~= Seq::<u8>::empty());
        assert(key_encoded(Seq::<u8>::empty()) =~= Seq::<char>::empty());
        assert(key_encoded(seq![0x2fu8]) == key_byte_chars(0x2f) + key_encoded(
            seq![0x2fu8].drop_first(),
        ));
    }
    assert(encode_utf8(key.subrange(0, i + 1)) == (encode_utf8(prefix) + encode_utf8(seg)) + seq![
        0x2fu8,
    ]) by {
        assert(encode_utf8(prefix + seg) == encode_utf8(prefix) + encode_utf8(seg));
    }
}

/// Appending the encoded last segment completes the encoded key.
proof fn lemma_segment_final(key: Seq<char>, seg_start: int, seg: Seq<char>)
    requires
        0 <= seg_start <= key.len(),
        seg == key.subrange(seg_start, key.len() as int),
        forall|j: int| seg_start <= j < key.len() ==> key[j] != '/',
    ensures
        key_encoded(encode_utf8(key.subrange(0, seg_start))) + url_encoded(encode_utf8(seg))
            == key_encoded(encode_utf8(key)),
{
    let prefix = key.subrange(0, seg_start);
    assert(key =~= prefix + seg);
    lemma_encode_utf8_concat(prefix, seg);
    lemma_key_encoded_concat(encode_utf8(prefix), encode_utf8(seg));
    lemma_encode_utf8_no_slash(seg);
    lemma_url_encoded_no_slash(encode_utf8(seg));
}

} // verus!
