//! The `Sec-WebSocket-Accept` value that answers a client's
//! `Sec-WebSocket-Key`: the base64 form of the SHA-1 digest of the key
//! followed by the protocol's fixed GUID.

use rustc_serialize::base64::{ToBase64, STANDARD};
use vstd::prelude::*;
use vstd::utf8::encode_utf8;

verus! {

/// The GUID that the websocket protocol appends to the client's key.
pub const MAGIC_WS: &'static str = "258EAFA5-E914-47DA-95CA-C5AB0DC85B11";

/// The SHA-1 digest of `data`, as the `sha1` crate computes it.
pub uninterp spec fn sha1_digest(data: Seq<u8>) -> Seq<u8>;

/// The character of the standard base64 alphabet (`A`-`Z`, `a`-`z`,
/// `0`-`9`, `+`, `/`) for a 6-bit value.
pub open spec fn base64_char(v: int) -> char {
    if v < 26 {
        (65 + v) as char
    } else if v < 52 {
        (97 + (v - 26)) as char
    } else if v < 62 {
        (48 + (v - 52)) as char
    } else if v == 62 {
        '+'
    } else {
        '/'
    }
}

/// The base64 text of `data` in rustc_serialize's `STANDARD` configuration:
/// each group of three bytes, read as a big-endian 24-bit number, gives four
/// characters of 6 bits each; a last group of one or two bytes gives two or
/// three characters, padded with `=` to four; no line breaks.
pub open spec fn base64_standard(data: Seq<u8>) -> Seq<char>
    decreases data.len(),
{
    if data.len() == 0 {
        Seq::empty()
    } else if data.len() == 1 {
        let n = data[0] as int * 65536;
        seq![base64_char(n / 262144), base64_char((n / 4096) % 64), '=', '=']
    } else if data.len() == 2 {
        let n = data[0] as int * 65536 + data[1] as int * 256;
        seq![
            base64_char(n / 262144),
            base64_char((n / 4096) % 64),
            base64_char((n / 64) % 64),
            '=',
        ]
    } else {
        let n = data[0] as int * 65536 + data[1] as int * 256 + data[2] as int;
        seq![
            base64_char(n / 262144),
            base64_char((n / 4096) % 64),
            base64_char((n / 64) % 64),
            base64_char(n % 64),
        ] + base64_standard(data.subrange(3, data.len() as int))
    }
}

/// Whether `c` is in the standard base64 alphabet: `A`-`Z`, `a`-`z`,
/// `0`-`9`, `+` or `/`.
pub open spec fn is_base64_alphabet(c: char) -> bool {
    let u = c as u32;
    ||| (65 <= u && u <= 90)
    ||| (97 <= u && u <= 122)
    ||| (48 <= u && u <= 57)
    ||| u == 43
    ||| u == 47
}

/// The 6-bit value of a character of the standard alphabet; the padding
/// `=`, like any other character, counts as 0.
pub open spec fn base64_value(c: char) -> int {
    let u = c as u32 as int;
    if 65 <= u && u <= 90 {
        u - 65
    } else if 97 <= u && u <= 122 {
        u - 97 + 26
    } else if 48 <= u && u <= 57 {
        u - 48 + 52
    } else if u == 43 {
        62
    } else if u == 47 {
        63
    } else {
        0
    }
}

/// Standard base64 decoding: each group of four characters gives three
/// bytes, or two when it ends in one `=`, or one when it ends in two.
pub open spec fn base64_decode(s: Seq<char>) -> Seq<u8>
    decreases s.len(),
{
    if s.len() < 4 {
        Seq::empty()
    } else {
        let n = base64_value(s[0]) * 262144 + base64_value(s[1]) * 4096 + base64_value(s[2]) * 64
            + base64_value(s[3]);
        let group = if s[2] == '=' {
            seq![(n / 65536) as u8]
        } else if s[3] == '=' {
            seq![(n / 65536) as u8, ((n / 256) % 256) as u8]
        } else {
            seq![(n / 65536) as u8, ((n / 256) % 256) as u8, (n % 256) as u8]
        };
        group + base64_decode(s.subrange(4, s.len() as int))
    }
}

/// Each 6-bit value has a character of the alphabet, which is not the
/// padding and whose value is that 6-bit value.
proof fn lemma_base64_char_not_pad(v: int)
    requires
        0 <= v < 64,
    ensures
        base64_char(v) != '=',
        is_base64_alphabet(base64_char(v)),
        base64_value(base64_char(v)) == v,
{
    let c = base64_char(v);
    if v < 26 {
        assert(c as u32 == 65 + v);
    } else if v < 52 {
        assert(c as u32 == 97 + (v - 26));
    } else if v < 62 {
        assert(c as u32 == 48 + (v - 52));
    }
}

proof fn lemma_group_arith(b0: u8, b1: u8, b2: u8)
    ensures
        ({
            let n = b0 as int * 65536 + b1 as int * 256 + b2 as int;
            let m = (n / 262144) * 262144 + ((n / 4096) % 64) * 4096 + ((n / 64) % 64) * 64 + n
                % 64;
            &&& 0 <= n / 262144 < 64
            &&& m == n
            &&& m / 65536 == b0
            &&& (m / 256) % 256 == b1
            &&& m % 256 == b2
        }),
{
    let n = b0 as int * 65536 + b1 as int * 256 + b2 as int;
    assert(0 <= n < 16777216);
    assert(n == (n / 262144) * 262144 + ((n / 4096) % 64) * 4096 + ((n / 64) % 64) * 64 + n % 64)
        by (nonlinear_arith)
        requires
            0 <= n,
    ;
    assert(n / 65536 == b0 as int) by (nonlinear_arith)
        requires
            n == b0 as int * 65536 + b1 as int * 256 + b2 as int,
            0 <= b1 < 256,
            0 <= b2 < 256,
    ;
    assert((n / 256) % 256 == b1 as int) by (nonlinear_arith)
        requires
            n == b0 as int * 65536 + b1 as int * 256 + b2 as int,
            0 <= b0 < 256,
            0 <= b1 < 256,
            0 <= b2 < 256,
    ;
    assert(n % 256 == b2 as int) by (nonlinear_arith)
        requires
            n == b0 as int * 65536 + b1 as int * 256 + b2 as int,
            0 <= b0 < 256,
            0 <= b1 < 256,
            0 <= b2 < 256,
    ;
    assert(n / 262144 < 64) by (nonlinear_arith)
        requires
            0 <= n < 16777216,
    ;
}

/// Decoding the base64 text of any bytes gives those bytes back.
pub proof fn law_base64_roundtrip(data: Seq<u8>)
    ensures
        base64_decode(base64_standard(data)) == data,
    decreases data.len(),
{
    let r = base64_standard(data);
    if data.len() == 0 {
    } else if data.len() <= 2 {
        let b1: u8 = if data.len() == 2 {
            data[1]
        } else {
            0
        };
        lemma_group_arith(data[0], b1, 0);
        let n = data[0] as int * 65536 + b1 as int * 256;
        lemma_base64_char_not_pad(n / 262144);
        lemma_base64_char_not_pad((n / 4096) % 64);
        lemma_base64_char_not_pad((n / 64) % 64);
        assert(r.subrange(4, r.len() as int) =~= Seq::<char>::empty());
        assert(base64_decode(r.subrange(4, r.len() as int)) =~= Seq::<u8>::empty());
        assert(base64_decode(r) =~= data);
    } else {
        let rest = data.subrange(3, data.len() as int);
        law_base64_roundtrip(rest);
        lemma_group_arith(data[0], data[1], data[2]);
        let n = data[0] as int * 65536 + data[1] as int * 256 + data[2] as int;
        lemma_base64_char_not_pad(n / 262144);
        lemma_base64_char_not_pad((n / 4096) % 64);
        lemma_base64_char_not_pad((n / 64) % 64);
        lemma_base64_char_not_pad(n % 64);
        assert(r.subrange(4, r.len() as int) =~= base64_standard(rest));
        assert(base64_decode(r) =~= data);
    }
}

/// Base64 of a length that leaves two bytes over has `(len + 1) / 3 * 4`
/// characters, of which only the last is padding and all others are in the
/// standard alphabet.
pub proof fn lemma_base64_two_over(data: Seq<u8>)
    requires
        data.len() % 3 == 2,
    ensures
        base64_standard(data).len() == (data.len() + 1) / 3 * 4,
        base64_standard(data).last() == '=',
        forall|i: int|
            0 <= i < base64_standard(data).len() - 1 ==> #[trigger] base64_standard(data)[i]
                != '=',
        forall|i: int|
            0 <= i < base64_standard(data).len() - 1 ==> is_base64_alphabet(
                #[trigger] base64_standard(data)[i],
            ),
    decreases data.len(),
{
    let r = base64_standard(data);
    if data.len() == 2 {
        let n = data[0] as int * 65536 + data[1] as int * 256;
        lemma_base64_char_not_pad(n / 262144);
        lemma_base64_char_not_pad((n / 4096) % 64);
        lemma_base64_char_not_pad((n / 64) % 64);
    } else {
        let n = data[0] as int * 65536 + data[1] as int * 256 + data[2] as int;
        let rest = data.subrange(3, data.len() as int);
        lemma_base64_two_over(rest);
        lemma_base64_char_not_pad(n / 262144);
        lemma_base64_char_not_pad((n / 4096) % 64);
        lemma_base64_char_not_pad((n / 64) % 64);
        lemma_base64_char_not_pad(n % 64);
        assert forall|i: int| 0 <= i < r.len() - 1 implies #[trigger] r[i] != '='
            && is_base64_alphabet(r[i]) by {
            if i >= 4 {
                assert(r[i] == base64_standard(rest)[i - 4]);
            }
        }
    }
}

/// `sha1::Sha1::new`, `update` with `data`, then `digest().bytes()`: the 20
/// bytes of the digest of `data`. The crate counts the input in a `u64` of
/// bits, so `data` stays below 2^61 bytes.
#[verifier::external_body]
fn sha1_bytes(data: &[u8]) -> (d: [u8; 20])
    requires
        data@.len() < 0x2000_0000_0000_0000,
    ensures
        d@ == sha1_digest(data@),
{
    let mut m = sha1::Sha1::new();
    m.update(data);
    m.digest().bytes()
}

/// `<[u8] as rustc_serialize::base64::ToBase64>::to_base64` with the
/// `STANDARD` configuration. The crate sizes its output as
/// `(len + 2) / 3 * 4`, so `len` stays well below `usize::MAX`.
#[verifier::external_body]
fn to_base64_standard(data: &[u8]) -> (s: String)
    requires
        data@.len() <= usize::MAX / 4,
    ensures
        s@ == base64_standard(data@),
{
    data.to_base64(STANDARD)
}

proof fn lemma_encode_utf8_len(s: Seq<char>)
    ensures
        encode_utf8(s).len() <= 4 * s.len(),
    decreases s.len(),
{
    if s.len() > 0 {
        lemma_encode_utf8_len(s.drop_first());
    }
}

/// The accept value for a client key: base64 of SHA-1 of the key's UTF-8
/// bytes followed by those of `MAGIC_WS`.
pub open spec fn accept_key(key: Seq<char>) -> Seq<char> {
    base64_standard(sha1_digest(encode_utf8(key) + encode_utf8(MAGIC_WS@)))
}

/// The bytes of `a` followed by those of `b`.
fn concat_bytes(a: &[u8], b: &[u8]) -> (v: Vec<u8>)
    ensures
        v@ == a@ + b@,
{
    let mut v = vstd::slice::slice_to_vec(a);
    let n = b.len();
    let mut i: usize = 0;
    while i < n
        invariant
            i <= n,
            n == b@.len(),
            v@ == a@ + b@.take(i as int),
        decreases n - i,
    {
        v.push(b[i]);
        proof {
            assert(b@.take(i + 1) =~= b@.take(i as int).push(b@[i as int]));
        }
        i = i + 1;
    }
    proof {
        assert(b@.take(n as int) =~= b@);
    }
    v
}

/// The accept value that answers the client key `key`: 28 characters, of
/// which only the last is the padding `=` and the others are in the standard
/// base64 alphabet; decoding it gives back the SHA-1 digest of the key's
/// bytes followed by those of `MAGIC_WS`.
pub fn gen_key(key: &String) -> (accept: String)
    requires
        key@.len() < 0x0400_0000_0000_0000,
    ensures
        accept@ == accept_key(key@),
        accept@.len() == 28,
        accept@[27] == '=',
        forall|i: int| 0 <= i < 27 ==> accept@[i] != '=',
        forall|i: int| 0 <= i < 27 ==> is_base64_alphabet(#[trigger] accept@[i]),
        base64_decode(accept@) == sha1_digest(encode_utf8(key@) + encode_utf8(MAGIC_WS@)),
{
    proof {
        lemma_encode_utf8_len(key@);
    }
    let key_bytes = key.as_str().as_bytes();
    let magic_bytes = MAGIC_WS.as_bytes();
    assert(magic_bytes@.len() < 0x1000) by {
        reveal_strlit("258EAFA5-E914-47DA-95CA-C5AB0DC85B11");
        lemma_encode_utf8_len(MAGIC_WS@);
    }
    let input = concat_bytes(key_bytes, magic_bytes);
    let buf = sha1_bytes(input.as_slice());
    proof {
        lemma_base64_two_over(buf@);
        law_base64_roundtrip(buf@);
    }
    to_base64_standard(buf.as_slice())
}

/// The accept value of any key decodes, with the standard base64 alphabet,
/// to the SHA-1 digest of the key's bytes followed by the GUID's, and all of
/// its characters but the closing `=` are in that alphabet.
pub proof fn law_accept_key_is_standard_base64(key: Seq<char>)
    requires
        sha1_digest(encode_utf8(key) + encode_utf8(MAGIC_WS@)).len() == 20,
    ensures
        base64_decode(accept_key(key)) == sha1_digest(encode_utf8(key) + encode_utf8(MAGIC_WS@)),
        accept_key(key).len() == 28,
        forall|i: int| 0 <= i < 27 ==> is_base64_alphabet(#[trigger] accept_key(key)[i]),
        accept_key(key)[27] == '=',
{
    let d = sha1_digest(encode_utf8(key) + encode_utf8(MAGIC_WS@));
    law_base64_roundtrip(d);
    lemma_base64_two_over(d);
}

} // verus!
