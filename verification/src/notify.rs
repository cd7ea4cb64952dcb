//! Phone notifications through a Bark endpoint: the request URL, with the
//! title and body percent-encoded.

use vstd::prelude::*;
use vstd::string::StringSliceAdditionalSpecFns;
use crate::text::{owned, push_str, push_char, digit_char, chars_of, string_of};

verus! {

/// An RFC 3986 unreserved byte: ASCII letters, digits, `-`, `_`, `.`, `~`.
pub open spec fn unreserved(b: u8) -> bool {
    (65 <= b <= 90) || (97 <= b <= 122) || (48 <= b <= 57) || b == 45 || b == 95 || b == 46 || b
        == 126
}

/// An upper-case hexadecimal digit.
pub open spec fn upper_hex(d: nat) -> char {
    if d < 10 {
        digit_char(d)
    } else {
        (55 + d) as char
    }
}

/// One byte percent-encoded: unreserved bytes as themselves, others as
/// `%XX`.
pub open spec fn pct_byte(b: u8) -> Seq<char> {
    if unreserved(b) {
        seq![b as char]
    } else {
        seq!['%', upper_hex((b / 16) as nat), upper_hex((b % 16) as nat)]
    }
}

/// Bytes percent-encoded, one after the other.
pub open spec fn pct_bytes(bs: Seq<u8>) -> Seq<char>
    decreases bs.len(),
{
    if bs.len() == 0 {
        Seq::empty()
    } else {
        pct_bytes(bs.drop_last()) + pct_byte(bs.last())
    }
}

/// A text percent-encoded by its UTF-8 bytes.
pub open spec fn pct_encoded(s: Seq<char>) -> Seq<char> {
    pct_bytes(vstd::utf8::encode_utf8(s))
}

fn upper_hex_exec(d: u8) -> (c: char)
    requires
        d < 16,
    ensures
        c == upper_hex(d as nat),
{
    if d < 10 {
        (d + 48) as char
    } else {
        (d + 55) as char
    }
}

/// Percent-encode a text (RFC 3986: everything but unreserved characters
/// becomes `%XX`).
pub fn pct_encode(s: &str) -> (r: String)
    ensures
        r@ == pct_encoded(s@),
{
    let bytes = s.as_bytes();
    let ghost bv = bytes@;
    assert(bv == vstd::utf8::encode_utf8(s@));
    let mut out = String::new();
    let mut i: usize = 0;
    assert(bv.take(0) =~= Seq::<u8>::empty());
    while i < bytes.len()
        invariant
            bv == bytes@,
            i <= bv.len(),
            out@ == pct_bytes(bv.take(i as int)),
        decreases bv.len() - i,
    {
        assert(bv.take(i + 1).drop_last() =~= bv.take(i as int));
        let b = bytes[i];
        let ghost before = out@;
        if (65 <= b && b <= 90) || (97 <= b && b <= 122) || (48 <= b && b <= 57) || b == 45 || b
            == 95 || b == 46 || b == 126 {
            push_char(&mut out, b as char);
        } else {
            push_char(&mut out, '%');
            push_char(&mut out, upper_hex_exec(b / 16));
            push_char(&mut out, upper_hex_exec(b % 16));
        }
        assert(out@ =~= before + pct_byte(b));
        i = i + 1;
    }
    assert(bv.take(i as int) =~= bv);
    out
}

/// The value of a hexadecimal digit (either case), or -1.
pub open spec fn hex_value(c: char) -> int {
    if '0' <= c <= '9' {
        c as int - 48
    } else if 'A' <= c <= 'F' {
        c as int - 55
    } else if 'a' <= c <= 'f' {
        c as int - 87
    } else {
        -1
    }
}

/// Percent-decoding: `%XX` with two hexadecimal digits is the byte `XX`,
/// any other character stands for its own (ASCII) byte.
pub open spec fn pct_decode(cs: Seq<char>) -> Seq<u8>
    decreases cs.len(),
{
    if cs.len() == 0 {
        Seq::empty()
    } else if cs[0] == '%' && cs.len() >= 3 && hex_value(cs[1]) >= 0 && hex_value(cs[2]) >= 0 {
        seq![(hex_value(cs[1]) * 16 + hex_value(cs[2])) as u8] + pct_decode(cs.skip(3))
    } else {
        seq![cs[0] as u8] + pct_decode(cs.skip(1))
    }
}

proof fn lemma_pct_bytes_cons(b: u8, rest: Seq<u8>)
    ensures
        pct_bytes(seq![b] + rest) == pct_byte(b) + pct_bytes(rest),
    decreases rest.len(),
{
    if rest.len() == 0 {
        assert(seq![b] + rest =~= seq![b]);
        assert(seq![b].drop_last() =~= Seq::<u8>::empty());
        assert(pct_byte(b) + pct_bytes(rest) =~= pct_byte(b));
        assert(pct_bytes(seq![b]) =~= pct_bytes(Seq::<u8>::empty()) + pct_byte(b));
    } else {
        lemma_pct_bytes_cons(b, rest.drop_last());
        assert((seq![b] + rest).drop_last() =~= seq![b] + rest.drop_last());
        assert((seq![b] + rest).last() == rest.last());
        assert(pct_bytes(seq![b] + rest) =~= pct_byte(b) + pct_bytes(rest.drop_last()) + pct_byte(rest.last()));
    }
}

proof fn lemma_hex_digit(d: nat)
    requires
        d < 16,
    ensures
        hex_value(upper_hex(d)) == d,
{
    if d < 10 {
        assert(upper_hex(d) == digit_char(d));
    }
}

/// Percent-decoding what `pct_bytes` encoded gives back the bytes.
pub proof fn lemma_pct_round_trip(bs: Seq<u8>)
    ensures
        pct_decode(pct_bytes(bs)) == bs,
    decreases bs.len(),
{
    if bs.len() == 0 {
        assert(pct_bytes(bs) =~= Seq::<char>::empty());
        assert(pct_decode(Seq::<char>::empty()) =~= bs);
    } else {
        let b = bs[0];
        let rest = bs.skip(1);
        assert(bs =~= seq![b] + rest);
        lemma_pct_bytes_cons(b, rest);
        lemma_pct_round_trip(rest);
        let e = pct_byte(b) + pct_bytes(rest);
        if unreserved(b) {
            assert(e[0] == b as char);
            assert(e.skip(1) =~= pct_bytes(rest));
            assert((b as char) as u8 == b);
            assert(pct_decode(e) =~= seq![b] + rest);
        } else {
            lemma_hex_digit((b / 16) as nat);
            lemma_hex_digit((b % 16) as nat);
            assert(e[0] == '%' && e[1] == upper_hex((b / 16) as nat) && e[2] == upper_hex((b % 16) as nat));
            assert(e.skip(3) =~= pct_bytes(rest));
            assert(((b / 16) * 16 + b % 16) as u8 == b);
            assert(pct_decode(e) =~= seq![b] + rest);
        }
    }
}

/// Percent-decoding an encoded text gives back its UTF-8 bytes.
pub proof fn lemma_pct_encoded_decodes(s: Seq<char>)
    ensures
        pct_decode(pct_encoded(s)) == vstd::utf8::encode_utf8(s),
{
    lemma_pct_round_trip(vstd::utf8::encode_utf8(s));
}

/// The text without the trailing characters `c`.
pub open spec fn strip_trailing(s: Seq<char>, c: char) -> Seq<char>
    decreases s.len(),
{
    if s.len() > 0 && s.last() == c {
        strip_trailing(s.drop_last(), c)
    } else {
        s
    }
}

/// The Bark request URL: the endpoint without trailing `/`, then the
/// encoded title and body as path segments.
pub open spec fn bark_request(base: Seq<char>, title: Seq<char>, body: Seq<char>) -> Seq<char> {
    strip_trailing(base, '/') + seq!['/'] + pct_encoded(title) + seq!['/'] + pct_encoded(body)
}

/// The Bark request URL for a notification.
pub fn bark_url(base: &str, title: &str, body: &str) -> (r: String)
    ensures
        r@ == bark_request(base@, title@, body@),
{
    let cs = chars_of(base);
    let mut end = cs.len();
    assert(cs@.take(end as int) =~= cs@);
    while end > 0 && cs[end - 1] == '/'
        invariant
            end <= cs@.len(),
            strip_trailing(base@, '/') == strip_trailing(cs@.take(end as int), '/'),
            cs@ == base@,
        decreases end,
    {
        assert(cs@.take(end as int).drop_last() =~= cs@.take(end - 1));
        end = end - 1;
    }
    proof {
        if end > 0 {
            assert(cs@.take(end as int).last() == cs@[end - 1]);
        }
    }
    let mut r = string_of(&cs, 0, end);
    assert(r@ =~= cs@.take(end as int));
    push_char(&mut r, '/');
    let t = pct_encode(title);
    push_str(&mut r, t.as_str());
    push_char(&mut r, '/');
    let b = pct_encode(body);
    push_str(&mut r, b.as_str());
    r
}

} // verus!
