//! Canonical binary encoding of tokens.
//!
//! A token is a CBOR array `[expire_at, agent, signature]`; the signable
//! payload is the CBOR array `[expire_at, agent]`. Every head uses the
//! shortest form that holds its value, so a logical token has exactly one
//! encoding, and the payload bytes the verifier rebuilds are bit-for-bit the
//! bytes the signer signed. The decoder accepts exactly the canonical
//! encodings.
use vstd::prelude::*;
use vstd::string::StrSliceExecFns;
use vstd::utf8::encode_utf8;
use vstd::utf8::decode_utf8;
use vstd::utf8::valid_utf8;

use crate::DecodeError;
use crate::Token;

verus! {

/// CBOR head for major type `major` carrying the value `v`, in the shortest
/// (canonical) form.
pub open spec fn spec_cbor_head(major: u8, v: u64) -> Seq<u8>
    recommends
        major < 8,
{
    if v < 24 {
        seq![(major * 32 + v) as u8]
    } else if v <= 0xff {
        seq![(major * 32 + 24) as u8, v as u8]
    } else if v <= 0xffff {
        seq![(major * 32 + 25) as u8, (v / 0x100) as u8, (v % 0x100) as u8]
    } else if v <= 0xffff_ffff {
        seq![
            (major * 32 + 26) as u8,
            (v / 0x100_0000) as u8,
            ((v / 0x1_0000) % 0x100) as u8,
            ((v / 0x100) % 0x100) as u8,
            (v % 0x100) as u8,
        ]
    } else {
        seq![
            (major * 32 + 27) as u8,
            (v / 0x100_0000_0000_0000) as u8,
            ((v / 0x1_0000_0000_0000) % 0x100) as u8,
            ((v / 0x100_0000_0000) % 0x100) as u8,
            ((v / 0x1_0000_0000) % 0x100) as u8,
            ((v / 0x100_0000) % 0x100) as u8,
            ((v / 0x1_0000) % 0x100) as u8,
            ((v / 0x100) % 0x100) as u8,
            (v % 0x100) as u8,
        ]
    }
}

/// The signable payload: CBOR `[expire_at, agent]`.
pub open spec fn spec_payload_bytes(expire_at: u64, agent: Seq<char>) -> Seq<u8> {
    seq![0x82u8] + spec_cbor_head(0, expire_at) + spec_cbor_head(
        3,
        encode_utf8(agent).len() as u64,
    ) + encode_utf8(agent)
}

/// The full token record: CBOR `[expire_at, agent, signature]`.
pub open spec fn spec_token_bytes(expire_at: u64, agent: Seq<char>, signature: Seq<u8>) -> Seq<u8> {
    seq![0x83u8] + spec_cbor_head(0, expire_at) + spec_cbor_head(
        3,
        encode_utf8(agent).len() as u64,
    ) + encode_utf8(agent) + spec_cbor_head(2, signature.len() as u64) + signature
}

/// Parse one canonical CBOR head of major type `major` from the front of `s`:
/// the value and the number of bytes the head occupies. `None` when `s` does
/// not start with such a head in shortest form.
#[verifier::opaque]
pub open spec fn spec_parse_head(s: Seq<u8>, major: u8) -> Option<(u64, int)>
    recommends
        major < 8,
{
    if s.len() == 0 || (s[0] as int) / 32 != major as int {
        None
    } else {
        let code = (s[0] as int) % 32;
        if code < 24 {
            Some((code as u64, 1))
        } else if code == 24 {
            if s.len() >= 2 && s[1] >= 24 {
                Some((s[1] as u64, 2))
            } else {
                None
            }
        } else if code == 25 {
            if s.len() >= 3 && (s[1] as int) * 0x100 + (s[2] as int) > 0xff {
                Some((((s[1] as int) * 0x100 + (s[2] as int)) as u64, 3))
            } else {
                None
            }
        } else if code == 26 {
            if s.len() >= 5 && (s[1] as int) * 0x100_0000 + (s[2] as int) * 0x1_0000 + (
            s[3] as int) * 0x100 + (s[4] as int) > 0xffff {
                Some(
                    (
                        ((s[1] as int) * 0x100_0000 + (s[2] as int) * 0x1_0000 + (s[3] as int)
                            * 0x100 + (s[4] as int)) as u64,
                        5,
                    ),
                )
            } else {
                None
            }
        } else if code == 27 {
            if s.len() >= 9 && (s[1] as int) * 0x100_0000_0000_0000 + (s[2] as int)
                * 0x1_0000_0000_0000 + (s[3] as int) * 0x100_0000_0000 + (s[4] as int)
                * 0x1_0000_0000 + (s[5] as int) * 0x100_0000 + (s[6] as int) * 0x1_0000 + (
            s[7] as int) * 0x100 + (s[8] as int) > 0xffff_ffff {
                Some(
                    (
                        ((s[1] as int) * 0x100_0000_0000_0000 + (s[2] as int) * 0x1_0000_0000_0000
                            + (s[3] as int) * 0x100_0000_0000 + (s[4] as int) * 0x1_0000_0000 + (
                        s[5] as int) * 0x100_0000 + (s[6] as int) * 0x1_0000 + (s[7] as int) * 0x100
                            + (s[8] as int)) as u64,
                        9,
                    ),
                )
            } else {
                None
            }
        } else {
            None
        }
    }
}

/// Parse a whole canonical token record: `None` unless `data` is exactly the
/// canonical CBOR `[expire_at, agent, signature]` with `agent` valid UTF-8.
pub open spec fn spec_decode_token(data: Seq<u8>) -> Option<(u64, Seq<char>, Seq<u8>)> {
    if data.len() == 0 || data[0] != 0x83u8 {
        None
    } else {
        let s1 = data.skip(1);
        match spec_parse_head(s1, 0) {
            None => None,
            Some((expire_at, n1)) => {
                let s2 = s1.skip(n1);
                match spec_parse_head(s2, 3) {
                    None => None,
                    Some((text_len, n2)) => {
                        if s2.len() - n2 < text_len {
                            None
                        } else {
                            let agent_bytes = s2.subrange(n2, n2 + text_len);
                            if !valid_utf8(agent_bytes) {
                                None
                            } else {
                                let s3 = s2.skip(n2 + text_len);
                                match spec_parse_head(s3, 2) {
                                    None => None,
                                    Some((sig_len, n3)) => {
                                        if s3.len() != n3 + sig_len {
                                            None
                                        } else {
                                            Some(
                                                (
                                                    expire_at,
                                                    decode_utf8(agent_bytes),
                                                    s3.skip(n3),
                                                ),
                                            )
                                        }
                                    },
                                }
                            }
                        }
                    },
                }
            },
        }
    }
}

/// Recompose a `u64` from the big-endian bytes that `spec_cbor_head` splits
/// it into.
proof fn lemma_u64_bytes_recompose(v: u64)
    ensures
        (v as int) == ((v / 0x100_0000_0000_0000) as int) * 0x100_0000_0000_0000 + (((v
            / 0x1_0000_0000_0000) % 0x100) as int) * 0x1_0000_0000_0000 + (((v / 0x100_0000_0000)
            % 0x100) as int) * 0x100_0000_0000 + (((v / 0x1_0000_0000) % 0x100) as int)
            * 0x1_0000_0000 + (((v / 0x100_0000) % 0x100) as int) * 0x100_0000 + (((v / 0x1_0000)
            % 0x100) as int) * 0x1_0000 + (((v / 0x100) % 0x100) as int) * 0x100 + ((v
            % 0x100) as int),
        v / 0x100_0000_0000_0000 <= 0xff,
{
    let x = v as int;
    vstd::arithmetic::div_mod::lemma_fundamental_div_mod(x, 0x100);
    vstd::arithmetic::div_mod::lemma_fundamental_div_mod(x / 0x100, 0x100);
    vstd::arithmetic::div_mod::lemma_div_denominator(x, 0x100, 0x100);
    vstd::arithmetic::div_mod::lemma_fundamental_div_mod(x / 0x1_0000, 0x100);
    vstd::arithmetic::div_mod::lemma_div_denominator(x, 0x1_0000, 0x100);
    vstd::arithmetic::div_mod::lemma_fundamental_div_mod(x / 0x100_0000, 0x100);
    vstd::arithmetic::div_mod::lemma_div_denominator(x, 0x100_0000, 0x100);
    vstd::arithmetic::div_mod::lemma_fundamental_div_mod(x / 0x1_0000_0000, 0x100);
    vstd::arithmetic::div_mod::lemma_div_denominator(x, 0x1_0000_0000, 0x100);
    vstd::arithmetic::div_mod::lemma_fundamental_div_mod(x / 0x100_0000_0000, 0x100);
    vstd::arithmetic::div_mod::lemma_div_denominator(x, 0x100_0000_0000, 0x100);
    vstd::arithmetic::div_mod::lemma_fundamental_div_mod(x / 0x1_0000_0000_0000, 0x100);
    vstd::arithmetic::div_mod::lemma_div_denominator(x, 0x1_0000_0000_0000, 0x100);
    vstd::arithmetic::div_mod::lemma_fundamental_div_mod(x / 0x100_0000_0000_0000, 0x100);
}

/// Recompose a `u64` below `0x1_0000_0000` from the four big-endian bytes
/// that `spec_cbor_head` splits it into.
proof fn lemma_u32_bytes_recompose(v: u64)
    requires
        v <= 0xffff_ffff,
    ensures
        (v as int) == ((v / 0x100_0000) as int) * 0x100_0000 + (((v / 0x1_0000) % 0x100) as int)
            * 0x1_0000 + (((v / 0x100) % 0x100) as int) * 0x100 + ((v % 0x100) as int),
        v / 0x100_0000 <= 0xff,
{
    let x = v as int;
    vstd::arithmetic::div_mod::lemma_fundamental_div_mod(x, 0x100);
    vstd::arithmetic::div_mod::lemma_fundamental_div_mod(x / 0x100, 0x100);
    vstd::arithmetic::div_mod::lemma_div_denominator(x, 0x100, 0x100);
    vstd::arithmetic::div_mod::lemma_fundamental_div_mod(x / 0x1_0000, 0x100);
    vstd::arithmetic::div_mod::lemma_div_denominator(x, 0x1_0000, 0x100);
    vstd::arithmetic::div_mod::lemma_fundamental_div_mod(x / 0x100_0000, 0x100);
}

/// A canonical head followed by anything parses back to exactly the value it
/// encodes, consuming exactly the head.
pub proof fn lemma_parse_head_round_trip(major: u8, v: u64, rest: Seq<u8>)
    requires
        major < 8,
    ensures
        spec_parse_head(spec_cbor_head(major, v) + rest, major) == Some(
            (v, spec_cbor_head(major, v).len() as int),
        ),
{
    reveal(spec_parse_head);
    let h = spec_cbor_head(major, v);
    let s = h + rest;
    if v < 24 {
        assert(s[0] == (major * 32 + v) as u8);
    } else if v <= 0xff {
        assert(s[0] == (major * 32 + 24) as u8 && s[1] == v as u8);
    } else if v <= 0xffff {
        vstd::arithmetic::div_mod::lemma_fundamental_div_mod(v as int, 0x100);
        assert(s[0] == (major * 32 + 25) as u8);
        assert(s[1] == (v / 0x100) as u8 && s[2] == (v % 0x100) as u8);
        assert(v / 0x100 <= 0xff);
    } else if v <= 0xffff_ffff {
        lemma_u32_bytes_recompose(v);
        assert(s[0] == (major * 32 + 26) as u8);
        assert(s[1] == (v / 0x100_0000) as u8 && s[2] == ((v / 0x1_0000) % 0x100) as u8 && s[3]
            == ((v / 0x100) % 0x100) as u8 && s[4] == (v % 0x100) as u8);
    } else {
        lemma_u64_bytes_recompose(v);
        assert(s[0] == (major * 32 + 27) as u8);
        assert(s[1] == (v / 0x100_0000_0000_0000) as u8 && s[2] == ((v / 0x1_0000_0000_0000)
            % 0x100) as u8 && s[3] == ((v / 0x100_0000_0000) % 0x100) as u8 && s[4] == ((v
            / 0x1_0000_0000) % 0x100) as u8 && s[5] == ((v / 0x100_0000) % 0x100) as u8 && s[6]
            == ((v / 0x1_0000) % 0x100) as u8 && s[7] == ((v / 0x100) % 0x100) as u8 && s[8] == (v
            % 0x100) as u8);
    }
}

/// A successful head parse consumes exactly the canonical head of the value
/// it returns: the parser accepts no other byte form for that value.
pub proof fn lemma_parse_head_sound(s: Seq<u8>, major: u8)
    requires
        major < 8,
        spec_parse_head(s, major) is Some,
    ensures
        ({
            let (v, n) = spec_parse_head(s, major)->0;
            1 <= n <= s.len() && s.take(n) == spec_cbor_head(major, v)
        }),
{
    reveal(spec_parse_head);
    let (v, n) = spec_parse_head(s, major)->0;
    let code = (s[0] as int) % 32;
    vstd::arithmetic::div_mod::lemma_fundamental_div_mod(s[0] as int, 32);
    assert(s[0] as int == (major as int) * 32 + code);
    if code < 24 {
        assert(s.take(n) =~= spec_cbor_head(major, v));
    } else if code == 24 {
        assert(s.take(n) =~= spec_cbor_head(major, v));
    } else if code == 25 {
        let b1 = s[1] as int;
        let b2 = s[2] as int;
        vstd::arithmetic::div_mod::lemma_fundamental_div_mod_converse(v as int, 0x100, b1, b2);
        assert(s.take(n) =~= spec_cbor_head(major, v));
    } else if code == 26 {
        let b1 = s[1] as int;
        let b2 = s[2] as int;
        let b3 = s[3] as int;
        let b4 = s[4] as int;
        let x = v as int;
        vstd::arithmetic::div_mod::lemma_fundamental_div_mod_converse(
            x,
            0x100_0000,
            b1,
            b2 * 0x1_0000 + b3 * 0x100 + b4,
        );
        vstd::arithmetic::div_mod::lemma_fundamental_div_mod_converse(
            x,
            0x1_0000,
            b1 * 0x100 + b2,
            b3 * 0x100 + b4,
        );
        vstd::arithmetic::div_mod::lemma_fundamental_div_mod_converse(
            x,
            0x100,
            b1 * 0x1_0000 + b2 * 0x100 + b3,
            b4,
        );
        vstd::arithmetic::div_mod::lemma_fundamental_div_mod_converse(b1 * 0x100 + b2, 0x100, b1, b2);
        vstd::arithmetic::div_mod::lemma_fundamental_div_mod_converse(
            b1 * 0x1_0000 + b2 * 0x100 + b3,
            0x100,
            b1 * 0x100 + b2,
            b3,
        );
        assert(s.take(n) =~= spec_cbor_head(major, v));
    } else {
        let b1 = s[1] as int;
        let b2 = s[2] as int;
        let b3 = s[3] as int;
        let b4 = s[4] as int;
        let b5 = s[5] as int;
        let b6 = s[6] as int;
        let b7 = s[7] as int;
        let b8 = s[8] as int;
        let x = v as int;
        let q1 = b1;
        let q2 = b1 * 0x100 + b2;
        let q3 = q2 * 0x100 + b3;
        let q4 = q3 * 0x100 + b4;
        let q5 = q4 * 0x100 + b5;
        let q6 = q5 * 0x100 + b6;
        let q7 = q6 * 0x100 + b7;
        vstd::arithmetic::div_mod::lemma_fundamental_div_mod_converse(
            x,
            0x100_0000_0000_0000,
            q1,
            b2 * 0x1_0000_0000_0000 + b3 * 0x100_0000_0000 + b4 * 0x1_0000_0000 + b5 * 0x100_0000
                + b6 * 0x1_0000 + b7 * 0x100 + b8,
        );
        vstd::arithmetic::div_mod::lemma_fundamental_div_mod_converse(
            x,
            0x1_0000_0000_0000,
            q2,
            b3 * 0x100_0000_0000 + b4 * 0x1_0000_0000 + b5 * 0x100_0000 + b6 * 0x1_0000 + b7
                * 0x100 + b8,
        );
        vstd::arithmetic::div_mod::lemma_fundamental_div_mod_converse(
            x,
            0x100_0000_0000,
            q3,
            b4 * 0x1_0000_0000 + b5 * 0x100_0000 + b6 * 0x1_0000 + b7 * 0x100 + b8,
        );
        vstd::arithmetic::div_mod::lemma_fundamental_div_mod_converse(
            x,
            0x1_0000_0000,
            q4,
            b5 * 0x100_0000 + b6 * 0x1_0000 + b7 * 0x100 + b8,
        );
        vstd::arithmetic::div_mod::lemma_fundamental_div_mod_converse(
            x,
            0x100_0000,
            q5,
            b6 * 0x1_0000 + b7 * 0x100 + b8,
        );
        vstd::arithmetic::div_mod::lemma_fundamental_div_mod_converse(
            x,
            0x1_0000,
            q6,
            b7 * 0x100 + b8,
        );
        vstd::arithmetic::div_mod::lemma_fundamental_div_mod_converse(x, 0x100, q7, b8);
        vstd::arithmetic::div_mod::lemma_fundamental_div_mod_converse(q2, 0x100, q1, b2);
        vstd::arithmetic::div_mod::lemma_fundamental_div_mod_converse(q3, 0x100, q2, b3);
        vstd::arithmetic::div_mod::lemma_fundamental_div_mod_converse(q4, 0x100, q3, b4);
        vstd::arithmetic::div_mod::lemma_fundamental_div_mod_converse(q5, 0x100, q4, b5);
        vstd::arithmetic::div_mod::lemma_fundamental_div_mod_converse(q6, 0x100, q5, b6);
        vstd::arithmetic::div_mod::lemma_fundamental_div_mod_converse(q7, 0x100, q6, b7);
        assert(s.take(n) =~= spec_cbor_head(major, v));
    }
}

/// Decoding succeeds only on the exact canonical encoding of the token it
/// returns: every other byte string is rejected or yields a different token.
#[verifier::rlimit(100)]
pub proof fn lemma_decode_token_sound(data: Seq<u8>)
    requires
        spec_decode_token(data) is Some,
    ensures
        ({
            let (expire_at, agent, signature) = spec_decode_token(data)->0;
            data == spec_token_bytes(expire_at, agent, signature)
        }),
{
    broadcast use vstd::utf8::decode_utf8_encode_utf8;

    let (expire_at, agent, signature) = spec_decode_token(data)->0;
    let s1 = data.skip(1);
    let (e, n1) = spec_parse_head(s1, 0)->0;
    lemma_parse_head_sound(s1, 0);
    let s2 = s1.skip(n1);
    let (text_len, n2) = spec_parse_head(s2, 3)->0;
    lemma_parse_head_sound(s2, 3);
    let agent_bytes = s2.subrange(n2, n2 + text_len);
    let s3 = s2.skip(n2 + text_len);
    let (sig_len, n3) = spec_parse_head(s3, 2)->0;
    lemma_parse_head_sound(s3, 2);
    assert(signature =~= s3.skip(n3));
    assert(encode_utf8(agent) == agent_bytes);
    assert(agent_bytes.len() == text_len && signature.len() == sig_len);
    assert(data == spec_token_bytes(expire_at, agent, signature)) by {
        assert(s3 =~= s3.take(n3) + s3.skip(n3));
        assert(s2 =~= s2.take(n2) + agent_bytes + s3);
        assert(s1 =~= s1.take(n1) + s2);
        assert(data =~= seq![data[0]] + s1);
        assert(data =~= seq![0x83u8] + s1.take(n1) + s2.take(n2) + agent_bytes + s3.take(n3)
            + s3.skip(n3));
    }
}

/// Append every byte of `v` to `buf`.
fn push_all(buf: &mut Vec<u8>, v: &Vec<u8>)
    ensures
        final(buf)@ == old(buf)@ + v@,
{
    let mut i: usize = 0;
    while i < v.len()
        invariant
            i <= v@.len(),
            buf@ == old(buf)@ + v@.take(i as int),
        decreases v@.len() - i,
    {
        buf.push(v[i]);
        assert(buf@ == old(buf)@ + v@.take(i + 1)) by {
            assert(v@.take(i as int).push(v@[i as int]) =~= v@.take(i + 1));
        }
        i += 1;
    }
    assert(v@.take(v@.len() as int) =~= v@);
}

/// Append the canonical CBOR head for `(major, v)` to `buf`.
fn push_head(buf: &mut Vec<u8>, major: u8, v: u64)
    requires
        major < 8,
    ensures
        final(buf)@ == old(buf)@ + spec_cbor_head(major, v),
{
    let base: u8 = major * 32;
    if v < 24 {
        buf.push(base + (v as u8));
        assert(buf@ =~= old(buf)@ + spec_cbor_head(major, v));
    } else if v <= 0xff {
        buf.push(base + 24);
        buf.push(v as u8);
        assert(buf@ =~= old(buf)@ + spec_cbor_head(major, v));
    } else if v <= 0xffff {
        buf.push(base + 25);
        buf.push((v / 0x100) as u8);
        buf.push((v % 0x100) as u8);
        assert(buf@ =~= old(buf)@ + spec_cbor_head(major, v));
    } else if v <= 0xffff_ffff {
        buf.push(base + 26);
        buf.push((v / 0x100_0000) as u8);
        buf.push(((v / 0x1_0000) % 0x100) as u8);
        buf.push(((v / 0x100) % 0x100) as u8);
        buf.push((v % 0x100) as u8);
        assert(buf@ =~= old(buf)@ + spec_cbor_head(major, v));
    } else {
        buf.push(base + 27);
        buf.push((v / 0x100_0000_0000_0000) as u8);
        buf.push(((v / 0x1_0000_0000_0000) % 0x100) as u8);
        buf.push(((v / 0x100_0000_0000) % 0x100) as u8);
        buf.push(((v / 0x1_0000_0000) % 0x100) as u8);
        buf.push(((v / 0x100_0000) % 0x100) as u8);
        buf.push(((v / 0x1_0000) % 0x100) as u8);
        buf.push(((v / 0x100) % 0x100) as u8);
        buf.push((v % 0x100) as u8);
        assert(buf@ =~= old(buf)@ + spec_cbor_head(major, v));
    }
}

/// Parse one canonical CBOR head of major type `major` at `pos`: the value
/// and the number of bytes consumed.
fn parse_head(data: &[u8], pos: usize, major: u8) -> (r: Option<(u64, usize)>)
    requires
        pos <= data@.len(),
        major < 8,
    ensures
        match spec_parse_head(data@.skip(pos as int), major) {
            Some((v, n)) => r is Some && r.unwrap().0 == v && r.unwrap().1 as int == n && pos + n
                <= data@.len(),
            None => r is None,
        },
{
    proof {
        reveal(spec_parse_head);
    }
    let ghost s = data@.skip(pos as int);
    if pos >= data.len() {
        return None;
    }
    let b = data[pos];
    assert(s[0] == data@[pos as int]);
    if b / 32 != major {
        return None;
    }
    let code = b % 32;
    if code < 24 {
        Some((code as u64, 1))
    } else if code == 24 {
        if data.len() - pos >= 2 && data[pos + 1] >= 24 {
            assert(s[1] == data@[pos + 1]);
            Some((data[pos + 1] as u64, 2))
        } else {
            assert(data@.len() - pos >= 2 ==> s[1] == data@[pos + 1]);
            None
        }
    } else if code == 25 {
        if data.len() - pos >= 3 {
            assert(s[1] == data@[pos + 1] && s[2] == data@[pos + 2]);
            let v = (data[pos + 1] as u64) * 0x100 + (data[pos + 2] as u64);
            if v > 0xff {
                Some((v, 3))
            } else {
                None
            }
        } else {
            None
        }
    } else if code == 26 {
        if data.len() - pos >= 5 {
            assert(s[1] == data@[pos + 1] && s[2] == data@[pos + 2] && s[3] == data@[pos + 3] && s[4]
                == data@[pos + 4]);
            let v = (data[pos + 1] as u64) * 0x100_0000 + (data[pos + 2] as u64) * 0x1_0000 + (
            data[pos + 3] as u64) * 0x100 + (data[pos + 4] as u64);
            if v > 0xffff {
                Some((v, 5))
            } else {
                None
            }
        } else {
            None
        }
    } else if code == 27 {
        if data.len() - pos >= 9 {
            assert(s[1] == data@[pos + 1] && s[2] == data@[pos + 2] && s[3] == data@[pos + 3] && s[4]
                == data@[pos + 4] && s[5] == data@[pos + 5] && s[6] == data@[pos + 6] && s[7]
                == data@[pos + 7] && s[8] == data@[pos + 8]);
            let v = (data[pos + 1] as u64) * 0x100_0000_0000_0000 + (data[pos + 2] as u64)
                * 0x1_0000_0000_0000 + (data[pos + 3] as u64) * 0x100_0000_0000 + (data[pos
                + 4] as u64) * 0x1_0000_0000 + (data[pos + 5] as u64) * 0x100_0000 + (data[pos
                + 6] as u64) * 0x1_0000 + (data[pos + 7] as u64) * 0x100 + (data[pos + 8] as u64);
            if v > 0xffff_ffff {
                Some((v, 9))
            } else {
                None
            }
        } else {
            None
        }
    } else {
        None
    }
}

/// Copy `data[a..b]` into a fresh vector.
pub(crate) fn copy_range(data: &[u8], a: usize, b: usize) -> (r: Vec<u8>)
    requires
        a <= b <= data@.len(),
    ensures
        r@ == data@.subrange(a as int, b as int),
{
    let mut out: Vec<u8> = Vec::new();
    let mut i: usize = a;
    while i < b
        invariant
            a <= i <= b <= data@.len(),
            out@ == data@.subrange(a as int, i as int),
        decreases b - i,
    {
        out.push(data[i]);
        assert(data@.subrange(a as int, i as int).push(data@[i as int]) =~= data@.subrange(
            a as int,
            i + 1,
        ));
        i += 1;
    }
    out
}

/// Relies on `String::from_utf8`: it succeeds exactly on valid UTF-8 input,
/// and returns the string those bytes encode.
#[verifier::external_body]
fn string_from_utf8(bytes: Vec<u8>) -> (r: Option<String>)
    ensures
        r is Some <==> valid_utf8(bytes@),
        r is Some ==> r.unwrap()@ == decode_utf8(bytes@),
{
    String::from_utf8(bytes).ok()
}

/// Decode a canonical token record; fails on anything that is not exactly the
/// canonical encoding of some token.
#[verifier::rlimit(100)]
pub fn decode_token(data: &[u8]) -> (r: Result<Token, DecodeError>)
    ensures
        match spec_decode_token(data@) {
            Some(t) => r is Ok && r.unwrap()@ == t,
            None => r is Err,
        },
{
    if data.len() == 0 || data[0] != 0x83 {
        return Err(DecodeError);
    }
    let ghost s1 = data@.skip(1);
    let (expire_at, n1) = match parse_head(data, 1, 0) {
        Some(x) => x,
        None => {
            return Err(DecodeError);
        },
    };
    let pos1 = 1 + n1;
    let ghost s2 = s1.skip(n1 as int);
    assert(s2 =~= data@.skip(pos1 as int));
    let (text_len64, n2) = match parse_head(data, pos1, 3) {
        Some(x) => x,
        None => {
            return Err(DecodeError);
        },
    };
    let pos2 = pos1 + n2;
    if text_len64 > (data.len() - pos2) as u64 {
        return Err(DecodeError);
    }
    let text_len = text_len64 as usize;
    let agent_bytes = copy_range(data, pos2, pos2 + text_len);
    assert(agent_bytes@ =~= s2.subrange(n2 as int, n2 + text_len64));
    let agent = match string_from_utf8(agent_bytes) {
        Some(a) => a,
        None => {
            return Err(DecodeError);
        },
    };
    let pos3 = pos2 + text_len;
    let ghost s3 = s2.skip(n2 + text_len64);
    assert(s3 =~= data@.skip(pos3 as int));
    let (sig_len64, n3) = match parse_head(data, pos3, 2) {
        Some(x) => x,
        None => {
            return Err(DecodeError);
        },
    };
    let pos4 = pos3 + n3;
    if sig_len64 != (data.len() - pos4) as u64 {
        return Err(DecodeError);
    }
    let signature = copy_range(data, pos4, data.len());
    assert(signature@ =~= s3.skip(n3 as int));
    Ok(Token(expire_at, agent, signature))
}

/// The canonical encoding of a token decodes back to exactly that token: the
/// codec round-trip law.
#[verifier::rlimit(100)]
pub proof fn lemma_decode_token_bytes(expire_at: u64, agent: Seq<char>, signature: Seq<u8>)
    requires
        encode_utf8(agent).len() <= u64::MAX,
        signature.len() <= u64::MAX,
    ensures
        spec_decode_token(spec_token_bytes(expire_at, agent, signature)) == Some(
            (expire_at, agent, signature),
        ),
{
    broadcast use vstd::utf8::encode_utf8_valid_utf8;
    broadcast use vstd::utf8::encode_utf8_decode_utf8;

    let ab = encode_utf8(agent);
    let h0 = spec_cbor_head(0, expire_at);
    let h3 = spec_cbor_head(3, ab.len() as u64);
    let h2 = spec_cbor_head(2, signature.len() as u64);
    let data = spec_token_bytes(expire_at, agent, signature);
    assert(data[0] == 0x83u8);
    let s1 = data.skip(1);
    assert(s1 =~= h0 + (h3 + ab + h2 + signature));
    lemma_parse_head_round_trip(0, expire_at, h3 + ab + h2 + signature);
    let n1 = h0.len() as int;
    let s2 = s1.skip(n1);
    assert(s2 =~= h3 + (ab + h2 + signature));
    lemma_parse_head_round_trip(3, ab.len() as u64, ab + h2 + signature);
    let n2 = h3.len() as int;
    assert(s2.len() - n2 >= ab.len());
    assert(s2.subrange(n2, n2 + ab.len()) =~= ab);
    let s3 = s2.skip(n2 + ab.len());
    assert(s3 =~= h2 + signature);
    lemma_parse_head_round_trip(2, signature.len() as u64, signature);
    let n3 = h2.len() as int;
    assert(s3.len() == n3 + signature.len());
    assert(s3.skip(n3) =~= signature);
}

/// Two different tokens never share an encoding: the canonical format is
/// injective in all three fields.
pub proof fn lemma_token_bytes_injective(
    e1: u64,
    a1: Seq<char>,
    s1: Seq<u8>,
    e2: u64,
    a2: Seq<char>,
    s2: Seq<u8>,
)
    requires
        encode_utf8(a1).len() <= u64::MAX,
        s1.len() <= u64::MAX,
        encode_utf8(a2).len() <= u64::MAX,
        s2.len() <= u64::MAX,
        spec_token_bytes(e1, a1, s1) == spec_token_bytes(e2, a2, s2),
    ensures
        e1 == e2 && a1 == a2 && s1 == s2,
{
    lemma_decode_token_bytes(e1, a1, s1);
    lemma_decode_token_bytes(e2, a2, s2);
}

/// Encode the signable payload `[expire_at, agent]`.
pub fn encode_payload(expire_at: u64, agent: &String) -> (r: Vec<u8>)
    ensures
        r@ == spec_payload_bytes(expire_at, agent@),
{
    let mut buf: Vec<u8> = Vec::new();
    buf.push(0x82);
    push_head(&mut buf, 0, expire_at);
    let agent_bytes = agent.as_str().as_bytes_vec();
    push_head(&mut buf, 3, agent_bytes.len() as u64);
    push_all(&mut buf, &agent_bytes);
    assert(buf@ =~= spec_payload_bytes(expire_at, agent@));
    buf
}

/// Encode the full token record `[expire_at, agent, signature]`.
pub fn encode_token(expire_at: u64, agent: &String, signature: &Vec<u8>) -> (r: Vec<u8>)
    ensures
        r@ == spec_token_bytes(expire_at, agent@, signature@),
{
    let mut buf: Vec<u8> = Vec::new();
    buf.push(0x83);
    push_head(&mut buf, 0, expire_at);
    let agent_bytes = agent.as_str().as_bytes_vec();
    push_head(&mut buf, 3, agent_bytes.len() as u64);
    push_all(&mut buf, &agent_bytes);
    push_head(&mut buf, 2, signature.len() as u64);
    push_all(&mut buf, signature);
    assert(buf@ =~= spec_token_bytes(expire_at, agent@, signature@));
    buf
}

} // verus!
