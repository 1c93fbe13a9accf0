//! Base64url codec (URL-safe alphabet, no padding), as used for the
//! segments of a compact signed assertion.

use vstd::prelude::*;

verus! {

/// Maps a six-bit value to its byte in the URL-safe base64 alphabet.
pub open spec fn b64_char(v: u8) -> u8
    recommends
        v < 64,
{
    if v < 26 {
        (65 + v) as u8  // 'A'..='Z'
    } else if v < 52 {
        (97 + (v - 26)) as u8  // 'a'..='z'
    } else if v < 62 {
        (48 + (v - 52)) as u8  // '0'..='9'
    } else if v == 62 {
        45u8  // '-'
    } else {
        95u8  // '_'
    }
}

/// Maps an alphabet byte back to its six-bit value; `None` outside the alphabet.
pub open spec fn b64_val(c: u8) -> Option<u8> {
    if 65 <= c && c <= 90 {
        Some((c - 65) as u8)
    } else if 97 <= c && c <= 122 {
        Some((c - 97 + 26) as u8)
    } else if 48 <= c && c <= 57 {
        Some((c - 48 + 52) as u8)
    } else if c == 45 {
        Some(62u8)
    } else if c == 95 {
        Some(63u8)
    } else {
        None
    }
}

/// Base64url encoding without padding: each full group of three bytes
/// becomes four alphabet bytes; a final group of one or two bytes becomes
/// two or three, with the unused trailing bits zero.
pub open spec fn b64url_encode(s: Seq<u8>) -> Seq<u8>
    decreases s.len(),
{
    if s.len() == 0 {
        seq![]
    } else if s.len() == 1 {
        let b0 = s[0];
        seq![b64_char(b0 >> 2), b64_char((b0 & 3) << 4)]
    } else if s.len() == 2 {
        let b0 = s[0];
        let b1 = s[1];
        seq![
            b64_char(b0 >> 2),
            b64_char(((b0 & 3) << 4) | (b1 >> 4)),
            b64_char((b1 & 15) << 2),
        ]
    } else {
        let b0 = s[0];
        let b1 = s[1];
        let b2 = s[2];
        seq![
            b64_char(b0 >> 2),
            b64_char(((b0 & 3) << 4) | (b1 >> 4)),
            b64_char(((b1 & 15) << 2) | (b2 >> 6)),
            b64_char(b2 & 63),
        ] + b64url_encode(s.skip(3))
    }
}

/// Strict base64url decoding: rejects bytes outside the alphabet, a length
/// of one modulo four, and non-canonical trailing bits.
pub open spec fn b64url_decode(s: Seq<u8>) -> Option<Seq<u8>>
    decreases s.len(),
{
    if s.len() == 0 {
        Some(seq![])
    } else if s.len() == 1 {
        None
    } else if s.len() == 2 {
        match (b64_val(s[0]), b64_val(s[1])) {
            (Some(v0), Some(v1)) => if v1 & 15 == 0 {
                Some(seq![(v0 << 2) | (v1 >> 4)])
            } else {
                None
            },
            _ => None,
        }
    } else if s.len() == 3 {
        match (b64_val(s[0]), b64_val(s[1]), b64_val(s[2])) {
            (Some(v0), Some(v1), Some(v2)) => if v2 & 3 == 0 {
                Some(seq![(v0 << 2) | (v1 >> 4), ((v1 & 15) << 4) | (v2 >> 2)])
            } else {
                None
            },
            _ => None,
        }
    } else {
        match (b64_val(s[0]), b64_val(s[1]), b64_val(s[2]), b64_val(s[3])) {
            (Some(v0), Some(v1), Some(v2), Some(v3)) => match b64url_decode(s.skip(4)) {
                Some(rest) => Some(
                    seq![
                        (v0 << 2) | (v1 >> 4),
                        ((v1 & 15) << 4) | (v2 >> 2),
                        ((v2 & 3) << 6) | v3,
                    ] + rest,
                ),
                None => None,
            },
            _ => None,
        }
    }
}

/// The alphabet is invertible.
proof fn lemma_b64_char_val(v: u8)
    requires
        v < 64,
    ensures
        b64_val(b64_char(v)) == Some(v),
{
}

/// Alphabet bytes are ASCII and are never an ASCII dot.
proof fn lemma_b64_char_ascii(v: u8)
    ensures
        b64_char(v) < 0x80,
        b64_char(v) != 46,
{
}

/// Every byte of an encoding lies in the ASCII range, and none is a dot,
/// so the dots of a compact assertion cannot occur inside a segment.
pub proof fn lemma_b64url_encode_ascii(s: Seq<u8>)
    ensures
        forall|i: int| 0 <= i < b64url_encode(s).len() ==> #[trigger] b64url_encode(s)[i] < 0x80,
        forall|i: int| 0 <= i < b64url_encode(s).len() ==> #[trigger] b64url_encode(s)[i] != 46,
    decreases s.len(),
{
    let e = b64url_encode(s);
    if s.len() == 0 {
    } else if s.len() == 1 {
        lemma_b64_char_ascii(s[0] >> 2);
        lemma_b64_char_ascii((s[0] & 3) << 4);
    } else if s.len() == 2 {
        lemma_b64_char_ascii(s[0] >> 2);
        lemma_b64_char_ascii(((s[0] & 3) << 4) | (s[1] >> 4));
        lemma_b64_char_ascii((s[1] & 15) << 2);
    } else {
        lemma_b64url_encode_ascii(s.skip(3));
        lemma_b64_char_ascii(s[0] >> 2);
        lemma_b64_char_ascii(((s[0] & 3) << 4) | (s[1] >> 4));
        lemma_b64_char_ascii(((s[1] & 15) << 2) | (s[2] >> 6));
        lemma_b64_char_ascii(s[2] & 63);
        let rest = b64url_encode(s.skip(3));
        assert forall|i: int| 0 <= i < e.len() implies #[trigger] e[i] < 0x80 && #[trigger] e[i]
            != 46 by {
            if i >= 4 {
                assert(e[i] == rest[i - 4]);
            }
        }
    }
}

/// Decoding undoes encoding: the codec is lossless and the encoding canonical.
pub proof fn lemma_b64url_round_trip(s: Seq<u8>)
    ensures
        b64url_decode(b64url_encode(s)) == Some(s),
    decreases s.len(),
{
    let e = b64url_encode(s);
    if s.len() == 0 {
    } else if s.len() == 1 {
        let b0 = s[0];
        assert((b0 >> 2) < 64 && ((b0 & 3) << 4) < 64 && (((b0 & 3) << 4) & 15) == 0
            && (((b0 >> 2) << 2) | (((b0 & 3) << 4) >> 4)) == b0) by (bit_vector);
        lemma_b64_char_val(b0 >> 2);
        lemma_b64_char_val((b0 & 3) << 4);
        assert(b64url_decode(e).unwrap() =~= s);
    } else if s.len() == 2 {
        let b0 = s[0];
        let b1 = s[1];
        assert((b0 >> 2) < 64 && (((b0 & 3) << 4) | (b1 >> 4)) < 64 && ((b1 & 15) << 2) < 64
            && (((b1 & 15) << 2) & 3) == 0
            && (((b0 >> 2) << 2) | ((((b0 & 3) << 4) | (b1 >> 4)) >> 4)) == b0
            && ((((((b0 & 3) << 4) | (b1 >> 4)) & 15) << 4) | (((b1 & 15) << 2) >> 2)) == b1)
            by (bit_vector);
        lemma_b64_char_val(b0 >> 2);
        lemma_b64_char_val(((b0 & 3) << 4) | (b1 >> 4));
        lemma_b64_char_val((b1 & 15) << 2);
        assert(b64url_decode(e).unwrap() =~= s);
    } else {
        let b0 = s[0];
        let b1 = s[1];
        let b2 = s[2];
        assert((b0 >> 2) < 64 && (((b0 & 3) << 4) | (b1 >> 4)) < 64
            && ((((b1 & 15) << 2) | (b2 >> 6))) < 64 && (b2 & 63) < 64
            && (((b0 >> 2) << 2) | ((((b0 & 3) << 4) | (b1 >> 4)) >> 4)) == b0
            && ((((((b0 & 3) << 4) | (b1 >> 4)) & 15) << 4) | ((((b1 & 15) << 2) | (b2 >> 6)) >> 2))
                == b1
            && ((((((b1 & 15) << 2) | (b2 >> 6)) & 3) << 6) | (b2 & 63)) == b2) by (bit_vector);
        lemma_b64_char_val(b0 >> 2);
        lemma_b64_char_val(((b0 & 3) << 4) | (b1 >> 4));
        lemma_b64_char_val(((b1 & 15) << 2) | (b2 >> 6));
        lemma_b64_char_val(b2 & 63);
        lemma_b64url_round_trip(s.skip(3));
        let head = seq![
            b64_char(b0 >> 2),
            b64_char(((b0 & 3) << 4) | (b1 >> 4)),
            b64_char(((b1 & 15) << 2) | (b2 >> 6)),
            b64_char(b2 & 63),
        ];
        let rest = b64url_encode(s.skip(3));
        assert(e == head + rest);
        assert(e.len() >= 4);
        assert(e[0] == head[0] && e[1] == head[1] && e[2] == head[2] && e[3] == head[3]);
        assert(e.skip(4) =~= rest);
        assert(b64url_decode(e).unwrap() =~= seq![b0, b1, b2] + s.skip(3));
        assert(seq![b0, b1, b2] + s.skip(3) =~= s);
    }
}

/// Splitting an input at a group boundary splits its encoding.
proof fn lemma_b64url_encode_split(s: Seq<u8>, i: int)
    requires
        0 <= i <= s.len(),
        i % 3 == 0,
    ensures
        b64url_encode(s) == b64url_encode(s.take(i)) + b64url_encode(s.skip(i)),
    decreases i,
{
    if i == 0 {
        assert(s.take(0) =~= Seq::<u8>::empty());
        assert(s.skip(0) =~= s);
        assert(b64url_encode(s) =~= b64url_encode(s.take(0)) + b64url_encode(s.skip(0)));
    } else {
        let t = s.take(i);
        assert(t.len() >= 3);
        assert(t[0] == s[0] && t[1] == s[1] && t[2] == s[2]);
        lemma_b64url_encode_split(s.skip(3), i - 3);
        assert(s.skip(3).take(i - 3) =~= t.skip(3));
        assert(s.skip(3).skip(i - 3) =~= s.skip(i));
        assert(b64url_encode(s) =~= b64url_encode(s.take(i)) + b64url_encode(s.skip(i)));
    }
}

fn enc_sextet(v: u8) -> (r: u8)
    requires
        v < 64,
    ensures
        r == b64_char(v),
{
    if v < 26 {
        65 + v
    } else if v < 52 {
        97 + (v - 26)
    } else if v < 62 {
        48 + (v - 52)
    } else if v == 62 {
        45
    } else {
        95
    }
}

fn dec_sextet(c: u8) -> (r: Option<u8>)
    ensures
        r == b64_val(c),
{
    if 65 <= c && c <= 90 {
        Some(c - 65)
    } else if 97 <= c && c <= 122 {
        Some(c - 97 + 26)
    } else if 48 <= c && c <= 57 {
        Some(c - 48 + 52)
    } else if c == 45 {
        Some(62)
    } else if c == 95 {
        Some(63)
    } else {
        None
    }
}

/// Appends the base64url encoding of `input` to `out`.
pub fn base64url_encode_onto(input: &[u8], out: &mut Vec<u8>)
    ensures
        final(out)@ == old(out)@ + b64url_encode(input@),
{
    let ghost base = out@;
    let n = input.len();
    let mut i: usize = 0;
    while n - i >= 3
        invariant
            i <= n,
            i % 3 == 0,
            n == input@.len(),
            out@ == base + b64url_encode(input@.take(i as int)),
        decreases n - i,
    {
        let b0 = input[i];
        let b1 = input[i + 1];
        let b2 = input[i + 2];
        proof {
            assert((b0 >> 2) < 64 && (((b0 & 3) << 4) | (b1 >> 4)) < 64
                && (((b1 & 15) << 2) | (b2 >> 6)) < 64 && (b2 & 63) < 64) by (bit_vector);
        }
        out.push(enc_sextet(b0 >> 2));
        out.push(enc_sextet(((b0 & 3) << 4) | (b1 >> 4)));
        out.push(enc_sextet(((b1 & 15) << 2) | (b2 >> 6)));
        out.push(enc_sextet(b2 & 63));
        i = i + 3;
        proof {
            lemma_b64url_encode_split(input@.take(i as int), i - 3);
            assert(input@.take(i as int).take(i - 3) =~= input@.take(i - 3));
            let g = input@.take(i as int).skip(i - 3);
            assert(g.len() == 3);
            assert(g[0] == input@[i - 3] && g[1] == input@[i - 2] && g[2] == input@[i - 1]);
            assert(g.skip(3) =~= Seq::<u8>::empty());
            assert(b64url_encode(g.skip(3)) =~= Seq::<u8>::empty());
            assert(b64url_encode(g) =~= seq![
                b64_char(b0 >> 2),
                b64_char(((b0 & 3) << 4) | (b1 >> 4)),
                b64_char(((b1 & 15) << 2) | (b2 >> 6)),
                b64_char(b2 & 63),
            ]);
            assert(out@ =~= base + b64url_encode(input@.take(i as int)));
        }
    }
    if n - i == 1 {
        let b0 = input[i];
        proof {
            assert((b0 >> 2) < 64 && ((b0 & 3) << 4) < 64) by (bit_vector);
        }
        out.push(enc_sextet(b0 >> 2));
        out.push(enc_sextet((b0 & 3) << 4));
        proof {
            lemma_b64url_encode_split(input@, i as int);
            let g = input@.skip(i as int);
            assert(g.len() == 1 && g[0] == input@[i as int]);
            assert(out@ =~= base + b64url_encode(input@));
        }
    } else if n - i == 2 {
        let b0 = input[i];
        let b1 = input[i + 1];
        proof {
            assert((b0 >> 2) < 64 && (((b0 & 3) << 4) | (b1 >> 4)) < 64 && ((b1 & 15) << 2) < 64)
                by (bit_vector);
        }
        out.push(enc_sextet(b0 >> 2));
        out.push(enc_sextet(((b0 & 3) << 4) | (b1 >> 4)));
        out.push(enc_sextet((b1 & 15) << 2));
        proof {
            lemma_b64url_encode_split(input@, i as int);
            let g = input@.skip(i as int);
            assert(g.len() == 2 && g[0] == input@[i as int] && g[1] == input@[i + 1]);
            assert(out@ =~= base + b64url_encode(input@));
        }
    } else {
        proof {
            assert(input@.take(i as int) =~= input@);
        }
    }
}

/// The base64url encoding of `input` as a fresh vector.
pub fn base64url_encode(input: &[u8]) -> (out: Vec<u8>)
    ensures
        out@ == b64url_encode(input@),
{
    let mut out: Vec<u8> = Vec::new();
    base64url_encode_onto(input, &mut out);
    out
}

/// Decodes strict base64url; `None` exactly when the spec decoder rejects.
pub fn base64url_decode(input: &[u8]) -> (out: Option<Vec<u8>>)
    ensures
        match out {
            Some(v) => b64url_decode(input@) == Some(v@),
            None => b64url_decode(input@) is None,
        },
{
    let n = input.len();
    let mut i: usize = 0;
    let mut out: Vec<u8> = Vec::new();
    proof {
        assert(input@.skip(0) =~= input@);
    }
    while n - i >= 4
        invariant
            i <= n,
            n == input@.len(),
            match b64url_decode(input@.skip(i as int)) {
                Some(rest) => b64url_decode(input@) == Some(out@ + rest),
                None => b64url_decode(input@) is None,
            },
        decreases n - i,
    {
        let ghost pre = input@.skip(i as int);
        let r0 = dec_sextet(input[i]);
        let r1 = dec_sextet(input[i + 1]);
        let r2 = dec_sextet(input[i + 2]);
        let r3 = dec_sextet(input[i + 3]);
        proof {
            assert(pre.len() >= 4);
            assert(pre[0] == input@[i as int] && pre[1] == input@[i + 1] && pre[2] == input@[i + 2]
                && pre[3] == input@[i + 3]);
        }
        match (r0, r1, r2, r3) {
            (Some(v0), Some(v1), Some(v2), Some(v3)) => {
                let ghost before = out@;
                out.push((v0 << 2) | (v1 >> 4));
                out.push(((v1 & 15) << 4) | (v2 >> 2));
                out.push(((v2 & 3) << 6) | v3);
                i = i + 4;
                proof {
                    assert(pre.skip(4) =~= input@.skip(i as int));
                    assert(out@ =~= before + seq![
                        ((v0 << 2) | (v1 >> 4)) as u8,
                        (((v1 & 15) << 4) | (v2 >> 2)) as u8,
                        (((v2 & 3) << 6) | v3) as u8,
                    ]);
                    if b64url_decode(input@.skip(i as int)) is Some {
                        let rest = b64url_decode(input@.skip(i as int)).unwrap();
                        assert(before + (seq![
                            ((v0 << 2) | (v1 >> 4)) as u8,
                            (((v1 & 15) << 4) | (v2 >> 2)) as u8,
                            (((v2 & 3) << 6) | v3) as u8,
                        ] + rest) =~= out@ + rest);
                    }
                }
            },
            _ => {
                return None;
            },
        }
    }
    let ghost pre = input@.skip(i as int);
    if n - i == 0 {
        proof {
            assert(pre =~= Seq::<u8>::empty());
            assert(out@ + Seq::<u8>::empty() =~= out@);
        }
        Some(out)
    } else if n - i == 1 {
        None
    } else if n - i == 2 {
        proof {
            assert(pre.len() == 2);
            assert(pre[0] == input@[i as int] && pre[1] == input@[i + 1]);
        }
        match (dec_sextet(input[i]), dec_sextet(input[i + 1])) {
            (Some(v0), Some(v1)) => {
                if v1 & 15 == 0 {
                    let ghost before = out@;
                    out.push((v0 << 2) | (v1 >> 4));
                    proof {
                        assert(out@ =~= before + seq![((v0 << 2) | (v1 >> 4)) as u8]);
                    }
                    Some(out)
                } else {
                    None
                }
            },
            _ => None,
        }
    } else {
        proof {
            assert(pre.len() == 3);
            assert(pre[0] == input@[i as int] && pre[1] == input@[i + 1] && pre[2] == input@[i + 2]);
        }
        match (dec_sextet(input[i]), dec_sextet(input[i + 1]), dec_sextet(input[i + 2])) {
            (Some(v0), Some(v1), Some(v2)) => {
                if v2 & 3 == 0 {
                    let ghost before = out@;
                    out.push((v0 << 2) | (v1 >> 4));
                    out.push(((v1 & 15) << 4) | (v2 >> 2));
                    proof {
                        assert(out@ =~= before + seq![
                            ((v0 << 2) | (v1 >> 4)) as u8,
                            (((v1 & 15) << 4) | (v2 >> 2)) as u8,
                        ]);
                    }
                    Some(out)
                } else {
                    None
                }
            },
            _ => None,
        }
    }
}

} // verus!
