//! The claim set of a signed assertion, with its canonical JSON encoding:
//! emission and strict parsing, proved inverse to each other.

use vstd::prelude::*;

use crate::bytesutil::{has_at, push_all, starts_with_at};
use vstd::arithmetic::div_mod::lemma_fundamental_div_mod;

verus! {

/// Mathematical form of a claim set.
pub ghost struct SpecClaims {
    pub token_id: int,
    pub user_id: int,
    pub email: Seq<u8>,
    pub token: Seq<u8>,
    pub exp: int,
}

/// Numeric claims are non-negative and fit a signed 64-bit integer.
pub open spec fn wf_claims(c: SpecClaims) -> bool {
    &&& 0 <= c.token_id <= i64::MAX
    &&& 0 <= c.user_id <= i64::MAX
    &&& 0 <= c.exp <= i64::MAX
}

/// The claim set carried by a signed assertion: the session token's
/// identifier, the owning user, the user's email (as UTF-8 bytes), the
/// token secret in its displayable encoding, and the expiry timestamp.
pub struct AuthTokenClaims {
    pub token_id: i64,
    pub user_id: i64,
    pub email: Vec<u8>,
    pub token: Vec<u8>,
    pub exp: i64,
}

impl View for AuthTokenClaims {
    type V = SpecClaims;

    open spec fn view(&self) -> SpecClaims {
        SpecClaims {
            token_id: self.token_id as int,
            user_id: self.user_id as int,
            email: self.email@,
            token: self.token@,
            exp: self.exp as int,
        }
    }
}

// ---------------------------------------------------------------------------
// Literal chunks of the canonical claims document.
// ---------------------------------------------------------------------------

/// The bytes of `{"token_id":`.
pub open spec fn lit_token_id() -> Seq<u8> {
    seq![123u8, 34, 116, 111, 107, 101, 110, 95, 105, 100, 34, 58]
}

/// The bytes of `,"user_id":`.
pub open spec fn lit_user_id() -> Seq<u8> {
    seq![44u8, 34, 117, 115, 101, 114, 95, 105, 100, 34, 58]
}

/// The bytes of `,"email":"`.
pub open spec fn lit_email() -> Seq<u8> {
    seq![44u8, 34, 101, 109, 97, 105, 108, 34, 58, 34]
}

/// The bytes of `,"token":"`.
pub open spec fn lit_token() -> Seq<u8> {
    seq![44u8, 34, 116, 111, 107, 101, 110, 34, 58, 34]
}

/// The bytes of `,"exp":`.
pub open spec fn lit_exp() -> Seq<u8> {
    seq![44u8, 34, 101, 120, 112, 34, 58]
}

/// The bytes of `}`.
pub open spec fn lit_end() -> Seq<u8> {
    seq![125u8]
}

fn lit_token_id_vec() -> (v: Vec<u8>)
    ensures
        v@ == lit_token_id(),
{
    let mut v: Vec<u8> = Vec::new();
    v.push(123);
    v.push(34);
    v.push(116);
    v.push(111);
    v.push(107);
    v.push(101);
    v.push(110);
    v.push(95);
    v.push(105);
    v.push(100);
    v.push(34);
    v.push(58);
    proof {
        assert(v@ =~= lit_token_id());
    }
    v
}

fn lit_user_id_vec() -> (v: Vec<u8>)
    ensures
        v@ == lit_user_id(),
{
    let mut v: Vec<u8> = Vec::new();
    v.push(44);
    v.push(34);
    v.push(117);
    v.push(115);
    v.push(101);
    v.push(114);
    v.push(95);
    v.push(105);
    v.push(100);
    v.push(34);
    v.push(58);
    proof {
        assert(v@ =~= lit_user_id());
    }
    v
}

fn lit_email_vec() -> (v: Vec<u8>)
    ensures
        v@ == lit_email(),
{
    let mut v: Vec<u8> = Vec::new();
    v.push(44);
    v.push(34);
    v.push(101);
    v.push(109);
    v.push(97);
    v.push(105);
    v.push(108);
    v.push(34);
    v.push(58);
    v.push(34);
    proof {
        assert(v@ =~= lit_email());
    }
    v
}

fn lit_token_vec() -> (v: Vec<u8>)
    ensures
        v@ == lit_token(),
{
    let mut v: Vec<u8> = Vec::new();
    v.push(44);
    v.push(34);
    v.push(116);
    v.push(111);
    v.push(107);
    v.push(101);
    v.push(110);
    v.push(34);
    v.push(58);
    v.push(34);
    proof {
        assert(v@ =~= lit_token());
    }
    v
}

fn lit_exp_vec() -> (v: Vec<u8>)
    ensures
        v@ == lit_exp(),
{
    let mut v: Vec<u8> = Vec::new();
    v.push(44);
    v.push(34);
    v.push(101);
    v.push(120);
    v.push(112);
    v.push(34);
    v.push(58);
    proof {
        assert(v@ =~= lit_exp());
    }
    v
}

// ---------------------------------------------------------------------------
// Decimal numbers.
// ---------------------------------------------------------------------------

pub open spec fn is_digit(b: u8) -> bool {
    48 <= b <= 57
}

/// Canonical decimal digits of a non-negative number, most significant first.
pub open spec fn dec_digits(n: int) -> Seq<u8>
    recommends
        n >= 0,
    decreases n,
{
    if n < 10 {
        seq![(48 + n) as u8]
    } else {
        dec_digits(n / 10).push((48 + n % 10) as u8)
    }
}

/// The value of a digit string.
pub open spec fn dec_val(ds: Seq<u8>) -> int
    decreases ds.len(),
{
    if ds.len() == 0 {
        0
    } else {
        dec_val(ds.drop_last()) * 10 + (ds.last() - 48)
    }
}

/// Basic facts about canonical digits: they evaluate back to the number,
/// are all digits, and have no leading zero.
pub proof fn lemma_dec_digits(n: int)
    requires
        n >= 0,
    ensures
        dec_val(dec_digits(n)) == n,
        dec_digits(n).len() >= 1,
        forall|i: int| 0 <= i < dec_digits(n).len() ==> is_digit(#[trigger] dec_digits(n)[i]),
        n >= 1 ==> dec_digits(n)[0] != 48,
        (n < 10) <==> (dec_digits(n).len() == 1),
    decreases n,
{
    if n < 10 {
        assert(dec_digits(n) == seq![(48 + n) as u8]);
        assert(dec_digits(n).drop_last() =~= Seq::<u8>::empty());
        assert(dec_val(Seq::<u8>::empty()) == 0);
        assert(dec_val(dec_digits(n)) == 0 * 10 + ((48 + n) as u8 - 48));
    } else {
        lemma_dec_digits(n / 10);
        lemma_fundamental_div_mod(n, 10);
        let prev = dec_digits(n / 10);
        let d = dec_digits(n);
        assert(d == prev.push((48 + n % 10) as u8));
        assert(d.drop_last() =~= prev);
        assert(dec_val(d) == dec_val(prev) * 10 + n % 10);
        assert(forall|i: int| 0 <= i < d.len() ==> is_digit(#[trigger] d[i])) by {
            assert(forall|i: int| 0 <= i < prev.len() ==> d[i] == #[trigger] prev[i]);
        }
        assert(d[0] == prev[0]);
    }
}

/// Where a run of digits starting at `i` ends.
pub open spec fn digits_end(s: Seq<u8>, i: int) -> int
    recommends
        0 <= i <= s.len(),
    decreases s.len() - i,
{
    if i < s.len() && is_digit(s[i]) {
        digits_end(s, i + 1)
    } else {
        i
    }
}

/// A run of digits at `i` that stops at `j` has `digits_end` equal to `j`.
pub proof fn lemma_digits_end_of(s: Seq<u8>, i: int, j: int)
    requires
        0 <= i <= j <= s.len(),
        forall|k: int| i <= k < j ==> is_digit(#[trigger] s[k]),
        j == s.len() || !is_digit(s[j]),
    ensures
        digits_end(s, i) == j,
    decreases j - i,
{
    if i < j {
        lemma_digits_end_of(s, i + 1, j);
    }
}

/// Digit strings have non-negative values that grow with more digits.
pub proof fn lemma_dec_val_mono(s: Seq<u8>, i: int, a: int, b: int)
    requires
        0 <= i <= a <= b <= s.len(),
        forall|k: int| i <= k < b ==> is_digit(#[trigger] s[k]),
    ensures
        0 <= dec_val(s.subrange(i, a)) <= dec_val(s.subrange(i, b)),
    decreases b - a,
{
    if a == b {
        lemma_dec_val_nonneg(s.subrange(i, a));
    } else {
        lemma_dec_val_mono(s, i, a, b - 1);
        let whole = s.subrange(i, b);
        assert(whole.drop_last() =~= s.subrange(i, b - 1));
        assert(is_digit(whole.last()));
        lemma_dec_val_nonneg(s.subrange(i, b - 1));
    }
}

proof fn lemma_dec_val_nonneg(ds: Seq<u8>)
    requires
        forall|k: int| 0 <= k < ds.len() ==> is_digit(#[trigger] ds[k]),
    ensures
        dec_val(ds) >= 0,
    decreases ds.len(),
{
    if ds.len() > 0 {
        lemma_dec_val_nonneg(ds.drop_last());
    }
}

/// Canonical parse of a non-negative decimal number at position `i`:
/// at least one digit, no leading zero, value within `i64`.
pub open spec fn parse_num(s: Seq<u8>, i: int) -> Option<(int, int)>
    recommends
        0 <= i <= s.len(),
{
    let j = digits_end(s, i);
    if j == i {
        None
    } else if s[i] == 48 && j > i + 1 {
        None
    } else if dec_val(s.subrange(i, j)) > i64::MAX {
        None
    } else {
        Some((dec_val(s.subrange(i, j)), j))
    }
}

/// Parsing recovers an emitted number when a non-digit byte follows it.
pub proof fn lemma_parse_num_round(s: Seq<u8>, i: int, n: int)
    requires
        0 <= n <= i64::MAX,
        0 <= i,
        i + dec_digits(n).len() < s.len(),
        s.subrange(i, i + dec_digits(n).len()) == dec_digits(n),
        !is_digit(s[i + dec_digits(n).len()]),
    ensures
        parse_num(s, i) == Some((n, i + dec_digits(n).len())),
{
    lemma_dec_digits(n);
    let d = dec_digits(n);
    let j = i + d.len();
    let sub = s.subrange(i, j);
    assert forall|k: int| i <= k < j implies is_digit(#[trigger] s[k]) by {
        assert(sub[k - i] == s[k]);
        assert(is_digit(d[k - i]));
    }
    lemma_digits_end_of(s, i, j);
    assert(s[i] == sub[0]);
    if n == 0 {
        assert(d.len() == 1);
    }
}

// ---------------------------------------------------------------------------
// JSON string escaping.
// ---------------------------------------------------------------------------

/// Lower-case hex digit of a value below 16.
pub open spec fn hex_lc(v: u8) -> u8
    recommends
        v < 16,
{
    if v < 10 {
        (48 + v) as u8
    } else {
        (87 + v) as u8
    }
}

/// Value of a lower-case hex digit byte.
pub open spec fn hex_lc_val(c: u8) -> Option<u8> {
    if 48 <= c <= 57 {
        Some((c - 48) as u8)
    } else if 97 <= c <= 102 {
        Some((c - 87) as u8)
    } else {
        None
    }
}

/// Canonical escape of one byte inside a JSON string: quote and backslash
/// get a two-byte escape, control bytes a `\u00xy` escape, all else is raw.
pub open spec fn esc_byte(b: u8) -> Seq<u8> {
    if b == 34 {
        seq![92u8, 34u8]
    } else if b == 92 {
        seq![92u8, 92u8]
    } else if b < 32 {
        seq![92u8, 117u8, 48u8, 48u8, hex_lc(b >> 4), hex_lc(b & 15)]
    } else {
        seq![b]
    }
}

/// Canonical escape of a whole byte string.
pub open spec fn json_escape(s: Seq<u8>) -> Seq<u8>
    decreases s.len(),
{
    if s.len() == 0 {
        seq![]
    } else {
        esc_byte(s[0]) + json_escape(s.skip(1))
    }
}

/// Parse of a JSON string body starting at `i`, up to and including the
/// closing quote; accepts exactly the canonical escapes.
pub open spec fn parse_str(s: Seq<u8>, i: int) -> Option<(Seq<u8>, int)>
    decreases s.len() - i,
{
    if i < 0 || i >= s.len() {
        None
    } else if s[i] == 34 {
        Some((seq![], i + 1))
    } else if s[i] == 92 {
        if i + 2 <= s.len() && (s[i + 1] == 34 || s[i + 1] == 92) {
            match parse_str(s, i + 2) {
                Some(p) => Some((seq![s[i + 1]] + p.0, p.1)),
                None => None,
            }
        } else if i + 6 <= s.len() && s[i + 1] == 117 && s[i + 2] == 48 && s[i + 3] == 48
            && hex_lc_val(s[i + 4]) is Some && hex_lc_val(s[i + 5]) is Some
            && ((hex_lc_val(s[i + 4]).unwrap() << 4) | hex_lc_val(s[i + 5]).unwrap()) < 32 {
            match parse_str(s, i + 6) {
                Some(p) => Some(
                    (seq![(hex_lc_val(s[i + 4]).unwrap() << 4) | hex_lc_val(s[i + 5]).unwrap()]
                        + p.0, p.1),
                ),
                None => None,
            }
        } else {
            None
        }
    } else if s[i] < 32 {
        None
    } else {
        match parse_str(s, i + 1) {
            Some(p) => Some((seq![s[i]] + p.0, p.1)),
            None => None,
        }
    }
}

/// Parsing recovers an escaped string followed by its closing quote.
pub proof fn lemma_parse_str_round(content: Seq<u8>, s: Seq<u8>, i: int)
    requires
        0 <= i,
        i + json_escape(content).len() + 1 <= s.len(),
        s.subrange(i, i + json_escape(content).len() + 1) == json_escape(content) + seq![34u8],
    ensures
        parse_str(s, i) == Some((content, i + json_escape(content).len() + 1)),
    decreases content.len(),
{
    let e = json_escape(content);
    let whole = e + seq![34u8];
    let w = s.subrange(i, i + e.len() + 1);
    assert forall|k: int| 0 <= k < whole.len() implies s[i + k] == #[trigger] whole[k] by {
        assert(w[k] == s[i + k]);
    }
    if content.len() == 0 {
        assert(s[i] == whole[0]);
        assert(s[i] == 34);
    } else {
        let b = content[0];
        let eb = esc_byte(b);
        let rest = content.skip(1);
        let er = json_escape(rest);
        assert(e == eb + er);
        let i2 = i + eb.len();
        assert forall|k: int| 0 <= k < eb.len() implies s[i + k] == #[trigger] eb[k] by {
            assert(s[i + k] == whole[k]);
            assert(whole[k] == e[k]);
            assert(e[k] == eb[k]);
        }
        assert(s.subrange(i2, i2 + er.len() + 1) =~= er + seq![34u8]) by {
            assert forall|k: int| 0 <= k < er.len() + 1 implies s.subrange(
                i2,
                i2 + er.len() + 1,
            )[k] == (er + seq![34u8])[k] by {
                assert(s.subrange(i2, i2 + er.len() + 1)[k] == s[i2 + k]);
                assert(s[i + (eb.len() + k)] == whole[eb.len() + k]);
                if k < er.len() {
                    assert(whole[eb.len() + k] == e[eb.len() + k]);
                    assert(e[eb.len() + k] == er[k]);
                } else {
                    assert(whole[eb.len() + k] == 34u8);
                }
            }
        }
        lemma_parse_str_round(rest, s, i2);
        assert(seq![b] + rest =~= content);
        if b == 34 {
            assert(s[i] == 92 && s[i + 1] == 34);
        } else if b == 92 {
            assert(s[i] == 92 && s[i + 1] == 92);
        } else if b < 32 {
            assert(s[i] == 92 && s[i + 1] == 117 && s[i + 2] == 48 && s[i + 3] == 48);
            assert(s[i + 4] == hex_lc(b >> 4) && s[i + 5] == hex_lc(b & 15));
            assert(b >> 4 < 16 && b & 15 < 16 && ((b >> 4) << 4 | (b & 15)) == b)
                by (bit_vector);
            assert(hex_lc_val(hex_lc(b >> 4)) == Some(b >> 4));
            assert(hex_lc_val(hex_lc(b & 15)) == Some(b & 15));
        } else {
            assert(s[i] == b);
        }
    }
}

// ---------------------------------------------------------------------------
// The whole document.
// ---------------------------------------------------------------------------

/// Canonical claims document.
pub open spec fn claims_json(c: SpecClaims) -> Seq<u8> {
    lit_token_id() + dec_digits(c.token_id) + lit_user_id() + dec_digits(c.user_id) + lit_email()
        + json_escape(c.email) + seq![34u8] + lit_token() + json_escape(c.token) + seq![34u8]
        + lit_exp() + dec_digits(c.exp) + lit_end()
}

/// Strict parse of a claims document: the canonical form and nothing else.
pub open spec fn spec_parse_claims(s: Seq<u8>) -> Option<SpecClaims> {
    if !has_at(s, 0, lit_token_id()) {
        None
    } else {
        match parse_num(s, lit_token_id().len() as int) {
            None => None,
            Some(p1) => if !has_at(s, p1.1, lit_user_id()) {
                None
            } else {
                match parse_num(s, p1.1 + lit_user_id().len()) {
                    None => None,
                    Some(p2) => if !has_at(s, p2.1, lit_email()) {
                        None
                    } else {
                        match parse_str(s, p2.1 + lit_email().len()) {
                            None => None,
                            Some(p3) => if !has_at(s, p3.1, lit_token()) {
                                None
                            } else {
                                match parse_str(s, p3.1 + lit_token().len()) {
                                    None => None,
                                    Some(p4) => if !has_at(s, p4.1, lit_exp()) {
                                        None
                                    } else {
                                        match parse_num(s, p4.1 + lit_exp().len()) {
                                            None => None,
                                            Some(p5) => if p5.1 + 1 == s.len() && s[p5.1] == 125 {
                                                Some(SpecClaims {
                                                    token_id: p1.0,
                                                    user_id: p2.0,
                                                    email: p3.0,
                                                    token: p4.0,
                                                    exp: p5.0,
                                                })
                                            } else {
                                                None
                                            },
                                        }
                                    },
                                }
                            },
                        }
                    },
                }
            },
        }
    }
}

/// The canonical document parses back to the claims it was emitted from.
#[verifier::rlimit(100)]
pub proof fn lemma_claims_round_trip(c: SpecClaims)
    requires
        wf_claims(c),
    ensures
        spec_parse_claims(claims_json(c)) == Some(c),
{
    let s = claims_json(c);
    let d1 = dec_digits(c.token_id);
    let d2 = dec_digits(c.user_id);
    let e1 = json_escape(c.email);
    let e2 = json_escape(c.token);
    let d3 = dec_digits(c.exp);
    lemma_dec_digits(c.token_id);
    lemma_dec_digits(c.user_id);
    lemma_dec_digits(c.exp);

    let i1 = lit_token_id().len() as int;
    let i2 = i1 + d1.len();
    let i3 = i2 + lit_user_id().len();
    let i4 = i3 + d2.len();
    let i5 = i4 + lit_email().len();
    let i6 = i5 + e1.len() + 1;
    let i7 = i6 + lit_token().len();
    let i8 = i7 + e2.len() + 1;
    let i9 = i8 + lit_exp().len();
    let i10 = i9 + d3.len();

    assert(s.len() == i10 + 1);

    assert(s.subrange(0, i1) =~= lit_token_id());
    assert(s.subrange(i1, i2) =~= d1);
    assert(s.subrange(i2, i3) =~= lit_user_id());
    assert(s.subrange(i3, i4) =~= d2);
    assert(s.subrange(i4, i5) =~= lit_email());
    assert(s.subrange(i5, i6) =~= e1 + seq![34u8]);
    assert(s.subrange(i6, i7) =~= lit_token());
    assert(s.subrange(i7, i8) =~= e2 + seq![34u8]);
    assert(s.subrange(i8, i9) =~= lit_exp());
    assert(s.subrange(i9, i10) =~= d3);
    assert(s[i10] == 125);

    assert(has_at(s, 0, lit_token_id()));
    assert(s[i2] == 44 && !is_digit(s[i2]));
    lemma_parse_num_round(s, i1, c.token_id);
    assert(has_at(s, i2, lit_user_id()));
    assert(s[i4] == 44 && !is_digit(s[i4]));
    lemma_parse_num_round(s, i3, c.user_id);
    assert(has_at(s, i4, lit_email()));
    lemma_parse_str_round(c.email, s, i5);
    assert(has_at(s, i6, lit_token()));
    lemma_parse_str_round(c.token, s, i7);
    assert(has_at(s, i8, lit_exp()));
    assert(s[i10] == 125 && !is_digit(s[i10]));
    lemma_parse_num_round(s, i9, c.exp);
}

// ---------------------------------------------------------------------------
// Executable emission.
// ---------------------------------------------------------------------------

fn hex_lc_byte(v: u8) -> (r: u8)
    requires
        v < 16,
    ensures
        r == hex_lc(v),
{
    if v < 10 {
        48 + v
    } else {
        87 + v
    }
}

/// The canonical escape of `src` as a fresh vector.
fn json_escape_bytes(src: &[u8]) -> (out: Vec<u8>)
    ensures
        out@ == json_escape(src@),
{
    let n = src.len();
    let mut out: Vec<u8> = Vec::new();
    let mut k: usize = 0;
    proof {
        assert(src@.skip(0) =~= src@);
    }
    while k < n
        invariant
            k <= n,
            n == src@.len(),
            json_escape(src@) =~= out@ + json_escape(src@.skip(k as int)),
        decreases n - k,
    {
        let ghost pre = src@.skip(k as int);
        let b = src[k];
        proof {
            assert(pre.len() > 0 && pre[0] == b);
            assert(pre.skip(1) =~= src@.skip(k + 1));
        }
        let ghost before = out@;
        if b == 34 {
            out.push(92);
            out.push(34);
        } else if b == 92 {
            out.push(92);
            out.push(92);
        } else if b < 32 {
            proof {
                assert(b >> 4 < 16 && b & 15 < 16) by (bit_vector);
            }
            out.push(92);
            out.push(117);
            out.push(48);
            out.push(48);
            out.push(hex_lc_byte(b >> 4));
            out.push(hex_lc_byte(b & 15));
        } else {
            out.push(b);
        }
        k = k + 1;
        proof {
            assert(out@ =~= before + esc_byte(b));
            assert(before + esc_byte(b) + json_escape(src@.skip(k as int))
                =~= before + (esc_byte(b) + json_escape(src@.skip(k as int))));
        }
    }
    proof {
        assert(src@.skip(n as int) =~= Seq::<u8>::empty());
        assert(out@ + Seq::<u8>::empty() =~= out@);
    }
    out
}

/// The canonical decimal digits of `n` as a fresh vector.
fn dec_bytes(n: i64) -> (out: Vec<u8>)
    requires
        n >= 0,
    ensures
        out@ == dec_digits(n as int),
    decreases n,
{
    if n < 10 {
        let mut out: Vec<u8> = Vec::new();
        out.push(48 + n as u8);
        proof {
            assert(out@ =~= dec_digits(n as int));
        }
        out
    } else {
        let mut out = dec_bytes(n / 10);
        out.push(48 + (n % 10) as u8);
        out
    }
}

/// Emits the canonical claims document for `c`.
pub fn claims_to_json(c: &AuthTokenClaims) -> (out: Vec<u8>)
    requires
        c.token_id >= 0,
        c.user_id >= 0,
        c.exp >= 0,
    ensures
        out@ == claims_json(c@),
{
    let mut out: Vec<u8> = Vec::new();
    let l1 = lit_token_id_vec();
    push_all(&mut out, l1.as_slice());
    let n1 = dec_bytes(c.token_id);
    push_all(&mut out, n1.as_slice());
    let l2 = lit_user_id_vec();
    push_all(&mut out, l2.as_slice());
    let n2 = dec_bytes(c.user_id);
    push_all(&mut out, n2.as_slice());
    let l3 = lit_email_vec();
    push_all(&mut out, l3.as_slice());
    let s1 = json_escape_bytes(c.email.as_slice());
    push_all(&mut out, s1.as_slice());
    out.push(34);
    let l4 = lit_token_vec();
    push_all(&mut out, l4.as_slice());
    let s2 = json_escape_bytes(c.token.as_slice());
    push_all(&mut out, s2.as_slice());
    out.push(34);
    let l5 = lit_exp_vec();
    push_all(&mut out, l5.as_slice());
    let n3 = dec_bytes(c.exp);
    push_all(&mut out, n3.as_slice());
    out.push(125);
    proof {
        assert(out@ =~= claims_json(c@));
    }
    out
}

// ---------------------------------------------------------------------------
// Executable parsing.
// ---------------------------------------------------------------------------

fn hex_val_byte(c: u8) -> (r: Option<u8>)
    ensures
        r == hex_lc_val(c),
{
    if 48 <= c && c <= 57 {
        Some(c - 48)
    } else if 97 <= c && c <= 102 {
        Some(c - 87)
    } else {
        None
    }
}

/// Scans a canonical decimal number at `i`.
fn scan_num(s: &[u8], i: usize) -> (r: Option<(i64, usize)>)
    requires
        i <= s@.len(),
    ensures
        match r {
            Some(p) => {
                &&& parse_num(s@, i as int) == Some((p.0 as int, p.1 as int))
                &&& i < p.1 <= s@.len()
                &&& p.0 >= 0
            },
            None => parse_num(s@, i as int) is None,
        },
{
    let n = s.len();
    let mut j: usize = i;
    while j < n && s[j] >= 48 && s[j] <= 57
        invariant
            i <= j <= n,
            n == s@.len(),
            digits_end(s@, i as int) == digits_end(s@, j as int),
            forall|q: int| i <= q < j ==> is_digit(#[trigger] s@[q]),
        decreases n - j,
    {
        j = j + 1;
    }
    proof {
        assert(digits_end(s@, j as int) == j);
    }
    if j == i {
        return None;
    }
    if s[i] == 48 && j > i + 1 {
        return None;
    }
    let mut acc: i64 = 0;
    let mut k: usize = i;
    proof {
        assert(s@.subrange(i as int, i as int) =~= Seq::<u8>::empty());
    }
    while k < j
        invariant
            i <= k <= j <= n,
            n == s@.len(),
            digits_end(s@, i as int) == j,
            forall|q: int| i <= q < j ==> is_digit(#[trigger] s@[q]),
            0 <= acc,
            acc == dec_val(s@.subrange(i as int, k as int)),
        decreases j - k,
    {
        let d = s[k] - 48;
        proof {
            assert(s@.subrange(i as int, k + 1).drop_last() =~= s@.subrange(i as int, k as int));
            assert(s@.subrange(i as int, k + 1).last() == s@[k as int]);
        }
        let limit = (i64::MAX - d as i64) / 10;
        if acc > limit {
            proof {
                lemma_fundamental_div_mod(i64::MAX - d as int, 10);
                assert(dec_val(s@.subrange(i as int, k + 1)) > i64::MAX);
                lemma_dec_val_mono(s@, i as int, k + 1, j as int);
            }
            return None;
        }
        acc = acc * 10 + d as i64;
        k = k + 1;
    }
    Some((acc, j))
}

/// Scans a JSON string body at `i`, through its closing quote.
fn scan_str(s: &[u8], i: usize) -> (r: Option<(Vec<u8>, usize)>)
    requires
        i <= s@.len(),
    ensures
        match r {
            Some(p) => parse_str(s@, i as int) == Some((p.0@, p.1 as int)) && i < p.1 <= s@.len(),
            None => parse_str(s@, i as int) is None,
        },
{
    let n = s.len();
    let mut acc: Vec<u8> = Vec::new();
    let mut j: usize = i;
    loop
        invariant
            i <= j <= n,
            n == s@.len(),
            match parse_str(s@, j as int) {
                Some(p) => parse_str(s@, i as int) == Some((acc@ + p.0, p.1)),
                None => parse_str(s@, i as int) is None,
            },
        decreases n - j,
    {
        if j >= n {
            return None;
        }
        let b = s[j];
        let ghost before = acc@;
        if b == 34 {
            proof {
                assert(before + Seq::<u8>::empty() =~= before);
            }
            return Some((acc, j + 1));
        } else if b == 92 {
            if n - j >= 2 && (s[j + 1] == 34 || s[j + 1] == 92) {
                let c = s[j + 1];
                acc.push(c);
                j = j + 2;
                proof {
                    match parse_str(s@, j as int) {
                        Some(p) => {
                            assert(before + (seq![c] + p.0) =~= acc@ + p.0);
                        },
                        None => {},
                    }
                }
            } else if n - j >= 6 && s[j + 1] == 117 && s[j + 2] == 48 && s[j + 3] == 48 {
                let h1 = hex_val_byte(s[j + 4]);
                let h2 = hex_val_byte(s[j + 5]);
                match (h1, h2) {
                    (Some(v1), Some(v2)) => {
                        let v = (v1 << 4) | v2;
                        if v < 32 {
                            acc.push(v);
                            j = j + 6;
                            proof {
                                match parse_str(s@, j as int) {
                                    Some(p) => {
                                        assert(before + (seq![v] + p.0) =~= acc@ + p.0);
                                    },
                                    None => {},
                                }
                            }
                        } else {
                            return None;
                        }
                    },
                    _ => {
                        return None;
                    },
                }
            } else {
                return None;
            }
        } else if b < 32 {
            return None;
        } else {
            acc.push(b);
            j = j + 1;
            proof {
                match parse_str(s@, j as int) {
                    Some(p) => {
                        assert(before + (seq![b] + p.0) =~= acc@ + p.0);
                    },
                    None => {},
                }
            }
        }
    }
}

/// Parses a canonical claims document; `None` exactly when the spec parser
/// rejects.
pub fn parse_claims(s: &[u8]) -> (r: Option<AuthTokenClaims>)
    ensures
        match r {
            Some(c) => spec_parse_claims(s@) == Some(c@),
            None => spec_parse_claims(s@) is None,
        },
{
    let n = s.len();
    let l1 = lit_token_id_vec();
    if !starts_with_at(s, 0, l1.as_slice()) {
        return None;
    }
    let p1 = match scan_num(s, l1.len()) {
        Some(p) => p,
        None => {
            return None;
        },
    };
    let l2 = lit_user_id_vec();
    if !starts_with_at(s, p1.1, l2.as_slice()) {
        return None;
    }
    let p2 = match scan_num(s, p1.1 + l2.len()) {
        Some(p) => p,
        None => {
            return None;
        },
    };
    let l3 = lit_email_vec();
    if !starts_with_at(s, p2.1, l3.as_slice()) {
        return None;
    }
    let p3 = match scan_str(s, p2.1 + l3.len()) {
        Some(p) => p,
        None => {
            return None;
        },
    };
    let l4 = lit_token_vec();
    if !starts_with_at(s, p3.1, l4.as_slice()) {
        return None;
    }
    let p4 = match scan_str(s, p3.1 + l4.len()) {
        Some(p) => p,
        None => {
            return None;
        },
    };
    let l5 = lit_exp_vec();
    if !starts_with_at(s, p4.1, l5.as_slice()) {
        return None;
    }
    let p5 = match scan_num(s, p4.1 + l5.len()) {
        Some(p) => p,
        None => {
            return None;
        },
    };
    if n - p5.1 == 1 && s[p5.1] == 125 {
        Some(AuthTokenClaims {
            token_id: p1.0,
            user_id: p2.0,
            email: p3.0,
            token: p4.0,
            exp: p5.0,
        })
    } else {
        None
    }
}

} // verus!
