//! Plain-text renderings that cross the boundary: decimal numbers, the
//! identifier parser, hexadecimal and base64 byte text, and the
//! diagnostic strings the entry points persist or return.
use vstd::prelude::*;
use vstd::utf8::encode_utf8;

use crate::abi::push_bytes;
use crate::state::{Coin, Config};

verus! {

/// 10 raised to the power `k`.
pub open spec fn pow10(k: nat) -> nat
    decreases k,
{
    if k == 0 {
        1
    } else {
        10 * pow10((k - 1) as nat)
    }
}

/// The decimal digits of `n` as ASCII bytes, most significant first, with
/// no sign, no leading zero and at least one digit.
pub open spec fn dec_bytes(n: nat) -> Seq<u8>
    decreases n,
{
    if n < 10 {
        seq![(48 + n) as u8]
    } else {
        dec_bytes(n / 10).push((48 + n % 10) as u8)
    }
}

/// The number a digit string stands for.
pub open spec fn dec_val(s: Seq<u8>) -> nat
    decreases s.len(),
{
    if s.len() == 0 {
        0
    } else {
        (dec_val(s.drop_last()) * 10 + (s.last() - 48)) as nat
    }
}

/// Every byte of `s` is a decimal digit.
pub open spec fn all_digits(s: Seq<u8>) -> bool {
    forall|i: int| 0 <= i < s.len() ==> 48 <= #[trigger] s[i] <= 57
}

/// The one decimal spelling of a number: digits only, and no leading
/// zero unless the number is zero itself.
pub open spec fn canonical_dec(s: Seq<u8>) -> bool {
    s.len() > 0 && all_digits(s) && (s[0] != 48 || s.len() == 1)
}

pub proof fn lemma_dec_bytes_canonical(n: nat)
    ensures
        canonical_dec(dec_bytes(n)),
        dec_bytes(n).len() >= 1,
        n >= 10 ==> dec_bytes(n)[0] != 48 && dec_bytes(n).len() >= 2,
    decreases n,
{
    if n >= 10 {
        lemma_dec_bytes_canonical(n / 10);
        let p = dec_bytes(n / 10);
        assert(dec_bytes(n) == p.push((48 + n % 10) as u8));
        assert(dec_bytes(n)[0] == p[0]);
        if n / 10 < 10 {
            assert(p == seq![(48 + n / 10) as u8]);
            assert(n / 10 >= 1);
        }
    }
}

pub proof fn lemma_dec_val_of_dec_bytes(n: nat)
    ensures
        dec_val(dec_bytes(n)) == n,
    decreases n,
{
    if n < 10 {
        let s = dec_bytes(n);
        assert(s == seq![(48 + n) as u8]);
        assert(s.len() == 1);
        assert(s.drop_last() =~= Seq::<u8>::empty());
        assert(dec_val(s.drop_last()) == 0);
        assert(s.last() == (48 + n) as u8);
        assert(dec_val(s) == (dec_val(s.drop_last()) * 10 + (s.last() - 48)) as nat);
    } else {
        let p = dec_bytes(n / 10);
        let s = dec_bytes(n);
        assert(s == p.push((48 + n % 10) as u8));
        assert(s.drop_last() =~= p);
        assert(s.last() == (48 + n % 10) as u8);
        lemma_dec_val_of_dec_bytes(n / 10);
        assert(dec_val(s) == dec_val(p) * 10 + (s.last() - 48));
        assert((n / 10) * 10 + n % 10 == n);
    }
}

/// A canonical digit string is the spelling of its own value.
pub proof fn lemma_dec_bytes_of_dec_val(s: Seq<u8>)
    requires
        canonical_dec(s),
    ensures
        dec_bytes(dec_val(s)) == s,
    decreases s.len(),
{
    if s.len() == 1 {
        assert(s.drop_last() =~= Seq::<u8>::empty());
        assert(dec_val(s.drop_last()) == 0);
        assert(s.last() == s[0]);
        assert(dec_val(s) == (s[0] - 48) as nat);
        assert(dec_bytes(dec_val(s)) =~= s);
    } else {
        let p = s.drop_last();
        assert(p[0] == s[0]);
        assert(all_digits(p)) by {
            assert(forall|i: int| 0 <= i < p.len() ==> p[i] == s[i] && 48 <= #[trigger] s[i] <= 57);
        }
        if s[0] == 48 {
            assert(false);
        }
        lemma_dec_bytes_of_dec_val(p);
        let v = dec_val(s);
        lemma_dec_val_lower_first_nonzero(p);
        assert(dec_val(p) >= 1);
        assert(v == dec_val(p) * 10 + (s.last() - 48));
        assert(v / 10 == dec_val(p) && v % 10 == (s.last() - 48)) by (nonlinear_arith)
            requires
                v == dec_val(p) * 10 + (s.last() - 48),
                48 <= s.last() <= 57,
        ;
        assert(v >= 10);
        assert(dec_bytes(v) == dec_bytes(dec_val(p)).push((48 + v % 10) as u8));
        assert(dec_bytes(v) =~= s);
    }
}

/// A digit string that does not start with zero stands for at least 1,
/// and at least its place value.
pub proof fn lemma_dec_val_lower_first_nonzero(s: Seq<u8>)
    requires
        s.len() > 0,
        all_digits(s),
        s[0] != 48,
    ensures
        dec_val(s) >= pow10((s.len() - 1) as nat),
        dec_val(s) >= 1,
    decreases s.len(),
{
    if s.len() == 1 {
        assert(pow10(0) == 1);
    } else {
        let p = s.drop_last();
        assert(p[0] == s[0]);
        assert(all_digits(p)) by {
            assert(forall|i: int| 0 <= i < p.len() ==> p[i] == s[i] && 48 <= #[trigger] s[i] <= 57);
        }
        lemma_dec_val_lower_first_nonzero(p);
        let k = (s.len() - 2) as nat;
        assert(dec_val(p) * 10 >= pow10(k) * 10) by (nonlinear_arith)
            requires
                dec_val(p) >= pow10(k),
        ;
        assert(pow10((s.len() - 1) as nat) == 10 * pow10(k));
    }
}

/// A byte string that is exactly the canonical decimal spelling of a
/// 64-bit identifier, and the identifier it spells.
pub open spec fn dec_spelling(s: Seq<u8>) -> Option<u64> {
    if exists|v: u64| dec_bytes(v as nat) == s {
        Some(choose|v: u64| dec_bytes(v as nat) == s)
    } else {
        None
    }
}

/// The four whitespace bytes the host's deserializer skips around a
/// value.
pub open spec fn json_ws_byte(b: u8) -> bool {
    b == 32 || b == 9 || b == 10 || b == 13
}

/// `s` without its leading whitespace.
pub open spec fn skip_ws_front(s: Seq<u8>) -> Seq<u8>
    decreases s.len(),
{
    if s.len() > 0 && json_ws_byte(s[0]) {
        skip_ws_front(s.drop_first())
    } else {
        s
    }
}

/// `s` without its trailing whitespace.
pub open spec fn skip_ws_back(s: Seq<u8>) -> Seq<u8>
    decreases s.len(),
{
    if s.len() > 0 && json_ws_byte(s.last()) {
        skip_ws_back(s.drop_last())
    } else {
        s
    }
}

/// What the gateway's success data must spell: the canonical decimal
/// serialization of a 64-bit identifier, surrounded by nothing but
/// whitespace, as the host's deserializer reads it.
pub open spec fn parse_dec_u64(s: Seq<u8>) -> Option<u64> {
    dec_spelling(skip_ws_back(skip_ws_front(s)))
}

/// Appends the decimal digits of `x`.
pub fn push_dec_u64(out: &mut Vec<u8>, x: u64)
    ensures
        final(out)@ == old(out)@ + dec_bytes(x as nat),
    decreases x,
{
    if x < 10 {
        out.push(48 + x as u8);
        assert(final(out)@ =~= old(out)@ + dec_bytes(x as nat));
    } else {
        push_dec_u64(out, x / 10);
        out.push(48 + (x % 10) as u8);
        assert(final(out)@ =~= old(out)@ + dec_bytes(x as nat));
    }
}

/// Appends the decimal digits of `x`.
pub fn push_dec_u128(out: &mut Vec<u8>, x: u128)
    ensures
        final(out)@ == old(out)@ + dec_bytes(x as nat),
    decreases x,
{
    if x < 10 {
        out.push(48 + x as u8);
        assert(final(out)@ =~= old(out)@ + dec_bytes(x as nat));
    } else {
        push_dec_u128(out, x / 10);
        out.push(48 + (x % 10) as u8);
        assert(final(out)@ =~= old(out)@ + dec_bytes(x as nat));
    }
}

pub proof fn lemma_pow10_20_value()
    ensures
        pow10(20) == 0x5_6bc7_5e2d_6310_0000,
{
    reveal_with_fuel(pow10, 21);
}

/// Reads a canonical decimal u64 spelling, and rejects any other byte
/// string.
fn parse_u64_digits(s: &Vec<u8>) -> (r: Option<u64>)
    ensures
        r == dec_spelling(s@),
{
    let n = s.len();
    if n == 0 || n > 20 {
        proof {
            assert(forall|v: u64| #[trigger] dec_bytes(v as nat) == s@ ==> false) by {
                assert forall|v: u64| #[trigger] dec_bytes(v as nat) == s@ implies false by {
                    lemma_dec_bytes_canonical(v as nat);
                    lemma_dec_val_of_dec_bytes(v as nat);
                    if s@.len() > 20 {
                        lemma_dec_val_lower_first_nonzero(s@);
                        lemma_pow10_20_value();
                        lemma_pow10_mono(20, (s@.len() - 1) as nat);
                    }
                }
            }
        }
        return None;
    }
    let mut acc: u128 = 0;
    let mut i: usize = 0;
    while i < n
        invariant
            i <= n,
            n == s@.len(),
            1 <= n <= 20,
            acc as nat == dec_val(s@.take(i as int)),
            all_digits(s@.take(i as int)),
            (acc as nat) < pow10(i as nat),
        decreases n - i,
    {
        let b = s[i];
        if b < 48 || b > 57 {
            proof {
                assert(s@[i as int] == b && !(48 <= b <= 57));
                assert(forall|v: u64| #[trigger] dec_bytes(v as nat) == s@ ==> false) by {
                    assert forall|v: u64| #[trigger] dec_bytes(v as nat) == s@ implies false by {
                        lemma_dec_bytes_canonical(v as nat);
                    }
                }
            }
            return None;
        }
        proof {
            lemma_pow10_mono((i + 1) as nat, 20);
            lemma_pow10_20_value();
            assert(acc * 10 + (b - 48) < pow10(i as nat) * 10) by (nonlinear_arith)
                requires
                    (acc as nat) < pow10(i as nat),
                    48 <= b <= 57,
            ;
            assert(s@.take(i + 1).drop_last() =~= s@.take(i as int));
        }
        acc = acc * 10 + (b - 48) as u128;
        i = i + 1;
    }
    assert(s@.take(n as int) =~= s@);
    if s.len() > 1 && s[0] == 48 {
        proof {
            assert(forall|v: u64| #[trigger] dec_bytes(v as nat) == s@ ==> false) by {
                assert forall|v: u64| #[trigger] dec_bytes(v as nat) == s@ implies false by {
                    lemma_dec_bytes_canonical(v as nat);
                }
            }
        }
        return None;
    }
    if acc > 0xffff_ffff_ffff_ffff {
        proof {
            assert(forall|v: u64| #[trigger] dec_bytes(v as nat) == s@ ==> false) by {
                assert forall|v: u64| #[trigger] dec_bytes(v as nat) == s@ implies false by {
                    lemma_dec_val_of_dec_bytes(v as nat);
                }
            }
        }
        return None;
    }
    let v: u64 = acc as u64;
    proof {
        lemma_dec_bytes_of_dec_val(s@);
        assert(dec_bytes(v as nat) == s@);
        let w = choose|w: u64| dec_bytes(w as nat) == s@;
        lemma_dec_val_of_dec_bytes(w as nat);
        lemma_dec_val_of_dec_bytes(v as nat);
    }
    Some(v)
}

/// Dropping a wholly-whitespace prefix is what the front trim does.
proof fn lemma_skip_ws_front_at(s: Seq<u8>, i: int)
    requires
        0 <= i <= s.len(),
        forall|k: int| 0 <= k < i ==> json_ws_byte(#[trigger] s[k]),
        i < s.len() ==> !json_ws_byte(s[i]),
    ensures
        skip_ws_front(s) == s.skip(i),
    decreases i,
{
    if i > 0 {
        assert(json_ws_byte(s[0]));
        let t = s.drop_first();
        assert(forall|k: int| 0 <= k < i - 1 ==> json_ws_byte(#[trigger] t[k]));
        if i - 1 < t.len() {
            assert(t[i - 1] == s[i]);
        }
        lemma_skip_ws_front_at(t, i - 1);
        assert(t.skip(i - 1) =~= s.skip(i));
    } else {
        assert(s.skip(0) =~= s);
    }
}

/// Dropping a wholly-whitespace suffix is what the back trim does.
proof fn lemma_skip_ws_back_at(s: Seq<u8>, j: int)
    requires
        0 <= j <= s.len(),
        forall|k: int| j <= k < s.len() ==> json_ws_byte(#[trigger] s[k]),
        j > 0 ==> !json_ws_byte(s[j - 1]),
    ensures
        skip_ws_back(s) == s.take(j),
    decreases s.len() - j,
{
    if j < s.len() {
        assert(json_ws_byte(s.last()));
        let t = s.drop_last();
        assert(forall|k: int| j <= k < t.len() ==> t[k] == s[k] && json_ws_byte(#[trigger] s[k]));
        if j > 0 {
            assert(t[j - 1] == s[j - 1]);
        }
        lemma_skip_ws_back_at(t, j);
        assert(t.take(j) =~= s.take(j));
    } else {
        if s.len() > 0 {
            assert(!json_ws_byte(s.last()));
        }
        assert(s.take(s.len() as int) =~= s);
    }
}

/// Reads a 64-bit identifier as the host's deserializer would: the
/// canonical decimal spelling, with any surrounding whitespace skipped,
/// and nothing else accepted.
pub fn parse_u64_dec(s: &Vec<u8>) -> (r: Option<u64>)
    ensures
        r == parse_dec_u64(s@),
{
    let n = s.len();
    let mut lo: usize = 0;
    while lo < n && (s[lo] == 32 || s[lo] == 9 || s[lo] == 10 || s[lo] == 13)
        invariant
            lo <= n,
            n == s@.len(),
            forall|k: int| 0 <= k < lo ==> json_ws_byte(#[trigger] s@[k]),
        decreases n - lo,
    {
        lo = lo + 1;
    }
    let mut hi: usize = n;
    while hi > lo && (s[hi - 1] == 32 || s[hi - 1] == 9 || s[hi - 1] == 10 || s[hi - 1] == 13)
        invariant
            lo <= hi <= n,
            n == s@.len(),
            forall|k: int| 0 <= k < lo ==> json_ws_byte(#[trigger] s@[k]),
            lo < n ==> !json_ws_byte(s@[lo as int]),
            forall|k: int| hi <= k < n ==> json_ws_byte(#[trigger] s@[k]),
        decreases hi,
    {
        hi = hi - 1;
    }
    let mut trimmed: Vec<u8> = Vec::new();
    crate::abi::push_byte_range(&mut trimmed, s, lo, hi);
    proof {
        lemma_skip_ws_front_at(s@, lo as int);
        let front = s@.skip(lo as int);
        assert(forall|k: int|
            hi - lo <= k < front.len() ==> front[k] == s@[k + lo] && json_ws_byte(
                #[trigger] s@[k + lo],
            ));
        if hi > lo {
            assert(front[hi - lo - 1] == s@[hi - 1]);
            assert(!json_ws_byte(s@[hi - 1]));
        }
        lemma_skip_ws_back_at(front, hi - lo);
        assert(front.take(hi - lo) =~= s@.subrange(lo as int, hi as int));
        assert(skip_ws_back(skip_ws_front(s@)) == trimmed@);
    }
    parse_u64_digits(&trimmed)
}

pub proof fn lemma_pow10_mono(k1: nat, k2: nat)
    requires
        k1 <= k2,
    ensures
        pow10(k1) <= pow10(k2),
    decreases k2,
{
    if k1 < k2 && k2 > 0 {
        lemma_pow10_mono(k1, (k2 - 1) as nat);
        lemma_pow10_pos((k2 - 1) as nat);
    }
}

pub proof fn lemma_pow10_pos(k: nat)
    ensures
        pow10(k) >= 1,
    decreases k,
{
    if k > 0 {
        lemma_pow10_pos((k - 1) as nat);
    }
}

/// The ASCII byte of a hexadecimal digit, lower case.
pub open spec fn hex_digit_byte(n: u8) -> u8
    recommends
        n < 16,
{
    if n < 10 {
        (48 + n) as u8
    } else {
        (87 + n) as u8
    }
}

/// The lower-case hexadecimal text of a byte string, as ASCII bytes.
pub open spec fn hex_text(s: Seq<u8>) -> Seq<u8> {
    Seq::new(
        2 * s.len(),
        |i: int|
            if i % 2 == 0 {
                hex_digit_byte(s[i / 2] / 16)
            } else {
                hex_digit_byte(s[i / 2] % 16)
            },
    )
}

/// Appends the hexadecimal text of `src`.
pub fn push_hex_text(out: &mut Vec<u8>, src: &Vec<u8>)
    ensures
        final(out)@ == old(out)@ + hex_text(src@),
{
    let mut i: usize = 0;
    while i < src.len()
        invariant
            i <= src@.len(),
            out@ == old(out)@ + hex_text(src@.take(i as int)),
        decreases src@.len() - i,
    {
        let b = src[i];
        let hi = b / 16;
        let lo = b % 16;
        out.push(if hi < 10 {
            48 + hi
        } else {
            87 + hi
        });
        out.push(if lo < 10 {
            48 + lo
        } else {
            87 + lo
        });
        assert(old(out)@ + hex_text(src@.take(i as int)) + seq![
            hex_digit_byte(src@[i as int] / 16),
            hex_digit_byte(src@[i as int] % 16),
        ] =~= old(out)@ + hex_text(src@.take(i + 1)));
        i = i + 1;
    }
    assert(src@.take(src@.len() as int) =~= src@);
}

/// The base64 alphabet, position `n` of it.
pub open spec fn b64_digit(n: u8) -> u8
    recommends
        n < 64,
{
    if n < 26 {
        (65 + n) as u8
    } else if n < 52 {
        (97 + (n - 26)) as u8
    } else if n < 62 {
        (48 + (n - 52)) as u8
    } else if n == 62 {
        43
    } else {
        47
    }
}

/// Standard base64 with `=` padding: three input bytes become four
/// characters; a short final group is padded.
pub open spec fn base64_text(s: Seq<u8>) -> Seq<u8>
    decreases s.len(),
{
    if s.len() == 0 {
        Seq::empty()
    } else if s.len() == 1 {
        seq![b64_digit(s[0] / 4), b64_digit(((s[0] % 4) * 16) as u8), 61u8, 61u8]
    } else if s.len() == 2 {
        seq![
            b64_digit(s[0] / 4),
            b64_digit(((s[0] % 4) * 16 + s[1] / 16) as u8),
            b64_digit(((s[1] % 16) * 4) as u8),
            61u8,
        ]
    } else {
        seq![
            b64_digit(s[0] / 4),
            b64_digit(((s[0] % 4) * 16 + s[1] / 16) as u8),
            b64_digit(((s[1] % 16) * 4 + s[2] / 64) as u8),
            b64_digit(s[2] % 64),
        ] + base64_text(s.skip(3))
    }
}

/// Whole groups in front encode independently of what follows.
proof fn lemma_base64_concat(a: Seq<u8>, b: Seq<u8>)
    requires
        a.len() % 3 == 0,
    ensures
        base64_text(a + b) == base64_text(a) + base64_text(b),
    decreases a.len(),
{
    if a.len() == 0 {
        assert(a + b =~= b);
        assert(base64_text(a) + base64_text(b) =~= base64_text(b));
    } else {
        let ab = a + b;
        assert(ab.len() >= 3);
        assert(ab[0] == a[0] && ab[1] == a[1] && ab[2] == a[2]);
        assert(ab.skip(3) =~= a.skip(3) + b);
        lemma_base64_concat(a.skip(3), b);
        if a.len() == 3 {
            assert(a.skip(3) =~= Seq::<u8>::empty());
        }
        assert(base64_text(ab) =~= base64_text(a) + base64_text(b));
    }
}

fn b64_digit_exec(n: u8) -> (r: u8)
    requires
        n < 64,
    ensures
        r == b64_digit(n),
{
    if n < 26 {
        65 + n
    } else if n < 52 {
        97 + (n - 26)
    } else if n < 62 {
        48 + (n - 52)
    } else if n == 62 {
        43
    } else {
        47
    }
}

/// Appends the base64 text of `src`.
pub fn push_base64_text(out: &mut Vec<u8>, src: &Vec<u8>)
    ensures
        final(out)@ == old(out)@ + base64_text(src@),
{
    let n = src.len();
    let mut i: usize = 0;
    while n - i >= 3
        invariant
            i <= n,
            n == src@.len(),
            i % 3 == 0,
            out@ == old(out)@ + base64_text(src@.take(i as int)),
        decreases n - i,
    {
        let b0 = src[i];
        let b1 = src[i + 1];
        let b2 = src[i + 2];
        out.push(b64_digit_exec(b0 / 4));
        out.push(b64_digit_exec((b0 % 4) * 16 + b1 / 16));
        out.push(b64_digit_exec((b1 % 16) * 4 + b2 / 64));
        out.push(b64_digit_exec(b2 % 64));
        proof {
            let pre = src@.take(i as int);
            let grp = src@.subrange(i as int, i + 3);
            assert(pre + grp =~= src@.take(i + 3));
            lemma_base64_concat(pre, grp);
            assert(grp.skip(3) =~= Seq::<u8>::empty());
            assert(base64_text(grp) == seq![
                b64_digit(grp[0] / 4),
                b64_digit(((grp[0] % 4) * 16 + grp[1] / 16) as u8),
                b64_digit(((grp[1] % 16) * 4 + grp[2] / 64) as u8),
                b64_digit(grp[2] % 64),
            ] + base64_text(grp.skip(3)));
            assert(out@ =~= old(out)@ + base64_text(src@.take(i + 3)));
        }
        i = i + 3;
    }
    if n - i == 1 {
        let b0 = src[i];
        out.push(b64_digit_exec(b0 / 4));
        out.push(b64_digit_exec((b0 % 4) * 16));
        out.push(61);
        out.push(61);
        proof {
            let pre = src@.take(i as int);
            let grp = src@.subrange(i as int, n as int);
            assert(pre + grp =~= src@);
            lemma_base64_concat(pre, grp);
            assert(out@ =~= old(out)@ + base64_text(src@));
        }
    } else if n - i == 2 {
        let b0 = src[i];
        let b1 = src[i + 1];
        out.push(b64_digit_exec(b0 / 4));
        out.push(b64_digit_exec((b0 % 4) * 16 + b1 / 16));
        out.push(b64_digit_exec((b1 % 16) * 4));
        out.push(61);
        proof {
            let pre = src@.take(i as int);
            let grp = src@.subrange(i as int, n as int);
            assert(pre + grp =~= src@);
            lemma_base64_concat(pre, grp);
            assert(out@ =~= old(out)@ + base64_text(src@));
        }
    } else {
        proof {
            let pre = src@.take(i as int);
            let grp = src@.subrange(i as int, n as int);
            assert(grp.len() == 0);
            assert(pre + grp =~= src@);
            lemma_base64_concat(pre, grp);
            assert(out@ =~= old(out)@ + base64_text(src@));
        }
    }
}

/// A JSON string literal around text whose characters need no escaping,
/// which holds of the confirmation text: an ASCII label and digits.
pub open spec fn json_quoted(t: Seq<u8>) -> Seq<u8> {
    seq![34u8] + t + seq![34u8]
}

/// Appends the UTF-8 bytes of a string slice.
pub fn push_str_bytes(out: &mut Vec<u8>, s: &str)
    ensures
        final(out)@ == old(out)@ + encode_utf8(s@),
{
    let b = s.as_bytes_vec();
    push_bytes(out, &b);
}

/// The text persisted after a successful registration.
pub open spec fn register_result_text(name: Seq<char>, owner: Seq<char>) -> Seq<u8> {
    encode_utf8("execute_register, name: "@) + encode_utf8(name) + encode_utf8(", owner: "@)
        + encode_utf8(owner)
}

/// Builds the registration confirmation text.
pub fn build_register_result_text(name: &String, owner: &String) -> (r: Vec<u8>)
    ensures
        r@ == register_result_text(name@, owner@),
{
    let mut out: Vec<u8> = Vec::new();
    push_str_bytes(&mut out, "execute_register, name: ");
    push_str_bytes(&mut out, name.as_str());
    push_str_bytes(&mut out, ", owner: ");
    push_str_bytes(&mut out, owner.as_str());
    assert(out@ =~= register_result_text(name@, owner@));
    out
}

/// The text persisted after a successful transfer. Its leading label
/// repeats the registration label, as the running system always wrote it.
pub open spec fn transfer_result_text(name: Seq<char>, to: Seq<char>) -> Seq<u8> {
    encode_utf8("execute_register, name: "@) + encode_utf8(name) + encode_utf8(", to: "@)
        + encode_utf8(to)
}

/// Builds the transfer confirmation text.
pub fn build_transfer_result_text(name: &String, to: &String) -> (r: Vec<u8>)
    ensures
        r@ == transfer_result_text(name@, to@),
{
    let mut out: Vec<u8> = Vec::new();
    push_str_bytes(&mut out, "execute_register, name: ");
    push_str_bytes(&mut out, name.as_str());
    push_str_bytes(&mut out, ", to: ");
    push_str_bytes(&mut out, to.as_str());
    assert(out@ =~= transfer_result_text(name@, to@));
    out
}

/// The acknowledgment audit text: the local identity, the request
/// identifier, the status flag and the decoded data rendered as a
/// hexadecimal byte buffer.
pub open spec fn ack_text(
    address: Seq<char>,
    request_identifier: u64,
    exec_status: bool,
    decoded: Seq<u8>,
) -> Seq<u8> {
    encode_utf8("Ack from handler contract:\naddress: "@) + encode_utf8(address) + encode_utf8(
        "\nrequest_identifier: "@,
    ) + dec_bytes(request_identifier as nat) + encode_utf8("\nexec_status:"@) + (if exec_status {
        encode_utf8("true"@)
    } else {
        encode_utf8("false"@)
    }) + encode_utf8("\nexec_data:Binary("@) + hex_text(decoded) + encode_utf8(")"@)
}

/// Builds the acknowledgment audit text.
pub fn build_ack_text(
    address: &String,
    request_identifier: u64,
    exec_status: bool,
    decoded: &Vec<u8>,
) -> (r: Vec<u8>)
    ensures
        r@ == ack_text(address@, request_identifier, exec_status, decoded@),
{
    let mut out: Vec<u8> = Vec::new();
    push_str_bytes(&mut out, "Ack from handler contract:\naddress: ");
    push_str_bytes(&mut out, address.as_str());
    push_str_bytes(&mut out, "\nrequest_identifier: ");
    push_dec_u64(&mut out, request_identifier);
    push_str_bytes(&mut out, "\nexec_status:");
    if exec_status {
        push_str_bytes(&mut out, "true");
    } else {
        push_str_bytes(&mut out, "false");
    }
    push_str_bytes(&mut out, "\nexec_data:Binary(");
    push_hex_text(&mut out, decoded);
    push_str_bytes(&mut out, ")");
    assert(out@ =~= ack_text(address@, request_identifier, exec_status, decoded@));
    out
}

/// The result text of a handled continuation.
pub open spec fn reply_result_text(request_identifier: u64) -> Seq<u8> {
    encode_utf8("handle_i_send_reply, request_identifier: "@) + dec_bytes(
        request_identifier as nat,
    )
}

/// Builds the continuation confirmation text.
pub fn build_reply_result_text(request_identifier: u64) -> (r: Vec<u8>)
    ensures
        r@ == reply_result_text(request_identifier),
{
    let mut out: Vec<u8> = Vec::new();
    push_str_bytes(&mut out, "handle_i_send_reply, request_identifier: ");
    push_dec_u64(&mut out, request_identifier);
    assert(out@ =~= reply_result_text(request_identifier));
    out
}

/// Builds the continuation confirmation as the host's result data: the
/// serialized form of the confirmation text.
pub fn build_reply_result_data(request_identifier: u64) -> (r: Vec<u8>)
    ensures
        r@ == json_quoted(reply_result_text(request_identifier)),
{
    let mut out: Vec<u8> = Vec::new();
    out.push(34);
    push_str_bytes(&mut out, "handle_i_send_reply, request_identifier: ");
    push_dec_u64(&mut out, request_identifier);
    out.push(34);
    assert(out@ =~= json_quoted(reply_result_text(request_identifier)));
    out
}

/// A priced operation rendered for the configuration dump: the amount and
/// the quoted denomination, or `None`.
pub open spec fn opt_coin_text(oc: Option<Coin>) -> Seq<u8> {
    match oc {
        None => encode_utf8("None"@),
        Some(c) => encode_utf8("Some(Coin { "@) + dec_bytes(c.amount as nat) + encode_utf8(" \""@)
            + encode_utf8(c.denom@) + encode_utf8("\" })"@),
    }
}

/// Appends one priced operation.
fn push_opt_coin_text(out: &mut Vec<u8>, oc: &Option<Coin>)
    ensures
        final(out)@ == old(out)@ + opt_coin_text(*oc),
{
    match oc {
        None => {
            push_str_bytes(out, "None");
        },
        Some(c) => {
            push_str_bytes(out, "Some(Coin { ");
            push_dec_u128(out, c.amount);
            push_str_bytes(out, " \"");
            push_str_bytes(out, c.denom.as_str());
            push_str_bytes(out, "\" })");
            assert(final(out)@ =~= old(out)@ + opt_coin_text(*oc));
        },
    }
}

/// The configuration dump returned by the read-only dispatch.
pub open spec fn config_text(config: Config) -> Seq<u8> {
    encode_utf8("Config { purchase_price: "@) + opt_coin_text(config.purchase_price) + encode_utf8(
        ", transfer_price: "@,
    ) + opt_coin_text(config.transfer_price) + encode_utf8(" }"@)
}

/// Renders the configuration.
pub fn build_config_text(config: &Config) -> (r: Vec<u8>)
    ensures
        r@ == config_text(*config),
{
    let mut out: Vec<u8> = Vec::new();
    push_str_bytes(&mut out, "Config { purchase_price: ");
    push_opt_coin_text(&mut out, &config.purchase_price);
    push_str_bytes(&mut out, ", transfer_price: ");
    push_opt_coin_text(&mut out, &config.transfer_price);
    push_str_bytes(&mut out, " }");
    assert(out@ =~= config_text(*config));
    out
}

/// The name-resolution dump returned by the read-only dispatch: the owner
/// the name resolves to, quoted, or `None`.
pub open spec fn resolve_record_text(address: Option<Seq<char>>) -> Seq<u8> {
    match address {
        None => encode_utf8("ResolveRecordResponse { address: None }"@),
        Some(a) => encode_utf8("ResolveRecordResponse { address: Some(\""@) + encode_utf8(a)
            + encode_utf8("\") }"@),
    }
}

/// A UTF-8 encoding takes at most four bytes a character.
pub proof fn lemma_encode_utf8_len(s: Seq<char>)
    ensures
        encode_utf8(s).len() <= 4 * s.len(),
    decreases s.len(),
{
    if s.len() > 0 {
        lemma_encode_utf8_len(s.drop_first());
        assert(vstd::utf8::encode_scalar(s[0] as u32).len() <= 4);
    }
}

/// A number below `10^k` needs at most `k` digits.
pub proof fn lemma_dec_bytes_len_le(n: nat, k: nat)
    requires
        k >= 1,
        n < pow10(k),
    ensures
        dec_bytes(n).len() <= k,
    decreases k,
{
    if n >= 10 {
        assert(n / 10 < pow10((k - 1) as nat)) by (nonlinear_arith)
            requires
                n < pow10(k),
                pow10(k) == 10 * pow10((k - 1) as nat),
                n >= 10,
        ;
        lemma_dec_bytes_len_le(n / 10, (k - 1) as nat);
    }
}

/// A 64-bit number needs at most 20 digits.
pub proof fn lemma_dec_bytes_len_u64(v: u64)
    ensures
        dec_bytes(v as nat).len() <= 20,
{
    lemma_pow10_20_value();
    lemma_dec_bytes_len_le(v as nat, 20);
}

/// A 128-bit number needs at most 39 digits.
pub proof fn lemma_dec_bytes_len_u128(v: u128)
    ensures
        dec_bytes(v as nat).len() <= 39,
{
    assert(pow10(39) == 0x2_f050_fe93_8943_acc4_5f65_5680_0000_0000) by {
        reveal_with_fuel(pow10, 40);
    }
    lemma_dec_bytes_len_le(v as nat, 39);
}

pub proof fn lemma_register_result_text_len(name: Seq<char>, owner: Seq<char>)
    ensures
        register_result_text(name, owner).len() <= 4 * name.len() + 4 * owner.len() + 200,
{
    reveal_strlit("execute_register, name: ");
    reveal_strlit(", owner: ");
    lemma_encode_utf8_len("execute_register, name: "@);
    lemma_encode_utf8_len(", owner: "@);
    lemma_encode_utf8_len(name);
    lemma_encode_utf8_len(owner);
}

pub proof fn lemma_transfer_result_text_len(name: Seq<char>, to: Seq<char>)
    ensures
        transfer_result_text(name, to).len() <= 4 * name.len() + 4 * to.len() + 200,
{
    reveal_strlit("execute_register, name: ");
    reveal_strlit(", to: ");
    lemma_encode_utf8_len("execute_register, name: "@);
    lemma_encode_utf8_len(", to: "@);
    lemma_encode_utf8_len(name);
    lemma_encode_utf8_len(to);
}

pub proof fn lemma_ack_text_len(
    address: Seq<char>,
    request_identifier: u64,
    exec_status: bool,
    decoded: Seq<u8>,
)
    ensures
        ack_text(address, request_identifier, exec_status, decoded).len() <= 4 * address.len() + 2
            * decoded.len() + 400,
{
    reveal_strlit("Ack from handler contract:\naddress: ");
    reveal_strlit("\nrequest_identifier: ");
    reveal_strlit("\nexec_status:");
    reveal_strlit("true");
    reveal_strlit("false");
    reveal_strlit("\nexec_data:Binary(");
    reveal_strlit(")");
    lemma_encode_utf8_len("Ack from handler contract:\naddress: "@);
    lemma_encode_utf8_len("\nrequest_identifier: "@);
    lemma_encode_utf8_len("\nexec_status:"@);
    lemma_encode_utf8_len("true"@);
    lemma_encode_utf8_len("false"@);
    lemma_encode_utf8_len("\nexec_data:Binary("@);
    lemma_encode_utf8_len(")"@);
    lemma_encode_utf8_len(address);
    lemma_dec_bytes_len_u64(request_identifier);
}

pub proof fn lemma_opt_coin_text_len(oc: Option<Coin>)
    ensures
        opt_coin_text(oc).len() <= 4 * (match oc {
            Some(c) => c.denom@.len(),
            None => 0,
        }) + 200,
{
    reveal_strlit("None");
    reveal_strlit("Some(Coin { ");
    reveal_strlit(" \"");
    reveal_strlit("\" })");
    lemma_encode_utf8_len("None"@);
    lemma_encode_utf8_len("Some(Coin { "@);
    lemma_encode_utf8_len(" \""@);
    lemma_encode_utf8_len("\" })"@);
    match oc {
        Some(c) => {
            lemma_encode_utf8_len(c.denom@);
            lemma_dec_bytes_len_u128(c.amount);
        },
        None => {},
    }
}

pub proof fn lemma_config_text_len(config: Config)
    ensures
        config_text(config).len() <= 4 * (match config.purchase_price {
            Some(c) => c.denom@.len(),
            None => 0,
        }) + 4 * (match config.transfer_price {
            Some(c) => c.denom@.len(),
            None => 0,
        }) + 600,
{
    reveal_strlit("Config { purchase_price: ");
    reveal_strlit(", transfer_price: ");
    reveal_strlit(" }");
    lemma_encode_utf8_len("Config { purchase_price: "@);
    lemma_encode_utf8_len(", transfer_price: "@);
    lemma_encode_utf8_len(" }"@);
    lemma_opt_coin_text_len(config.purchase_price);
    lemma_opt_coin_text_len(config.transfer_price);
}

pub proof fn lemma_resolve_record_text_len(address: Option<Seq<char>>)
    ensures
        resolve_record_text(address).len() <= 4 * (match address {
            Some(a) => a.len(),
            None => 0,
        }) + 200,
{
    reveal_strlit("ResolveRecordResponse { address: None }");
    reveal_strlit("ResolveRecordResponse { address: Some(\"");
    reveal_strlit("\") }");
    lemma_encode_utf8_len("ResolveRecordResponse { address: None }"@);
    lemma_encode_utf8_len("ResolveRecordResponse { address: Some(\""@);
    lemma_encode_utf8_len("\") }"@);
    match address {
        Some(a) => {
            lemma_encode_utf8_len(a);
        },
        None => {},
    }
}

/// Renders a name resolution.
pub fn build_resolve_record_text(address: &Option<String>) -> (r: Vec<u8>)
    ensures
        match address {
            None => r@ == resolve_record_text(None),
            Some(a) => r@ == resolve_record_text(Some(a@)),
        },
{
    let mut out: Vec<u8> = Vec::new();
    match address {
        None => {
            push_str_bytes(&mut out, "ResolveRecordResponse { address: None }");
        },
        Some(a) => {
            push_str_bytes(&mut out, "ResolveRecordResponse { address: Some(\"");
            push_str_bytes(&mut out, a.as_str());
            push_str_bytes(&mut out, "\") }");
            assert(out@ =~= resolve_record_text(Some(a@)));
        },
    }
    out
}

} // verus!
