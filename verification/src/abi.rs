//! Byte-level primitives of the foreign ABI wire format.
//!
//! Two layouts are produced: 32-byte big-endian words (used as offset and
//! length headers of the tuple encoding) and raw big-endian integers of a
//! chosen width (used by the packed encoding). The tuple layout places a
//! head of offset words before the dynamic payloads; each dynamic payload
//! is a length word followed by its bytes, zero-padded to a 32-byte
//! boundary.
use vstd::prelude::*;

verus! {

/// 256 raised to the power `k`: the number of values a `k`-byte field holds.
pub open spec fn pow256(k: nat) -> nat
    decreases k,
{
    if k == 0 {
        1
    } else {
        256 * pow256((k - 1) as nat)
    }
}

/// The `len` low-order bytes of `n`, most significant first.
pub open spec fn be_bytes(n: nat, len: nat) -> Seq<u8>
    decreases len,
{
    if len == 0 {
        Seq::empty()
    } else {
        be_bytes(n / 256, (len - 1) as nat).push((n % 256) as u8)
    }
}

/// The integer a big-endian byte string stands for.
pub open spec fn be_val(s: Seq<u8>) -> nat
    decreases s.len(),
{
    if s.len() == 0 {
        0
    } else {
        (be_val(s.drop_last()) * 256 + s.last()) as nat
    }
}

/// A 32-byte header word of the tuple encoding.
pub open spec fn abi_word(n: nat) -> Seq<u8> {
    be_bytes(n, 32)
}

/// `len` rounded up to a multiple of 32.
pub open spec fn pad32(len: nat) -> nat {
    ((len + 31) / 32) * 32
}

/// `n` zero bytes.
pub open spec fn zero_bytes(n: nat) -> Seq<u8> {
    Seq::new(n, |i: int| 0u8)
}

/// A dynamic payload: its length word, its bytes, and zero padding up to a
/// word boundary.
pub open spec fn abi_dynamic(data: Seq<u8>) -> Seq<u8> {
    abi_word(data.len()) + data + zero_bytes((pad32(data.len()) - data.len()) as nat)
}

/// The tuple encoding of a single dynamic element: one offset word, then
/// the payload.
pub open spec fn abi_single_dynamic(data: Seq<u8>) -> Seq<u8> {
    abi_word(32) + abi_dynamic(data)
}

/// The tuple encoding of two dynamic elements: two offset words, then the
/// payloads in order.
pub open spec fn abi_two_dynamic(first: Seq<u8>, second: Seq<u8>) -> Seq<u8> {
    abi_word(64) + abi_word(64 + abi_dynamic(first).len()) + abi_dynamic(first) + abi_dynamic(
        second,
    )
}

/// What decoding a single dynamic element yields: the payload bytes that
/// the offset and length words of `buf` designate, or nothing when the
/// buffer does not carry such a layout.
pub open spec fn abi_decode_single(buf: Seq<u8>) -> Option<Seq<u8>> {
    if buf.len() < 32 {
        None
    } else {
        let off = be_val(buf.subrange(0, 32)) as int;
        if off + 32 <= buf.len() {
            let len = be_val(buf.subrange(off, off + 32)) as int;
            if off + 32 + len <= buf.len() {
                Some(buf.subrange(off + 32, off + 32 + len))
            } else {
                None
            }
        } else {
            None
        }
    }
}

pub proof fn lemma_pow256_pos(k: nat)
    ensures
        pow256(k) >= 1,
    decreases k,
{
    if k > 0 {
        lemma_pow256_pos((k - 1) as nat);
    }
}

pub proof fn lemma_pow256_mono(k1: nat, k2: nat)
    requires
        k1 <= k2,
    ensures
        pow256(k1) <= pow256(k2),
    decreases k2,
{
    if k1 < k2 && k2 > 0 {
        lemma_pow256_mono(k1, (k2 - 1) as nat);
        lemma_pow256_pos((k2 - 1) as nat);
    }
}

pub proof fn lemma_be_bytes_len(n: nat, len: nat)
    ensures
        be_bytes(n, len).len() == len,
    decreases len,
{
    if len > 0 {
        lemma_be_bytes_len(n / 256, (len - 1) as nat);
    }
}

/// Reading back the bytes of `n` yields `n`, as long as `n` fits the width.
pub proof fn lemma_be_val_of_be_bytes(n: nat, len: nat)
    requires
        n < pow256(len),
    ensures
        be_val(be_bytes(n, len)) == n,
    decreases len,
{
    if len > 0 {
        let prefix = be_bytes(n / 256, (len - 1) as nat);
        lemma_be_bytes_len(n / 256, (len - 1) as nat);
        assert(be_bytes(n, len).drop_last() =~= prefix);
        lemma_be_val_of_be_bytes(n / 256, (len - 1) as nat);
    }
}

/// Truncation is reduction: keeping the low `len` bytes of a value keeps
/// exactly its remainder modulo 256 to the `len`, and silently drops the
/// rest.
pub proof fn lemma_be_bytes_truncates(n: nat, len: nat)
    ensures
        be_bytes(n, len) == be_bytes(n % pow256(len), len),
    decreases len,
{
    if len > 0 {
        let p = pow256(len);
        let p1 = pow256((len - 1) as nat);
        lemma_pow256_pos((len - 1) as nat);
        assert(p == 256 * p1);
        let q = ((n as int) / 256) % (p1 as int);
        let r = (n as int) % 256;
        vstd::arithmetic::div_mod::lemma_breakdown(n as int, 256, p1 as int);
        assert((n as int) % (256 * (p1 as int)) == 256 * q + r);
        vstd::arithmetic::div_mod::lemma_fundamental_div_mod_converse_mod(
            ((n % p) as int),
            256,
            q,
            r,
        );
        vstd::arithmetic::div_mod::lemma_fundamental_div_mod_converse_div(
            ((n % p) as int),
            256,
            q,
            r,
        );
        assert((n % p) % 256 == n % 256);
        assert((n % p) / 256 == (n / 256) % p1);
        lemma_be_bytes_truncates(n / 256, (len - 1) as nat);
        assert(be_bytes(n, len) == be_bytes(n / 256, (len - 1) as nat).push((n % 256) as u8));
        assert(be_bytes(n % p, len) == be_bytes((n % p) / 256, (len - 1) as nat).push(
            ((n % p) % 256) as u8,
        ));
    }
}

/// A byte string's value is below 256 to its length.
pub proof fn lemma_be_val_upper(s: Seq<u8>)
    ensures
        be_val(s) < pow256(s.len()),
    decreases s.len(),
{
    if s.len() > 0 {
        lemma_be_val_upper(s.drop_last());
    }
}

/// A nonzero byte at position `i` forces the value up to at least its place
/// value.
pub proof fn lemma_be_val_lower(s: Seq<u8>, i: int)
    requires
        0 <= i < s.len(),
    ensures
        be_val(s) >= s[i] * pow256((s.len() - 1 - i) as nat),
    decreases s.len(),
{
    if i == s.len() - 1 {
        assert(be_val(s) == be_val(s.drop_last()) * 256 + s.last());
        assert(pow256((s.len() - 1 - i) as nat) == 1);
        assert(s[i] * 1 == s[i]) by (nonlinear_arith);
    } else {
        lemma_be_val_lower(s.drop_last(), i);
        assert(s.drop_last()[i] == s[i]);
        let k = (s.len() - 2 - i) as nat;
        assert(be_val(s.drop_last()) >= s[i] * pow256(k));
        assert(pow256((s.len() - 1 - i) as nat) == 256 * pow256(k));
        assert(be_val(s) == be_val(s.drop_last()) * 256 + s.last());
        assert(be_val(s.drop_last()) * 256 >= s[i] * (256 * pow256(k))) by (nonlinear_arith)
            requires
                be_val(s.drop_last()) >= s[i] * pow256(k),
        ;
    }
}

/// Zero bytes in front do not change the value.
pub proof fn lemma_be_val_zero_prefix(z: Seq<u8>, t: Seq<u8>)
    requires
        forall|i: int| 0 <= i < z.len() ==> z[i] == 0,
    ensures
        be_val(z + t) == be_val(t),
    decreases t.len(),
{
    if t.len() == 0 {
        lemma_be_val_all_zero(z + t);
    } else {
        assert((z + t).drop_last() =~= z + t.drop_last());
        lemma_be_val_zero_prefix(z, t.drop_last());
        assert((z + t).last() == t.last());
    }
}

pub proof fn lemma_be_val_all_zero(s: Seq<u8>)
    requires
        forall|i: int| 0 <= i < s.len() ==> s[i] == 0,
    ensures
        be_val(s) == 0,
    decreases s.len(),
{
    if s.len() > 0 {
        lemma_be_val_all_zero(s.drop_last());
    }
}

/// 256^8 written out, so that a value with a nonzero byte among the first
/// 24 of a word is seen to exceed what fits in 64 bits.
pub proof fn lemma_pow256_8_value()
    ensures
        pow256(8) == 0x1_0000_0000_0000_0000,
{
    reveal_with_fuel(pow256, 9);
}

/// Appends the `len` low-order bytes of `x`, most significant first.
pub fn push_be_u64(out: &mut Vec<u8>, x: u64, len: usize)
    ensures
        final(out)@ == old(out)@ + be_bytes(x as nat, len as nat),
    decreases len,
{
    if len == 0 {
        assert(final(out)@ =~= old(out)@ + be_bytes(x as nat, 0));
    } else {
        push_be_u64(out, x / 256, len - 1);
        out.push((x % 256) as u8);
        assert(final(out)@ =~= old(out)@ + be_bytes(x as nat, len as nat));
    }
}

/// Appends the `len` low-order bytes of `x`, most significant first.
pub fn push_be_u128(out: &mut Vec<u8>, x: u128, len: usize)
    ensures
        final(out)@ == old(out)@ + be_bytes(x as nat, len as nat),
    decreases len,
{
    if len == 0 {
        assert(final(out)@ =~= old(out)@ + be_bytes(x as nat, 0));
    } else {
        push_be_u128(out, x / 256, len - 1);
        out.push((x % 256) as u8);
        assert(final(out)@ =~= old(out)@ + be_bytes(x as nat, len as nat));
    }
}

/// Appends a copy of `src`.
pub fn push_bytes(out: &mut Vec<u8>, src: &Vec<u8>)
    ensures
        final(out)@ == old(out)@ + src@,
{
    let mut i: usize = 0;
    while i < src.len()
        invariant
            i <= src.len(),
            out@ == old(out)@ + src@.take(i as int),
        decreases src.len() - i,
    {
        out.push(src[i]);
        assert(old(out)@ + src@.take(i as int) + seq![src@[i as int]] =~= old(out)@ + src@.take(
            i + 1,
        ));
        i = i + 1;
    }
    assert(src@.take(src@.len() as int) =~= src@);
}

/// A copy of a byte buffer.
pub fn clone_bytes(src: &Vec<u8>) -> (r: Vec<u8>)
    ensures
        r@ == src@,
{
    let mut out: Vec<u8> = Vec::new();
    push_bytes(&mut out, src);
    assert(out@ =~= src@);
    out
}

/// Appends a range of `src`.
pub fn push_byte_range(out: &mut Vec<u8>, src: &Vec<u8>, from: usize, to: usize)
    requires
        from <= to <= src@.len(),
    ensures
        final(out)@ == old(out)@ + src@.subrange(from as int, to as int),
{
    let mut i: usize = from;
    while i < to
        invariant
            from <= i <= to <= src@.len(),
            out@ == old(out)@ + src@.subrange(from as int, i as int),
        decreases to - i,
    {
        out.push(src[i]);
        assert(old(out)@ + src@.subrange(from as int, i as int) + seq![src@[i as int]] =~= old(
            out,
        )@ + src@.subrange(from as int, i + 1));
        i = i + 1;
    }
}

/// Appends `n` zero bytes.
pub fn push_zero_bytes(out: &mut Vec<u8>, n: usize)
    ensures
        final(out)@ == old(out)@ + zero_bytes(n as nat),
{
    let mut i: usize = 0;
    while i < n
        invariant
            i <= n,
            out@ == old(out)@ + zero_bytes(i as nat),
        decreases n - i,
    {
        out.push(0u8);
        assert(old(out)@ + zero_bytes(i as nat) + seq![0u8] =~= old(out)@ + zero_bytes(
            (i + 1) as nat,
        ));
        i = i + 1;
    }
}

/// Appends a dynamic payload: length word, bytes, zero padding.
pub fn push_dynamic(out: &mut Vec<u8>, data: &Vec<u8>)
    requires
        data@.len() + 31 <= usize::MAX,
    ensures
        final(out)@ == old(out)@ + abi_dynamic(data@),
{
    proof {
        lemma_pow256_8_value();
        lemma_pow256_mono(8, 32);
    }
    push_be_u64(out, data.len() as u64, 32);
    push_bytes(out, data);
    let pad: usize = (data.len() + 31) / 32 * 32 - data.len();
    push_zero_bytes(out, pad);
    assert(final(out)@ =~= old(out)@ + abi_dynamic(data@));
}

/// The tuple encoding of one dynamic bytes element.
pub fn encode_single_dynamic(data: &Vec<u8>) -> (r: Vec<u8>)
    requires
        data@.len() + 100 <= usize::MAX,
    ensures
        r@ == abi_single_dynamic(data@),
{
    let mut out: Vec<u8> = Vec::new();
    proof {
        lemma_pow256_8_value();
        lemma_pow256_mono(8, 32);
    }
    push_be_u64(&mut out, 32, 32);
    push_dynamic(&mut out, data);
    assert(out@ =~= abi_single_dynamic(data@));
    out
}

/// The tuple encoding of two dynamic elements.
pub fn encode_two_dynamic(first: &Vec<u8>, second: &Vec<u8>) -> (r: Vec<u8>)
    requires
        first@.len() + second@.len() + 200 <= usize::MAX,
    ensures
        r@ == abi_two_dynamic(first@, second@),
{
    let mut out: Vec<u8> = Vec::new();
    proof {
        lemma_pow256_8_value();
        lemma_pow256_mono(8, 32);
        lemma_be_bytes_len(first@.len(), 32);
    }
    push_be_u64(&mut out, 64, 32);
    let first_padded: usize = 32 + (first.len() + 31) / 32 * 32;
    push_be_u64(&mut out, (64 + first_padded) as u64, 32);
    push_dynamic(&mut out, first);
    push_dynamic(&mut out, second);
    assert(abi_dynamic(first@).len() == first_padded) by {
        lemma_be_bytes_len(first@.len(), 32);
    }
    assert(out@ =~= abi_two_dynamic(first@, second@));
    out
}

/// Reads the 32-byte word at `pos` as an integer, or nothing when the
/// value does not fit in 64 bits.
pub fn read_word_u64(buf: &Vec<u8>, pos: usize) -> (r: Option<u64>)
    requires
        pos + 32 <= buf@.len(),
    ensures
        match r {
            Some(v) => v as nat == be_val(buf@.subrange(pos as int, pos + 32)),
            None => be_val(buf@.subrange(pos as int, pos + 32)) >= pow256(8),
        },
{
    let n: usize = buf.len();
    let ghost word: Seq<u8> = buf@.subrange(pos as int, pos + 32);
    let mut i: usize = 0;
    while i < 24
        invariant
            i <= 24,
            n == buf@.len(),
            pos + 32 <= buf@.len(),
            word == buf@.subrange(pos as int, pos + 32),
            forall|j: int| 0 <= j < i ==> word[j] == 0,
        decreases 24 - i,
    {
        if buf[pos + i] != 0 {
            proof {
                lemma_be_val_lower(word, i as int);
                lemma_pow256_mono(8, (31 - i) as nat);
                lemma_pow256_pos((31 - i) as nat);
                assert(word[i as int] * pow256((31 - i) as nat) >= 1 * pow256((31 - i) as nat))
                    by (nonlinear_arith)
                    requires
                        word[i as int] >= 1,
                        pow256((31 - i) as nat) >= 1,
                ;
            }
            return None;
        }
        i = i + 1;
    }
    let mut acc: u64 = 0;
    let mut j: usize = 0;
    while j < 8
        invariant
            j <= 8,
            n == buf@.len(),
            pos + 32 <= buf@.len(),
            word == buf@.subrange(pos as int, pos + 32),
            acc as nat == be_val(word.subrange(24, 24 + j as int)),
            (acc as nat) < pow256(j as nat),
        decreases 8 - j,
    {
        proof {
            lemma_pow256_8_value();
            lemma_pow256_mono(j as nat, 7);
            reveal_with_fuel(pow256, 9);
            assert(word.subrange(24, 24 + (j + 1) as int).drop_last() =~= word.subrange(
                24,
                24 + j as int,
            ));
        }
        acc = acc * 256 + (buf[pos + 24 + j] as u64);
        j = j + 1;
    }
    proof {
        let zeros = word.subrange(0, 24);
        let tail = word.subrange(24, 32);
        assert(word =~= zeros + tail);
        lemma_be_val_zero_prefix(zeros, tail);
    }
    Some(acc)
}

/// Decodes a buffer that carries a single dynamic element, returning its
/// payload bytes.
pub fn decode_single_dynamic(buf: &Vec<u8>) -> (r: Option<Vec<u8>>)
    ensures
        match r {
            Some(v) => abi_decode_single(buf@) == Some(v@),
            None => abi_decode_single(buf@) is None,
        },
{
    if buf.len() < 32 {
        return None;
    }
    let ghost g_off: nat = be_val(buf@.subrange(0, 32));
    proof {
        lemma_pow256_8_value();
    }
    let off: u64 = match read_word_u64(buf, 0) {
        Some(v) => v,
        None => {
            proof {
                assert(usize::MAX < pow256(8));
            }
            return None;
        },
    };
    if off > (usize::MAX - 32) as u64 || (off + 32) as usize > buf.len() {
        return None;
    }
    let off_us: usize = off as usize;
    let ghost g_len: nat = be_val(buf@.subrange(off_us as int, off_us + 32));
    let len: u64 = match read_word_u64(buf, off_us) {
        Some(v) => v,
        None => {
            proof {
                assert(usize::MAX < pow256(8));
            }
            return None;
        },
    };
    if len > (usize::MAX - 32) as u64 - off || (off + 32 + len) as usize > buf.len() {
        return None;
    }
    let len_us: usize = len as usize;
    let mut out: Vec<u8> = Vec::new();
    push_byte_range(&mut out, buf, off_us + 32, off_us + 32 + len_us);
    Some(out)
}

/// Decoding inverts encoding: the payload of a single-dynamic-element
/// buffer comes back exactly.
pub proof fn lemma_abi_roundtrip(data: Seq<u8>)
    requires
        data.len() < pow256(8),
    ensures
        abi_decode_single(abi_single_dynamic(data)) == Some(data),
{
    let buf = abi_single_dynamic(data);
    lemma_be_bytes_len(32, 32);
    lemma_be_bytes_len(data.len(), 32);
    lemma_pow256_8_value();
    lemma_pow256_mono(8, 32);
    assert(buf.subrange(0, 32) =~= abi_word(32));
    lemma_be_val_of_be_bytes(32, 32);
    assert(be_val(buf.subrange(0, 32)) == 32);
    assert(buf.subrange(32, 64) =~= abi_word(data.len()));
    lemma_be_val_of_be_bytes(data.len(), 32);
    assert(be_val(buf.subrange(32, 64)) == data.len());
    assert(buf.subrange(64, 64 + data.len() as int) =~= data);
}

} // verus!
