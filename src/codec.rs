use vstd::prelude::*;
use vstd::arithmetic::div_mod::{lemma_fundamental_div_mod_converse, lemma_mod_mod};
use vstd::arithmetic::power2::{lemma2_to64, lemma2_to64_rest, lemma_pow2_adds, lemma_pow2_pos, lemma_pow2_unfold, pow2};
use vstd::utf8::{decode_utf8, encode_utf8, encode_utf8_decode_utf8, encode_utf8_valid_utf8, valid_utf8};

use crate::error::ComponentPackageError;

verus! {

/// The `k` little-endian base-256 digits of `v`.
pub open spec fn le_bytes(v: nat, k: nat) -> Seq<u8>
    decreases k,
{
    if k == 0 {
        Seq::empty()
    } else {
        seq![(v % 256) as u8] + le_bytes(v / 256, (k - 1) as nat)
    }
}

/// The number whose little-endian base-256 digits are `s`.
pub open spec fn le_nat(s: Seq<u8>) -> nat
    decreases s.len(),
{
    if s.len() == 0 {
        0
    } else {
        s[0] as nat + 256 * le_nat(s.drop_first())
    }
}

/// How many bytes the variable-length encoding of `n` takes: one per seven bits, nine above
/// 56 bits.
pub open spec fn vint_width(n: nat) -> nat {
    if n < 0x80 {
        1
    } else if n < 0x4000 {
        2
    } else if n < 0x20_0000 {
        3
    } else if n < 0x1000_0000 {
        4
    } else if n < 0x8_0000_0000 {
        5
    } else if n < 0x400_0000_0000 {
        6
    } else if n < 0x2_0000_0000_0000 {
        7
    } else if n < 0x100_0000_0000_0000 {
        8
    } else {
        9
    }
}

/// The variable-length encoding of a length `n`: in `w` bytes, `n` shifted left by `w` with a
/// marker bit at `w - 1`, little-endian; in nine bytes, a zero byte and then `n` in eight.
pub open spec fn vint_bytes(n: nat) -> Seq<u8> {
    let w = vint_width(n);
    if w == 9 {
        seq![0u8] + le_bytes(n, 8)
    } else {
        le_bytes(n * pow2(w) + pow2((w - 1) as nat), w)
    }
}

/// How many bytes a variable-length number takes, read from its first byte: one more than the
/// byte's trailing zeros, nine for a zero byte.
pub open spec fn prefix_width(b: u8) -> nat {
    if b % 2 == 1 {
        1
    } else if (b / 2) % 2 == 1 {
        2
    } else if (b / 4) % 2 == 1 {
        3
    } else if (b / 8) % 2 == 1 {
        4
    } else if (b / 16) % 2 == 1 {
        5
    } else if (b / 32) % 2 == 1 {
        6
    } else if (b / 64) % 2 == 1 {
        7
    } else if (b / 128) % 2 == 1 {
        8
    } else {
        9
    }
}

/// The variable-length number at the start of `b`, and how many bytes it takes.
pub open spec fn read_prefix(b: Seq<u8>) -> Option<(nat, nat)> {
    if b.len() == 0 {
        None
    } else {
        let w = prefix_width(b[0]);
        if b.len() < w {
            None
        } else if w == 9 {
            Some((le_nat(b.subrange(1, 9)), 9))
        } else {
            Some((le_nat(b.take(w as int)) / pow2(w), w))
        }
    }
}

/// The bytes of a package: the metadata text's UTF-8 length as a variable-length number, the
/// text's UTF-8 bytes, then the library's own encoding.
pub open spec fn package_bytes(text: Seq<char>, library: Seq<u8>) -> Seq<u8> {
    vint_bytes(encode_utf8(text).len()) + encode_utf8(text) + library
}

/// The metadata text's bytes and the library's bytes that `b` holds, if it is laid out as a
/// package.
pub open spec fn split_package(b: Seq<u8>) -> Option<(Seq<u8>, Seq<u8>)> {
    match read_prefix(b) {
        None => None,
        Some((n, w)) => if w + n <= b.len() {
            Some((b.subrange(w as int, (w + n) as int), b.subrange((w + n) as int, b.len() as int)))
        } else {
            None
        },
    }
}

proof fn lemma_le_bytes_len(v: nat, k: nat)
    ensures
        le_bytes(v, k).len() == k,
    decreases k,
{
    if k > 0 {
        lemma_le_bytes_len(v / 256, (k - 1) as nat);
    }
}

proof fn lemma_le_round_trip(v: nat, k: nat)
    requires
        v < pow2(8 * k),
    ensures
        le_nat(le_bytes(v, k)) == v,
    decreases k,
{
    lemma_le_bytes_len(v, k);
    if k > 0 {
        lemma2_to64();
        lemma_pow2_adds(8, (8 * k - 8) as nat);
        assert(8 * k == 8 + (8 * k - 8)) by (nonlinear_arith)
            requires
                k > 0,
        ;
        let p = pow2((8 * k - 8) as nat);
        assert(v / 256 < p) by (nonlinear_arith)
            requires
                v < 256 * p,
        ;
        assert(8 * ((k - 1) as nat) == 8 * k - 8) by (nonlinear_arith)
            requires
                k > 0,
        ;
        lemma_le_round_trip(v / 256, (k - 1) as nat);
        assert(le_bytes(v, k).drop_first() =~= le_bytes(v / 256, (k - 1) as nat));
    } else {
        lemma2_to64();
    }
}

proof fn lemma_le_nat_bound(s: Seq<u8>)
    ensures
        le_nat(s) < pow2(8 * s.len()),
    decreases s.len(),
{
    lemma2_to64();
    if s.len() > 0 {
        lemma_le_nat_bound(s.drop_first());
        let k = s.len();
        lemma_pow2_adds(8, (8 * k - 8) as nat);
        assert(8 * k == 8 + (8 * k - 8)) by (nonlinear_arith)
            requires
                k > 0,
        ;
        let p = pow2((8 * k - 8) as nat);
        let r = le_nat(s.drop_first());
        assert(s[0] as nat + 256 * r < 256 * p) by (nonlinear_arith)
            requires
                r < p,
                s[0] < 256,
        ;
    }
}

/// Reading a variable-length number back gives the number written, and its width.
proof fn lemma_read_vint(n: nat, rest: Seq<u8>)
    requires
        n < pow2(64),
    ensures
        read_prefix(vint_bytes(n) + rest) == Some((n, vint_width(n))),
        vint_bytes(n).len() == vint_width(n),
{
    lemma2_to64();
    lemma2_to64_rest();
    let w = vint_width(n);
    let b = vint_bytes(n) + rest;
    if w == 9 {
        lemma_le_bytes_len(n, 8);
        lemma_le_round_trip(n, 8);
        assert(b.subrange(1, 9) =~= le_bytes(n, 8));
    } else {
        let v = n * pow2(w) + pow2((w - 1) as nat);
        lemma_le_bytes_len(v, w);
        assert(v < pow2(8 * w) && v / pow2(w) == n && prefix_width((v % 256) as u8) == w) by {
            lemma_vint_digit(n);
        }
        lemma_le_round_trip(v, w);
        assert(b[0] == (v % 256) as u8);
        assert(b.take(w as int) =~= le_bytes(v, w));
    }
}

proof fn lemma_vint_digit(n: nat)
    requires
        vint_width(n) < 9,
    ensures
        ({
            let w = vint_width(n);
            let v = n * pow2(w) + pow2((w - 1) as nat);
            v < pow2(8 * w) && v / pow2(w) == n && prefix_width((v % 256) as u8) == w
        }),
{
    lemma2_to64();
    lemma2_to64_rest();
    let w = vint_width(n);
    let p = pow2(w);
    let h = pow2((w - 1) as nat);
    let v = n * p + h;
    lemma_pow2_unfold(w);
    lemma_pow2_pos((w - 1) as nat);
    lemma_fundamental_div_mod_converse(v as int, p as int, n as int, h as int);
    lemma_pow2_adds(w, (8 - w) as nat);
    lemma_pow2_pos((8 - w) as nat);
    lemma_mod_mod(v as int, p as int, pow2((8 - w) as nat) as int);
    let b = (v % 256) as u8;
    assert(b as nat == v % 256);
    assert((b as nat) % p == h);
    if w == 1 {
        assert(p == 2 && h == 1 && pow2(8 * w) == 0x100);
    } else if w == 2 {
        assert(p == 4 && h == 2 && pow2(8 * w) == 0x1_0000);
    } else if w == 3 {
        assert(p == 8 && h == 4 && pow2(8 * w) == 0x100_0000);
    } else if w == 4 {
        assert(p == 16 && h == 8 && pow2(8 * w) == 0x1_0000_0000);
    } else if w == 5 {
        assert(p == 32 && h == 16 && pow2(8 * w) == 0x100_0000_0000);
    } else if w == 6 {
        assert(p == 64 && h == 32 && pow2(8 * w) == 0x1_0000_0000_0000);
    } else if w == 7 {
        assert(p == 128 && h == 64 && pow2(8 * w) == 0x100_0000_0000_0000);
    } else {
        assert(p == 256 && h == 128 && pow2(8 * w) == 0x1_0000_0000_0000_0000);
    }
}

/// Splitting the bytes written for a metadata text and a library gives back that text's UTF-8
/// bytes, which decode to the text, and that library.
pub proof fn lemma_package_bytes_round_trip(text: Seq<char>, library: Seq<u8>)
    requires
        encode_utf8(text).len() < pow2(64),
    ensures
        split_package(package_bytes(text, library)) == Some((encode_utf8(text), library)),
        valid_utf8(encode_utf8(text)),
        decode_utf8(encode_utf8(text)) == text,
{
    let e = encode_utf8(text);
    let b = package_bytes(text, library);
    lemma_read_vint(e.len(), e + library);
    assert(b =~= vint_bytes(e.len()) + (e + library));
    let w = vint_width(e.len());
    assert(b.subrange(w as int, (w + e.len()) as int) =~= e);
    assert(b.subrange((w + e.len()) as int, b.len() as int) =~= library);
    encode_utf8_valid_utf8(text);
    encode_utf8_decode_utf8(text);
}

/// Relies on `String::from_utf8`: it accepts exactly the well-formed UTF-8 byte strings, and
/// decodes them.
#[verifier::external_body]
fn string_from_utf8(bytes: Vec<u8>) -> (r: Option<String>)
    ensures
        r is Some <==> valid_utf8(bytes@),
        r matches Some(s) ==> s@ == decode_utf8(bytes@),
{
    String::from_utf8(bytes).ok()
}

/// Copies `b[from..to]`.
fn copy_range(b: &[u8], from: usize, to: usize) -> (r: Vec<u8>)
    requires
        from <= to <= b@.len(),
    ensures
        r@ == b@.subrange(from as int, to as int),
{
    let mut out: Vec<u8> = Vec::new();
    let mut i: usize = from;
    while i < to
        invariant
            from <= i <= to <= b@.len(),
            out@ == b@.subrange(from as int, i as int),
        decreases to - i,
    {
        out.push(b[i]);
        proof {
            assert(b@.subrange(from as int, i + 1) =~= b@.subrange(from as int, i as int).push(b@[i as int]));
        }
        i = i + 1;
    }
    out
}

/// Appends the `k` little-endian base-256 digits of `v`.
fn push_le(out: &mut Vec<u8>, v: u64, k: usize)
    ensures
        final(out)@ == old(out)@ + le_bytes(v as nat, k as nat),
{
    let ghost start = old(out)@;
    let mut cur: u64 = v;
    let mut i: usize = 0;
    proof {
        assert(start =~= start + Seq::<u8>::empty());
    }
    while i < k
        invariant
            i <= k,
            out@ + le_bytes(cur as nat, (k - i) as nat) == start + le_bytes(v as nat, k as nat),
        decreases k - i,
    {
        let ghost before = out@;
        out.push((cur % 256) as u8);
        proof {
            assert(le_bytes(cur as nat, (k - i) as nat) == seq![(cur % 256) as u8] + le_bytes(
                (cur / 256) as nat,
                (k - i - 1) as nat,
            ));
            assert(out@ + le_bytes((cur / 256) as nat, (k - i - 1) as nat) =~= before + le_bytes(
                cur as nat,
                (k - i) as nat,
            ));
        }
        cur = cur / 256;
        i = i + 1;
    }
    proof {
        assert(le_bytes(cur as nat, 0) =~= Seq::<u8>::empty());
        assert(out@ =~= out@ + le_bytes(cur as nat, 0));
    }
}

/// Appends the variable-length encoding of `n`.
fn push_vint(out: &mut Vec<u8>, n: u64)
    ensures
        final(out)@ == old(out)@ + vint_bytes(n as nat),
{
    proof {
        lemma2_to64();
    }
    if n < 0x80 {
        push_le(out, n * 2 + 1, 1);
    } else if n < 0x4000 {
        push_le(out, n * 4 + 2, 2);
    } else if n < 0x20_0000 {
        push_le(out, n * 8 + 4, 3);
    } else if n < 0x1000_0000 {
        push_le(out, n * 16 + 8, 4);
    } else if n < 0x8_0000_0000 {
        push_le(out, n * 32 + 16, 5);
    } else if n < 0x400_0000_0000 {
        push_le(out, n * 64 + 32, 6);
    } else if n < 0x2_0000_0000_0000 {
        push_le(out, n * 128 + 64, 7);
    } else if n < 0x100_0000_0000_0000 {
        push_le(out, n * 256 + 128, 8);
    } else {
        let ghost before = out@;
        out.push(0);
        push_le(out, n, 8);
        proof {
            assert(out@ =~= before + (seq![0u8] + le_bytes(n as nat, 8)));
        }
    }
}

/// The width of the variable-length number whose first byte is `b`.
fn width_of(b: u8) -> (r: usize)
    ensures
        r as nat == prefix_width(b),
        1 <= r <= 9,
{
    if b % 2 == 1 {
        1
    } else if (b / 2) % 2 == 1 {
        2
    } else if (b / 4) % 2 == 1 {
        3
    } else if (b / 8) % 2 == 1 {
        4
    } else if (b / 16) % 2 == 1 {
        5
    } else if (b / 32) % 2 == 1 {
        6
    } else if (b / 64) % 2 == 1 {
        7
    } else if (b / 128) % 2 == 1 {
        8
    } else {
        9
    }
}

/// The number whose little-endian digits are `b[from..to]`.
fn read_le(b: &[u8], from: usize, to: usize) -> (r: u64)
    requires
        from <= to <= b@.len(),
        to - from <= 8,
    ensures
        r as nat == le_nat(b@.subrange(from as int, to as int)),
{
    let mut acc: u64 = 0;
    let mut i: usize = to;
    proof {
        assert(b@.subrange(to as int, to as int) =~= Seq::<u8>::empty());
    }
    while i > from
        invariant
            from <= i <= to <= b@.len(),
            to - from <= 8,
            acc as nat == le_nat(b@.subrange(i as int, to as int)),
        decreases i - from,
    {
        let ghost tail = b@.subrange(i as int, to as int);
        proof {
            lemma_le_nat_bound(tail);
            lemma2_to64();
            let k = tail.len();
            lemma_pow2_adds(8 * k, 8);
            if k < 7 {
                vstd::arithmetic::power2::lemma_pow2_strictly_increases(8 * k + 8, 64);
            }
            assert(acc * 256 + 255 < pow2(64)) by (nonlinear_arith)
                requires
                    acc < pow2(8 * k),
                    pow2(8 * k + 8) == pow2(8 * k) * 256,
                    pow2(8 * k + 8) <= pow2(64),
            ;
            assert(b@.subrange(i - 1, to as int).drop_first() =~= tail);
        }
        acc = acc * 256 + b[i - 1] as u64;
        i = i - 1;
    }
    acc
}

/// Two to the power `w`, for a width below nine.
fn pow2_of(w: usize) -> (r: u64)
    requires
        1 <= w <= 8,
    ensures
        r as nat == pow2(w as nat),
        r >= 2,
{
    proof {
        lemma2_to64();
    }
    if w == 1 {
        2
    } else if w == 2 {
        4
    } else if w == 3 {
        8
    } else if w == 4 {
        16
    } else if w == 5 {
        32
    } else if w == 6 {
        64
    } else if w == 7 {
        128
    } else {
        256
    }
}

/// Writes a package's bytes: the length-prefixed metadata text, then the library's encoding.
pub fn encode_package(metadata_text: &str, library: &Vec<u8>) -> (r: Vec<u8>)
    ensures
        r@ == package_bytes(metadata_text@, library@),
{
    let text = metadata_text.as_bytes();
    let n = text.len() as u64;
    let mut out: Vec<u8> = Vec::new();
    push_vint(&mut out, n);
    let ghost prefix = out@;
    let mut i: usize = 0;
    while i < text.len()
        invariant
            i <= text@.len(),
            out@ == prefix + text@.take(i as int),
        decreases text@.len() - i,
    {
        out.push(text[i]);
        proof {
            assert(text@.take(i + 1) =~= text@.take(i as int).push(text@[i as int]));
        }
        i = i + 1;
    }
    proof {
        assert(text@.take(i as int) =~= text@);
    }
    let ghost middle = out@;
    let mut j: usize = 0;
    while j < library.len()
        invariant
            j <= library@.len(),
            out@ == middle + library@.take(j as int),
        decreases library@.len() - j,
    {
        out.push(library[j]);
        proof {
            assert(library@.take(j + 1) =~= library@.take(j as int).push(library@[j as int]));
        }
        j = j + 1;
    }
    proof {
        assert(library@.take(j as int) =~= library@);
        assert(out@ =~= package_bytes(metadata_text@, library@));
    }
    out
}

/// Splits a package's bytes into its metadata text and its library's encoding.
pub fn decode_package(bytes: &[u8]) -> (r: Result<(String, Vec<u8>), ComponentPackageError>)
    ensures
        match split_package(bytes@) {
            Some((text, library)) => if valid_utf8(text) {
                r matches Ok((t, l)) && t@ == decode_utf8(text) && l@ == library
            } else {
                r matches Err(ComponentPackageError::MetadataDeserializationError(_))
            },
            None => r matches Err(ComponentPackageError::MetadataDeserializationError(_)),
        },
{
    if bytes.len() == 0 {
        return Err(ComponentPackageError::MetadataDeserializationError(String::from_str("package bytes are empty")));
    }
    let w = width_of(bytes[0]);
    if bytes.len() < w {
        return Err(ComponentPackageError::MetadataDeserializationError(String::from_str("package bytes end inside the metadata length")));
    }
    let n: u64 = if w == 9 {
        read_le(bytes, 1, 9)
    } else {
        read_le(bytes, 0, w) / pow2_of(w)
    };
    proof {
        if w != 9 {
            assert(bytes@.subrange(0, w as int) =~= bytes@.take(w as int));
        }
        assert(read_prefix(bytes@) == Some((n as nat, w as nat)));
    }
    if n > (bytes.len() - w) as u64 {
        return Err(ComponentPackageError::MetadataDeserializationError(String::from_str("metadata length exceeds the package bytes")));
    }
    let end = w + n as usize;
    let text_bytes = copy_range(bytes, w, end);
    let text = match string_from_utf8(text_bytes) {
        Some(t) => t,
        None => {
            return Err(ComponentPackageError::MetadataDeserializationError(String::from_str("metadata is not valid UTF-8")));
        },
    };
    let library = copy_range(bytes, end, bytes.len());
    Ok((text, library))
}

} // verus!
