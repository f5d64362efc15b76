//! Byte-level primitives of the container: little-endian integers of one to
//! eight bytes, byte-sequence comparison, and the UTF-8 reading of the
//! container's embedded strings.
use vstd::prelude::*;
use vstd::string::StrSliceExecFns;
use vstd::utf8::decode_utf8;
use vstd::utf8::encode_utf8_decode_utf8;
use vstd::utf8::valid_utf8;

verus! {

/// The unsigned value of a little-endian byte sequence.
pub open spec fn le_int(b: Seq<u8>) -> nat
    decreases b.len(),
{
    if b.len() == 0 {
        0
    } else {
        (b[0] + 0x100 * le_int(b.skip(1))) as nat
    }
}

/// Powers of 256, the bound of [`le_int`].
pub open spec fn pow256(n: nat) -> int
    decreases n,
{
    if n == 0 {
        1
    } else {
        0x100 * pow256((n - 1) as nat)
    }
}

/// A little-endian byte sequence of length `n` holds a value below `256^n`.
pub proof fn lemma_le_int_bound(b: Seq<u8>)
    ensures
        0 <= le_int(b) < pow256(b.len()),
    decreases b.len(),
{
    if b.len() > 0 {
        lemma_le_int_bound(b.skip(1));
    }
}

/// Reads the little-endian integer held in `bytes[start .. start + len]`.
pub fn read_le_u64(bytes: &[u8], start: usize, len: usize) -> (r: u64)
    requires
        len <= 8,
        start + len <= bytes@.len(),
    ensures
        r == le_int(bytes@.subrange(start as int, (start + len) as int)),
{
    let ghost full = bytes@.subrange(start as int, (start + len) as int);
    let n = bytes.len();
    let mut acc: u64 = 0;
    let mut j: usize = len;
    proof {
        assert(full.skip(j as int) =~= Seq::<u8>::empty());
    }
    while j > 0
        invariant
            j <= len,
            len <= 8,
            n == bytes@.len(),
            start + len <= n,
            full == bytes@.subrange(start as int, (start + len) as int),
            acc == le_int(full.skip(j as int)),
            acc < pow256((len - j) as nat),
        decreases j,
    {
        proof {
            lemma_le_int_bound(full.skip(j as int));
            assert(pow256((len - j) as nat) <= pow256(7)) by {
                lemma_pow256_monotone((len - j) as nat, 7);
            }
            assert(pow256(7) == 0x100000000000000) by {
                reveal_with_fuel(pow256, 8);
            }
        }
        j = j - 1;
        let byte = bytes[start + j];
        proof {
            assert(full.skip(j as int)[0] == byte);
            assert(full.skip(j as int).skip(1) =~= full.skip(j as int + 1));
        }
        acc = byte as u64 + 0x100 * acc;
        proof {
            assert(acc == le_int(full.skip(j as int)));
            assert(acc < pow256((len - j) as nat));
        }
    }
    proof {
        assert(full.skip(0) =~= full);
    }
    acc
}

/// `256^m <= 256^n` when `m <= n`.
pub proof fn lemma_pow256_monotone(m: nat, n: nat)
    requires
        m <= n,
    ensures
        pow256(m) <= pow256(n),
        pow256(m) >= 1,
    decreases n,
{
    if n > 0 && m < n {
        lemma_pow256_monotone(m, (n - 1) as nat);
    } else if n > 0 {
        lemma_pow256_monotone((m - 1) as nat, (n - 1) as nat);
    }
}

/// The signed reading of an eight-byte little-endian sequence: two's
/// complement of the unsigned value.
pub open spec fn le_i64(b: Seq<u8>) -> int {
    if le_int(b) >= 0x8000000000000000 {
        le_int(b) - 0x10000000000000000
    } else {
        le_int(b) as int
    }
}

/// Reads the two's-complement 64-bit integer held in
/// `bytes[start .. start + 8]`.
pub fn read_le_i64(bytes: &[u8], start: usize) -> (r: i64)
    requires
        start + 8 <= bytes@.len(),
    ensures
        r == le_i64(bytes@.subrange(start as int, start + 8)),
{
    let u = read_le_u64(bytes, start, 8);
    proof {
        lemma_le_int_bound(bytes@.subrange(start as int, start + 8));
        assert(pow256(8) == 0x10000000000000000) by {
            reveal_with_fuel(pow256, 9);
        }
    }
    if u >= 0x8000000000000000 {
        i64::MIN + ((u - 0x8000000000000000) as i64)
    } else {
        u as i64
    }
}

/// True exactly when the two byte slices hold the same bytes.
pub fn bytes_match(a: &[u8], b: &[u8]) -> (r: bool)
    ensures
        r == (a@ == b@),
{
    if a.len() != b.len() {
        proof {
            assert(a@ != b@);
        }
        return false;
    }
    let n = a.len();
    let mut i: usize = 0;
    while i < n
        invariant
            i <= n,
            n == a@.len() == b@.len(),
            forall|k: int| 0 <= k < i ==> a@[k] == b@[k],
        decreases n - i,
    {
        if a[i] != b[i] {
            return false;
        }
        i = i + 1;
    }
    proof {
        assert(a@ =~= b@);
    }
    true
}

/// True exactly when the two strings hold the same characters. Compares the
/// UTF-8 bytes; equal encodings decode to equal character sequences.
pub fn str_eq(a: &str, b: &str) -> (r: bool)
    ensures
        r == (a@ == b@),
{
    let same = bytes_match(a.as_bytes(), b.as_bytes());
    proof {
        encode_utf8_decode_utf8(a@);
        encode_utf8_decode_utf8(b@);
    }
    same
}

/// Relies on `core::str::from_utf8`, which returns a string slice over the
/// given bytes exactly when they are valid UTF-8 (per vstd's UTF-8 model,
/// which `str`'s view follows); the slice is then copied into an owned
/// string.
#[verifier::external_body]
pub(crate) fn utf8_to_string(bytes: &[u8]) -> (r: Option<String>)
    ensures
        r is Some <==> valid_utf8(bytes@),
        r matches Some(s) ==> s@ == decode_utf8(bytes@),
{
    match core::str::from_utf8(bytes) {
        Ok(s) => Some(s.to_owned()),
        Err(_) => None,
    }
}

} // verus!
