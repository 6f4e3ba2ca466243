//! The byte-level obfuscation layer of the save file.
//!
//! The transform is deliberately simple: a running checksum byte in
//! front, then the plaintext combined with a fixed key stream. What
//! matters to the rest of the library is proved here: decryption inverts
//! encryption exactly, and flipping any single ciphertext byte is
//! detected, so a corrupted file can never decrypt silently.

use crate::LoadError;
use vstd::prelude::*;

verus! {

/// Wrapping byte addition.
pub open spec fn add_byte(a: u8, b: u8) -> u8 {
    if a + b > 255 {
        (a + b - 256) as u8
    } else {
        (a + b) as u8
    }
}

/// Key-stream byte at position `i`: starts at 97 and advances by 31 with
/// wraparound, so every position has a fixed, position-only key.
pub open spec fn key_at(i: int) -> u8
    decreases i,
{
    if i <= 0 {
        97
    } else {
        add_byte(key_at(i - 1), 31)
    }
}

/// The plaintext combined with the key stream, position by position.
/// The combination is an involution: applied twice it gives the input back.
pub open spec fn keystream_xor(p: Seq<u8>) -> Seq<u8> {
    Seq::new(p.len(), |i: int| p[i] ^ key_at(i))
}

/// Wrapping sum of all plaintext bytes: the checksum stored in front of
/// the ciphertext.
pub open spec fn checksum(p: Seq<u8>) -> u8
    decreases p.len(),
{
    if p.len() == 0 {
        0
    } else {
        add_byte(checksum(p.drop_last()), p.last())
    }
}

/// Ciphertext layout: one checksum byte, then the combined plaintext.
pub open spec fn spec_encrypt(p: Seq<u8>) -> Seq<u8> {
    seq![checksum(p)] + keystream_xor(p)
}

/// Inverse transform: strip the checksum byte, undo the key stream, and
/// accept only if the checksum matches.
pub open spec fn spec_decrypt(c: Seq<u8>) -> Option<Seq<u8>> {
    if c.len() < 1 {
        None
    } else {
        let p = keystream_xor(c.drop_first());
        if checksum(p) == c[0] {
            Some(p)
        } else {
            None
        }
    }
}

/// Applying the key stream twice gives the plaintext back.
pub proof fn lemma_keystream_involution(p: Seq<u8>)
    ensures
        keystream_xor(keystream_xor(p)) == p,
{
    let q = keystream_xor(keystream_xor(p));
    assert forall|i: int| 0 <= i < p.len() implies q[i] == p[i] by {
        let x = p[i];
        let k = key_at(i);
        assert((x ^ k) ^ k == x) by (bit_vector);
    }
    assert(q =~= p);
}

/// Decryption inverts encryption on every plaintext.
pub proof fn lemma_decrypt_encrypt(p: Seq<u8>)
    ensures
        spec_decrypt(spec_encrypt(p)) == Some(p),
{
    let c = spec_encrypt(p);
    assert(c.drop_first() =~= keystream_xor(p));
    lemma_keystream_involution(p);
}

/// Integer sum of all bytes, for reasoning about the checksum.
pub open spec fn byte_sum(p: Seq<u8>) -> int
    decreases p.len(),
{
    if p.len() == 0 {
        0
    } else {
        byte_sum(p.drop_last()) + p.last()
    }
}

/// The checksum is the byte sum reduced modulo 256.
pub proof fn lemma_checksum_is_byte_sum(p: Seq<u8>)
    ensures
        checksum(p) == byte_sum(p) % 256,
        0 <= byte_sum(p),
    decreases p.len(),
{
    if p.len() > 0 {
        lemma_checksum_is_byte_sum(p.drop_last());
        let a = byte_sum(p.drop_last());
        let b = p.last() as int;
        assert((a % 256 + b) % 256 == (a + b) % 256) by {
            vstd::arithmetic::div_mod::lemma_add_mod_noop(a, b, 256);
            vstd::arithmetic::div_mod::lemma_mod_twice(a, 256);
        }
        assert(add_byte(checksum(p.drop_last()), p.last()) == (a % 256 + b) % 256) by {
            if a % 256 + b > 255 {
                vstd::arithmetic::div_mod::lemma_fundamental_div_mod_converse(
                    a % 256 + b,
                    256,
                    1,
                    a % 256 + b - 256,
                );
            } else {
                vstd::arithmetic::div_mod::lemma_small_mod((a % 256 + b) as nat, 256);
            }
        }
    }
}

/// Changing one byte changes the byte sum by exactly that byte's change.
pub proof fn lemma_byte_sum_update(p: Seq<u8>, i: int, b: u8)
    requires
        0 <= i < p.len(),
    ensures
        byte_sum(p.update(i, b)) == byte_sum(p) - p[i] + b,
    decreases p.len(),
{
    let q = p.update(i, b);
    if i == p.len() - 1 {
        assert(q.drop_last() =~= p.drop_last());
    } else {
        assert(q.drop_last() =~= p.drop_last().update(i, b));
        lemma_byte_sum_update(p.drop_last(), i, b);
    }
}

/// Two plaintexts that differ in exactly one byte have different
/// checksums: a single-byte change never cancels in the wrapping sum.
pub proof fn lemma_checksum_detects_single_change(p: Seq<u8>, i: int, b: u8)
    requires
        0 <= i < p.len(),
        p[i] != b,
    ensures
        checksum(p.update(i, b)) != checksum(p),
{
    let q = p.update(i, b);
    lemma_checksum_is_byte_sum(p);
    lemma_checksum_is_byte_sum(q);
    lemma_byte_sum_update(p, i, b);
    let d = b - p[i];
    assert(byte_sum(q) == byte_sum(p) + d);
    if checksum(q) == checksum(p) {
        vstd::arithmetic::div_mod::lemma_mod_equivalence(byte_sum(q), byte_sum(p), 256);
        assert(d % 256 == 0) by {
            vstd::arithmetic::div_mod::lemma_mod_equivalence(byte_sum(p) + d, byte_sum(p), 256);
        }
        if d > 0 {
            vstd::arithmetic::div_mod::lemma_small_mod(d as nat, 256);
        } else {
            vstd::arithmetic::div_mod::lemma_fundamental_div_mod_converse(d, 256, -1, d + 256);
        }
    }
}

/// Corrupting any single ciphertext byte makes decryption fail: either
/// the stored checksum no longer matches the plaintext, or the recovered
/// plaintext no longer matches the stored checksum.
pub proof fn lemma_corruption_detected(p: Seq<u8>, c2: Seq<u8>, i: int)
    requires
        c2.len() == spec_encrypt(p).len(),
        0 <= i < c2.len(),
        c2[i] != spec_encrypt(p)[i],
        forall|j: int| 0 <= j < c2.len() && j != i ==> c2[j] == spec_encrypt(p)[j],
    ensures
        spec_decrypt(c2) is None,
{
    let c = spec_encrypt(p);
    lemma_keystream_involution(p);
    assert(c.drop_first() =~= keystream_xor(p));
    if i == 0 {
        assert(c2.drop_first() =~= keystream_xor(p));
        assert(checksum(keystream_xor(keystream_xor(p))) == checksum(p));
    } else {
        let p2 = keystream_xor(c2.drop_first());
        let k = i - 1;
        assert(c2.drop_first()[k] == c2[i]);
        assert(c[i] == keystream_xor(p)[k]);
        let x = p[k];
        let y = c2[i];
        let kk = key_at(k);
        assert(x ^ kk != y ==> (y ^ kk) != x) by (bit_vector);
        assert(p2[k] == y ^ kk);
        assert(p2 =~= p.update(k, y ^ kk)) by {
            assert forall|j: int| 0 <= j < p.len() implies p2[j] == p.update(k, y ^ kk)[j] by {
                if j != k {
                    assert(c2.drop_first()[j] == c2[j + 1]);
                    assert(c2[j + 1] == c[j + 1]);
                    assert(c[j + 1] == keystream_xor(p)[j]);
                    let xj = p[j];
                    let kj = key_at(j);
                    assert((xj ^ kj) ^ kj == xj) by (bit_vector);
                }
            }
        }
        lemma_checksum_detects_single_change(p, k, y ^ kk);
        assert(c2[0] == checksum(p));
    }
}

/// Encrypts the plaintext: checksum byte first, then the key-streamed
/// bytes.
pub fn encrypt(p: &Vec<u8>) -> (c: Vec<u8>)
    ensures
        c@ == spec_encrypt(p@),
{
    let n = p.len();
    let mut sum: u8 = 0;
    let mut i: usize = 0;
    while i < n
        invariant
            n == p@.len(),
            0 <= i <= n,
            sum == checksum(p@.subrange(0, i as int)),
        decreases n - i,
    {
        proof {
            assert(p@.subrange(0, i + 1).drop_last() =~= p@.subrange(0, i as int));
        }
        sum = sum.wrapping_add(p[i]);
        i = i + 1;
    }
    proof {
        assert(p@.subrange(0, n as int) =~= p@);
    }
    let mut c: Vec<u8> = Vec::new();
    c.push(sum);
    let mut key: u8 = 97;
    let mut i: usize = 0;
    while i < n
        invariant
            n == p@.len(),
            0 <= i <= n,
            key == key_at(i as int),
            c@.len() == i + 1,
            c@[0] == checksum(p@),
            forall|j: int| 0 <= j < i ==> c@[j + 1] == p@[j] ^ key_at(j),
        decreases n - i,
    {
        c.push(p[i] ^ key);
        key = key.wrapping_add(31);
        i = i + 1;
    }
    proof {
        assert(c@ =~= spec_encrypt(p@));
    }
    c
}

/// Decrypts a ciphertext; fails exactly when the ciphertext is empty or
/// its checksum does not match the recovered plaintext.
pub fn decrypt(c: &Vec<u8>) -> (r: Result<Vec<u8>, LoadError>)
    ensures
        r is Ok <==> spec_decrypt(c@) is Some,
        r matches Ok(p) ==> Some(p@) == spec_decrypt(c@),
        r matches Err(e) ==> e == LoadError::DecryptError,
{
    let n = c.len();
    if n == 0 {
        return Err(LoadError::DecryptError);
    }
    let mut p: Vec<u8> = Vec::new();
    let mut key: u8 = 97;
    let mut i: usize = 1;
    while i < n
        invariant
            n == c@.len(),
            1 <= i <= n,
            key == key_at(i - 1),
            p@.len() == i - 1,
            forall|j: int| 0 <= j < i - 1 ==> p@[j] == c@[j + 1] ^ key_at(j),
        decreases n - i,
    {
        p.push(c[i] ^ key);
        key = key.wrapping_add(31);
        i = i + 1;
    }
    proof {
        assert(p@ =~= keystream_xor(c@.drop_first()));
    }
    let mut sum: u8 = 0;
    let mut i: usize = 0;
    let m = p.len();
    while i < m
        invariant
            m == p@.len(),
            0 <= i <= m,
            sum == checksum(p@.subrange(0, i as int)),
        decreases m - i,
    {
        proof {
            assert(p@.subrange(0, i + 1).drop_last() =~= p@.subrange(0, i as int));
        }
        sum = sum.wrapping_add(p[i]);
        i = i + 1;
    }
    proof {
        assert(p@.subrange(0, m as int) =~= p@);
    }
    if sum == c[0] {
        Ok(p)
    } else {
        Err(LoadError::DecryptError)
    }
}

} // verus!
