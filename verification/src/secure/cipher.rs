//! AES-128 block operations and the modes that the secure channel builds on them.

use aes::cipher::generic_array::GenericArray;
use aes::cipher::{BlockDecrypt, BlockEncrypt, KeyInit};
use aes::Aes128;
use vstd::prelude::*;

use crate::bytes::{append, array_at};

verus! {

/// What AES-128 under a 16-byte key makes of a 16-byte block.
pub uninterp spec fn aes128_encrypt(key: Seq<u8>, block: Seq<u8>) -> Seq<u8>;

/// What the inverse cipher of AES-128 under a 16-byte key makes of a 16-byte block.
pub uninterp spec fn aes128_decrypt(key: Seq<u8>, block: Seq<u8>) -> Seq<u8>;

/// `Aes128::new(key).encrypt_block(block)` of the `aes` crate: the result depends on key
/// and block alone, and `decrypt_block` under the same key gives the block back.
#[verifier::external_body]
fn encrypt_block(key: &[u8; 16], block: &[u8; 16]) -> (r: [u8; 16])
    ensures
        r@ == aes128_encrypt(key@, block@),
        aes128_decrypt(key@, r@) == block@,
{
    let mut b = GenericArray::from(*block);
    Aes128::new(&GenericArray::from(*key)).encrypt_block(&mut b);
    b.into()
}

/// `Aes128::new(key).decrypt_block(block)` of the `aes` crate: the result depends on key
/// and block alone.
#[verifier::external_body]
fn decrypt_block(key: &[u8; 16], block: &[u8; 16]) -> (r: [u8; 16])
    ensures
        r@ == aes128_decrypt(key@, block@),
{
    let mut b = GenericArray::from(*block);
    Aes128::new(&GenericArray::from(*key)).decrypt_block(&mut b);
    b.into()
}

/// AES-128 as a function onto blocks.
pub open spec fn cipher(key: Seq<u8>, block: Seq<u8>) -> Seq<u8> {
    Seq::new(16, |i: int| aes128_encrypt(key, block)[i])
}

/// The inverse cipher as a function onto blocks.
pub open spec fn decipher(key: Seq<u8>, block: Seq<u8>) -> Seq<u8> {
    Seq::new(16, |i: int| aes128_decrypt(key, block)[i])
}

/// Bitwise exclusive or of two blocks.
pub open spec fn xor(a: Seq<u8>, b: Seq<u8>) -> Seq<u8> {
    Seq::new(16, |i: int| a[i] ^ b[i])
}

/// Bitwise complement of a block.
pub open spec fn complement(a: Seq<u8>) -> Seq<u8> {
    Seq::new(16, |i: int| !a[i])
}

/// Encrypt one block.
pub fn encipher(key: &[u8; 16], block: &[u8; 16]) -> (r: [u8; 16])
    ensures
        r@ == cipher(key@, block@),
        decipher(key@, r@) == block@,
{
    let r = encrypt_block(key, block);
    assert(r@ =~= cipher(key@, block@));
    assert(decipher(key@, r@) =~= block@);
    r
}

/// Exclusive or of two blocks.
fn xor_blocks(a: &[u8; 16], b: &[u8; 16]) -> (r: [u8; 16])
    ensures
        r@ == xor(a@, b@),
{
    let mut r: [u8; 16] = [0u8; 16];
    let mut i: usize = 0;
    while i < 16
        invariant
            i <= 16,
            forall|j: int| 0 <= j < i ==> r@[j] == a@[j] ^ b@[j],
        decreases 16 - i,
    {
        r[i] = a[i] ^ b[i];
        i = i + 1;
    }
    assert(r@ =~= xor(a@, b@));
    r
}

/// Complement of a block.
pub fn complement_block(a: &[u8; 16]) -> (r: [u8; 16])
    ensures
        r@ == complement(a@),
{
    let mut r: [u8; 16] = [0u8; 16];
    let mut i: usize = 0;
    while i < 16
        invariant
            i <= 16,
            forall|j: int| 0 <= j < i ==> r@[j] == !a@[j],
        decreases 16 - i,
    {
        r[i] = !a[i];
        i = i + 1;
    }
    assert(r@ =~= complement(a@));
    r
}

/// Exclusive or undoes itself.
proof fn lemma_xor_twice(a: Seq<u8>, b: Seq<u8>)
    requires
        a.len() == 16,
    ensures
        xor(xor(a, b), b) == a,
{
    assert forall|i: int| 0 <= i < 16 implies #[trigger] xor(xor(a, b), b)[i] == a[i] by {
        let x = a[i];
        let y = b[i];
        assert((x ^ y) ^ y == x) by (bit_vector);
    }
    assert(xor(xor(a, b), b) =~= a);
}

/// Cipher block chaining over whole blocks.
pub open spec fn cbc_encrypt(key: Seq<u8>, iv: Seq<u8>, s: Seq<u8>) -> Seq<u8>
    decreases s.len(),
{
    if s.len() < 16 {
        Seq::empty()
    } else {
        let c = cipher(key, xor(s.take(16), iv));
        c + cbc_encrypt(key, c, s.skip(16))
    }
}

/// Inverse of [`cbc_encrypt`].
pub open spec fn cbc_decrypt(key: Seq<u8>, iv: Seq<u8>, s: Seq<u8>) -> Seq<u8>
    decreases s.len(),
{
    if s.len() < 16 {
        Seq::empty()
    } else {
        xor(decipher(key, s.take(16)), iv) + cbc_decrypt(key, s.take(16), s.skip(16))
    }
}

/// The inverse cipher undoes every block step of [`cbc_encrypt`].
spec fn steps_invertible(key: Seq<u8>, iv: Seq<u8>, s: Seq<u8>) -> bool
    decreases s.len(),
{
    s.len() >= 16 ==> {
        let x = xor(s.take(16), iv);
        &&& decipher(key, cipher(key, x)) == x
        &&& steps_invertible(key, cipher(key, x), s.skip(16))
    }
}

/// Chaining does not change the length of whole blocks.
pub proof fn lemma_cbc_len(key: Seq<u8>, iv: Seq<u8>, s: Seq<u8>)
    requires
        s.len() % 16 == 0,
    ensures
        cbc_encrypt(key, iv, s).len() == s.len(),
        cbc_decrypt(key, iv, s).len() == s.len(),
    decreases s.len(),
{
    if s.len() >= 16 {
        lemma_cbc_len(key, cipher(key, xor(s.take(16), iv)), s.skip(16));
        lemma_cbc_len(key, s.take(16), s.skip(16));
    }
}

/// Where every step can be undone, decryption undoes encryption.
proof fn lemma_cbc_inverse(key: Seq<u8>, iv: Seq<u8>, s: Seq<u8>)
    requires
        s.len() % 16 == 0,
        steps_invertible(key, iv, s),
    ensures
        cbc_decrypt(key, iv, cbc_encrypt(key, iv, s)) == s,
    decreases s.len(),
{
    if s.len() >= 16 {
        let c = cipher(key, xor(s.take(16), iv));
        let rest = cbc_encrypt(key, c, s.skip(16));
        lemma_cbc_inverse(key, c, s.skip(16));
        assert((c + rest).take(16) =~= c);
        assert((c + rest).skip(16) =~= rest);
        lemma_xor_twice(s.take(16), iv);
        assert(s.take(16) + s.skip(16) =~= s);
    } else {
        assert(s =~= Seq::<u8>::empty());
    }
}

/// Encrypt whole blocks.
pub fn cbc_encrypt_blocks(key: &[u8; 16], iv: &[u8; 16], s: &[u8]) -> (r: Vec<u8>)
    requires
        s@.len() % 16 == 0,
    ensures
        r@ == cbc_encrypt(key@, iv@, s@),
        cbc_decrypt(key@, iv@, r@) == s@,
{
    let mut out: Vec<u8> = Vec::with_capacity(s.len());
    let mut chain: [u8; 16] = *iv;
    let mut i: usize = 0;
    assert(s@.skip(0) =~= s@);
    while i < s.len()
        invariant
            i <= s@.len(),
            i % 16 == 0,
            s@.len() % 16 == 0,
            out@ + cbc_encrypt(key@, chain@, s@.skip(i as int)) == cbc_encrypt(key@, iv@, s@),
            steps_invertible(key@, chain@, s@.skip(i as int)) ==> steps_invertible(
                key@,
                iv@,
                s@,
            ),
        decreases s@.len() - i,
    {
        let block: [u8; 16] = array_at(s, i);
        let ghost rest = s@.skip(i as int);
        assert(rest.take(16) =~= block@);
        assert(rest.skip(16) =~= s@.skip(i as int + 16));
        let c = encipher(key, &xor_blocks(&block, &chain));
        let ghost before = out@;
        append(&mut out, c.as_slice());
        assert(out@ + cbc_encrypt(key@, c@, rest.skip(16)) =~= before + (c@ + cbc_encrypt(
            key@,
            c@,
            rest.skip(16),
        )));
        chain = c;
        i = i + 16;
    }
    proof {
        assert(out@ =~= out@ + cbc_encrypt(key@, chain@, s@.skip(i as int)));
        lemma_cbc_inverse(key@, iv@, s@);
    }
    out
}

/// Decrypt whole blocks.
pub fn cbc_decrypt_blocks(key: &[u8; 16], iv: &[u8; 16], s: &[u8]) -> (r: Vec<u8>)
    requires
        s@.len() % 16 == 0,
    ensures
        r@ == cbc_decrypt(key@, iv@, s@),
{
    let mut out: Vec<u8> = Vec::with_capacity(s.len());
    let mut chain: [u8; 16] = *iv;
    let mut i: usize = 0;
    assert(s@.skip(0) =~= s@);
    while i < s.len()
        invariant
            i <= s@.len(),
            i % 16 == 0,
            s@.len() % 16 == 0,
            out@ + cbc_decrypt(key@, chain@, s@.skip(i as int)) == cbc_decrypt(key@, iv@, s@),
        decreases s@.len() - i,
    {
        let block: [u8; 16] = array_at(s, i);
        let ghost rest = s@.skip(i as int);
        assert(rest.take(16) =~= block@);
        assert(rest.skip(16) =~= s@.skip(i as int + 16));
        let d = decrypt_block(key, &block);
        assert(d@ =~= decipher(key@, block@));
        let p = xor_blocks(&d, &chain);
        let ghost before = out@;
        append(&mut out, p.as_slice());
        assert(out@ + cbc_decrypt(key@, block@, rest.skip(16)) =~= before + (p@ + cbc_decrypt(
            key@,
            block@,
            rest.skip(16),
        )));
        chain = block;
        i = i + 16;
    }
    assert(out@ =~= out@ + cbc_decrypt(key@, chain@, s@.skip(i as int)));
    out
}

/// `n` zero bytes.
pub open spec fn zeros(n: nat) -> Seq<u8> {
    Seq::new(n, |i: int| 0u8)
}

/// Padding: the marker `0x80`, then zeros up to a whole number of blocks.
pub open spec fn pad(s: Seq<u8>) -> Seq<u8> {
    s.push(0x80) + zeros(((16 - (s.len() + 1) % 16) % 16) as nat)
}

/// What was padded, if the padding is sound.
pub open spec fn unpad(s: Seq<u8>) -> Option<Seq<u8>>
    decreases s.len(),
{
    if s.len() == 0 {
        None
    } else if s.last() == 0 {
        unpad(s.drop_last())
    } else if s.last() == 0x80 {
        Some(s.drop_last())
    } else {
        None
    }
}

/// Trailing zeros do not matter to [`unpad`].
proof fn lemma_unpad_zeros(s: Seq<u8>, n: nat)
    ensures
        unpad(s + zeros(n)) == unpad(s),
    decreases n,
{
    if n == 0 {
        assert(s + zeros(0) =~= s);
    } else {
        let t = s + zeros(n);
        assert(t.last() == 0);
        assert(t.drop_last() =~= s + zeros((n - 1) as nat));
        lemma_unpad_zeros(s, (n - 1) as nat);
    }
}

/// Padding comes to whole blocks, at least one, and is taken off again.
pub proof fn law_padding_round_trip(s: Seq<u8>)
    ensures
        pad(s).len() % 16 == 0,
        s.len() < pad(s).len() <= s.len() + 16,
        unpad(pad(s)) == Some(s),
{
    lemma_unpad_zeros(s.push(0x80), ((16 - (s.len() + 1) % 16) % 16) as nat);
    assert(s.push(0x80).drop_last() =~= s);
}

/// Append the padding.
pub fn pad_bytes(s: &[u8]) -> (r: Vec<u8>)
    ensures
        r@ == pad(s@),
{
    let mut v: Vec<u8> = Vec::with_capacity(s.len());
    append(&mut v, s);
    v.push(0x80);
    let ghost base = v@;
    let ghost k: nat = 0;
    while v.len() % 16 != 0
        invariant
            base == s@.push(0x80),
            v@ == base + zeros(k),
            k <= (16 - base.len() % 16) % 16,
        decreases (16 - base.len() % 16) % 16 - k,
    {
        v.push(0);
        proof {
            k = k + 1;
            assert(v@ =~= base + zeros(k));
        }
    }
    v
}

/// Take the padding off.
pub fn unpad_bytes(s: Vec<u8>) -> (r: Option<Vec<u8>>)
    ensures
        match r {
            Some(v) => unpad(s@) == Some(v@),
            None => unpad(s@) is None,
        },
{
    let mut v = s;
    while v.len() > 0
        invariant
            unpad(s@) == unpad(v@),
        ensures
            unpad(s@) is None,
        decreases v@.len(),
    {
        let b: Option<u8> = v.pop();
        match b {
            Some(0) => {},
            Some(0x80) => {
                return Some(v);
            },
            _ => {
                return None;
            },
        }
    }
    None
}

/// CBC-MAC over whole blocks: every block but the last under `key1`, the last under
/// `key2`.
pub open spec fn cbc_mac(key1: Seq<u8>, key2: Seq<u8>, icv: Seq<u8>, s: Seq<u8>) -> Seq<u8>
    decreases s.len(),
{
    if s.len() <= 16 {
        cipher(key2, xor(s, icv))
    } else {
        cbc_mac(key1, key2, cipher(key1, xor(s.take(16), icv)), s.skip(16))
    }
}

/// Message as it enters the MAC: padded only where it is not made of whole blocks.
pub open spec fn mac_input(s: Seq<u8>) -> Seq<u8> {
    if s.len() % 16 == 0 {
        s
    } else {
        pad(s)
    }
}

/// MAC of a message.
pub open spec fn message_mac(key1: Seq<u8>, key2: Seq<u8>, icv: Seq<u8>, s: Seq<u8>) -> Seq<u8> {
    cbc_mac(key1, key2, icv, mac_input(s))
}

/// A MAC is one block.
pub proof fn lemma_mac_len(key1: Seq<u8>, key2: Seq<u8>, icv: Seq<u8>, s: Seq<u8>)
    ensures
        cbc_mac(key1, key2, icv, s).len() == 16,
    decreases s.len(),
{
    if s.len() > 16 {
        lemma_mac_len(key1, key2, cipher(key1, xor(s.take(16), icv)), s.skip(16));
    }
}

/// Compute the MAC of a message.
pub fn message_mac_of(key1: &[u8; 16], key2: &[u8; 16], icv: &[u8; 16], s: &[u8]) -> (r: [u8; 16])
    requires
        s@.len() > 0,
    ensures
        r@ == message_mac(key1@, key2@, icv@, s@),
{
    let padded = if s.len() % 16 == 0 {
        let mut v: Vec<u8> = Vec::with_capacity(s.len());
        append(&mut v, s);
        assert(v@ =~= s@);
        v
    } else {
        proof {
            law_padding_round_trip(s@);
        }
        pad_bytes(s)
    };
    let m = padded.as_slice();
    let len: usize = m.len();
    let mut chain: [u8; 16] = *icv;
    let mut i: usize = 0;
    assert(m@.skip(0) =~= m@);
    while len - i > 16
        invariant
            i < len == m@.len(),
            len % 16 == 0,
            i % 16 == 0,
            cbc_mac(key1@, key2@, chain@, m@.skip(i as int)) == cbc_mac(
                key1@,
                key2@,
                icv@,
                m@,
            ),
        decreases len - i,
    {
        let block: [u8; 16] = array_at(m, i);
        assert(m@.skip(i as int).take(16) =~= block@);
        assert(m@.skip(i as int).skip(16) =~= m@.skip(i as int + 16));
        chain = encipher(key1, &xor_blocks(&block, &chain));
        i = i + 16;
    }
    let block: [u8; 16] = array_at(m, i);
    assert(m@.skip(i as int) =~= block@);
    encipher(key2, &xor_blocks(&block, &chain))
}

/// The MAC of a message goes through it block by block: each block but the last is mixed into
/// the chain under the first key, the last under the second. A message that is not made of
/// whole blocks is padded; one that is, is not.
pub proof fn law_mac_goes_block_by_block(
    key1: Seq<u8>,
    key2: Seq<u8>,
    icv: Seq<u8>,
    block: Seq<u8>,
    rest: Seq<u8>,
)
    requires
        block.len() == 16,
    ensures
        message_mac(key1, key2, icv, block) == cipher(key2, xor(block, icv)),
        rest.len() > 0 ==> message_mac(key1, key2, icv, block + rest) == message_mac(
            key1,
            key2,
            cipher(key1, xor(block, icv)),
            rest,
        ),
        rest.len() % 16 != 0 ==> message_mac(key1, key2, icv, rest) == message_mac(
            key1,
            key2,
            icv,
            pad(rest),
        ),
{
    law_padding_round_trip(rest);
    if rest.len() > 0 {
        let whole = block + rest;
        assert(whole.len() % 16 == rest.len() % 16);
        if rest.len() % 16 != 0 {
            assert((whole.len() + 1) % 16 == (rest.len() + 1) % 16);
            assert(pad(whole) =~= block + pad(rest));
        }
        let input = mac_input(whole);
        assert(input.take(16) =~= block);
        assert(input.skip(16) =~= mac_input(rest));
    }
}

/// Encryption goes through whole blocks one by one, each chained on the ciphertext of the
/// one before; so does decryption. Neither changes the length.
pub proof fn law_chaining_goes_block_by_block(
    key: Seq<u8>,
    iv: Seq<u8>,
    block: Seq<u8>,
    rest: Seq<u8>,
)
    requires
        block.len() == 16,
        rest.len() % 16 == 0,
    ensures
        ({
            let c = cipher(key, xor(block, iv));
            cbc_encrypt(key, iv, block + rest) == c + cbc_encrypt(key, c, rest)
        }),
        cbc_decrypt(key, iv, block + rest) == xor(decipher(key, block), iv) + cbc_decrypt(
            key,
            block,
            rest,
        ),
        cbc_encrypt(key, iv, rest).len() == rest.len(),
        cbc_decrypt(key, iv, rest).len() == rest.len(),
{
    let whole = block + rest;
    assert(whole.take(16) =~= block);
    assert(whole.skip(16) =~= rest);
    lemma_cbc_len(key, iv, rest);
}

/// Padding is the byte `0x80`, and then as many zeros as the next whole block takes. Taking
/// it off gives back what stands before the last byte `0x80`, if only zeros follow that one.
pub proof fn law_padding_is_marked(s: Seq<u8>, n: nat, b: u8)
    requires
        b != 0x80,
        b != 0,
    ensures
        pad(s).take(s.len() as int) == s,
        pad(s)[s.len() as int] == 0x80,
        forall|i: int| s.len() < i < pad(s).len() ==> pad(s)[i] == 0,
        unpad(s.push(0x80) + zeros(n)) == Some(s),
        unpad(s.push(b) + zeros(n)) is None,
        unpad(zeros(n)) is None,
{
    assert(pad(s).take(s.len() as int) =~= s);
    lemma_unpad_zeros(s.push(0x80), n);
    lemma_unpad_zeros(s.push(b), n);
    lemma_unpad_zeros(Seq::empty(), n);
    assert(s.push(0x80).drop_last() =~= s);
    assert(Seq::<u8>::empty() + zeros(n) =~= zeros(n));
}

/// The block operations, byte by byte.
pub proof fn law_block_operations(key: Seq<u8>, a: Seq<u8>, b: Seq<u8>, n: nat)
    ensures
        cipher(key, a).len() == 16,
        forall|i: int| 0 <= i < 16 ==> cipher(key, a)[i] == aes128_encrypt(key, a)[i],
        decipher(key, a).len() == 16,
        forall|i: int| 0 <= i < 16 ==> decipher(key, a)[i] == aes128_decrypt(key, a)[i],
        xor(a, b).len() == 16,
        forall|i: int| 0 <= i < 16 ==> xor(a, b)[i] == a[i] ^ b[i],
        complement(a).len() == 16,
        forall|i: int| 0 <= i < 16 ==> complement(a)[i] == !a[i],
        zeros(n).len() == n,
        forall|i: int| 0 <= i < n ==> zeros(n)[i] == 0,
{
}

} // verus!
