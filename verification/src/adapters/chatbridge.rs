//! ChatBridge client: encrypted JSON packets in length-prefixed frames over TCP.
//!
//! A packet is JSON text, encrypted with AES-256 in CBC mode and sent as
//! lowercase hex behind a four-byte length in the byte order of the machine. The
//! key is the SHA-256 of the password padded with zero bytes; the first half of
//! the key is the initial vector. An empty password sends packets in the clear.

use crate::json::{
    a_member_is_found, is_exact, items, json_read, json_text, json_text_of, members,
    numbers_are_shown_in_digits, opt_view, parse_json, worded, Json, JsonV,
};
use crate::text::{among, bytes_of, drop_back, join2, same, trim_end_of, utf8_text, Text};
use aes::cipher::generic_array::GenericArray;
use aes::cipher::{BlockDecrypt, BlockEncrypt, KeyInit};
use sha2::{Digest, Sha256};
use vstd::prelude::*;
use vstd::slice::slice_to_vec;
use vstd::utf8::{decode_utf8, encode_utf8, valid_utf8};

verus! {

/// The SHA-256 digest of a sequence of bytes.
pub uninterp spec fn sha256_of(data: Seq<u8>) -> Seq<u8>;

/// Calls `sha2::Sha256::digest`: the 32-byte digest, which depends on the bytes
/// alone.
#[verifier::external_body]
fn sha256(data: &[u8]) -> (r: [u8; 32])
    ensures
        r@ == sha256_of(data@),
{
    Sha256::digest(data).into()
}

/// The AES-256 encryption of one block.
pub uninterp spec fn aes_encrypted(key: Seq<u8>, block: Seq<u8>) -> Seq<u8>;

/// The AES-256 decryption of one block.
pub uninterp spec fn aes_decrypted(key: Seq<u8>, block: Seq<u8>) -> Seq<u8>;

/// Calls `encrypt_block` of `aes::Aes256`: encrypts one block under the key.
/// Decrypting the result under the same key gives the block back.
#[verifier::external_body]
fn encrypt_block(key: &[u8; 32], block: &[u8; 16]) -> (r: [u8; 16])
    ensures
        r@ == aes_encrypted(key@, block@),
        aes_decrypted(key@, r@) == block@,
{
    let mut state = GenericArray::clone_from_slice(block);
    aes::Aes256::new(GenericArray::from_slice(key)).encrypt_block(&mut state);
    state.into()
}

/// Calls `decrypt_block` of `aes::Aes256`: decrypts one block under the key.
#[verifier::external_body]
fn decrypt_block(key: &[u8; 32], block: &[u8; 16]) -> (r: [u8; 16])
    ensures
        r@ == aes_decrypted(key@, block@),
{
    let mut state = GenericArray::clone_from_slice(block);
    aes::Aes256::new(GenericArray::from_slice(key)).decrypt_block(&mut state);
    state.into()
}

/// The lowercase hex digit of value `d`.
pub open spec fn hex_digit(d: u8) -> u8 {
    if d < 10 {
        (48 + d) as u8
    } else {
        (87 + d) as u8
    }
}

/// `data` in lowercase hex: the high half of each byte first.
pub open spec fn hex_of(data: Seq<u8>) -> Seq<u8> {
    Seq::new(
        data.len() * 2,
        |i: int|
            if i % 2 == 0 {
                hex_digit((data[i / 2] / 16) as u8)
            } else {
                hex_digit((data[i / 2] % 16) as u8)
            },
    )
}

/// The value of a hex digit of either case.
pub open spec fn hex_value(c: u8) -> Option<u8> {
    if 48 <= c <= 57 {
        Some((c - 48) as u8)
    } else if 97 <= c <= 102 {
        Some((c - 87) as u8)
    } else if 65 <= c <= 70 {
        Some((c - 55) as u8)
    } else {
        None
    }
}

/// The bytes that a hex text writes; nothing where its length is odd or a
/// character is no hex digit.
pub open spec fn unhex(text: Seq<u8>) -> Option<Seq<u8>> {
    if text.len() % 2 == 0 && forall|i: int|
        0 <= i < text.len() ==> hex_value(#[trigger] text[i]) is Some {
        Some(
            Seq::new(
                text.len() / 2,
                |i: int| (hex_value(text[2 * i])->0 * 16 + hex_value(text[2 * i + 1])->0) as u8,
            ),
        )
    } else {
        None
    }
}

/// Calls `hex::encode`: the bytes in lowercase hex, as ASCII.
#[verifier::external_body]
fn hex_encode(data: &[u8]) -> (r: Vec<u8>)
    ensures
        r@ == hex_of(data@),
{
    hex::encode(data).into_bytes()
}

/// Calls `hex::decode`: reads hex digits of either case in pairs; fails on an odd
/// length and on any other character.
#[verifier::external_body]
fn hex_decode(text: &[u8]) -> (r: Option<Vec<u8>>)
    ensures
        match r {
            Some(v) => unhex(text@) == Some(v@),
            None => unhex(text@) is None,
        },
{
    hex::decode(text).ok()
}

/// Reading back what hex wrote gives the bytes.
pub proof fn hex_round_trip(data: Seq<u8>)
    ensures
        unhex(hex_of(data)) == Some(data),
{
    let t = hex_of(data);
    assert forall|i: int| 0 <= i < t.len() implies hex_value(#[trigger] t[i]) is Some by {
        let b = data[i / 2];
        assert(b / 16 < 16);
        assert(b % 16 < 16);
    }
    assert(t.len() / 2 == data.len());
    assert forall|i: int| 0 <= i < data.len() implies (hex_value(t[2 * i])->0 * 16 + hex_value(
        t[2 * i + 1],
    )->0) as u8 == #[trigger] data[i] by {
        let b = data[i];
        assert(b / 16 < 16);
        assert(b % 16 < 16);
        assert((2 * i) / 2 == i && (2 * i) % 2 == 0);
        assert((2 * i + 1) / 2 == i && (2 * i + 1) % 2 == 1);
        assert(t[2 * i] == hex_digit((b / 16) as u8));
        assert(t[2 * i + 1] == hex_digit((b % 16) as u8));
        assert(hex_value(hex_digit((b / 16) as u8)) == Some((b / 16) as u8));
        assert(hex_value(hex_digit((b % 16) as u8)) == Some((b % 16) as u8));
    }
    assert(unhex(t)->0 =~= data);
}

/// `n` zero bytes.
pub open spec fn zeros(n: nat) -> Seq<u8> {
    Seq::new(n, |i: int| 0u8)
}

/// `data` with zero bytes behind it up to a multiple of 16; nothing is added
/// where the length is one already.
pub open spec fn padded(data: Seq<u8>) -> Seq<u8> {
    data + zeros(((16 - data.len() % 16) % 16) as nat)
}

/// The block of 16 bytes with index `i`.
pub open spec fn block_at(data: Seq<u8>, i: int) -> Seq<u8> {
    data.subrange(16 * i, 16 * i + 16)
}

/// Two blocks, combined bit by bit with exclusive or.
pub open spec fn xored(a: Seq<u8>, b: Seq<u8>) -> Seq<u8> {
    Seq::new(16, |i: int| a[i] ^ b[i])
}

/// The initial vector: the first half of the key.
pub open spec fn initial(key: Seq<u8>) -> Seq<u8> {
    key.subrange(0, 16)
}

/// The first `n` blocks of `data`, encrypted in CBC mode.
pub open spec fn cbc_encrypted(key: Seq<u8>, data: Seq<u8>, n: nat) -> Seq<u8>
    decreases n,
{
    if n == 0 {
        Seq::<u8>::empty()
    } else {
        let before = cbc_encrypted(key, data, (n - 1) as nat);
        let prev = if n == 1 {
            initial(key)
        } else {
            block_at(before, n - 2)
        };
        before + aes_encrypted(key, xored(block_at(data, n - 1), prev))
    }
}

/// The first `n` blocks of `data`, decrypted in CBC mode.
pub open spec fn cbc_decrypted(key: Seq<u8>, data: Seq<u8>, n: nat) -> Seq<u8>
    decreases n,
{
    if n == 0 {
        Seq::<u8>::empty()
    } else {
        let prev = if n == 1 {
            initial(key)
        } else {
            block_at(data, n - 2)
        };
        cbc_decrypted(key, data, (n - 1) as nat) + xored(
            aes_decrypted(key, block_at(data, n - 1)),
            prev,
        )
    }
}

/// The first blocks of a decryption depend on the first blocks of the data.
proof fn lemma_cbc_decrypted_prefix(key: Seq<u8>, a: Seq<u8>, b: Seq<u8>, n: nat)
    requires
        16 * n <= a.len(),
    ensures
        cbc_decrypted(key, a + b, n) == cbc_decrypted(key, a, n),
    decreases n,
{
    if n > 0 {
        lemma_cbc_decrypted_prefix(key, a, b, (n - 1) as nat);
        assert(block_at(a + b, n - 1) =~= block_at(a, n - 1));
        if n > 1 {
            assert(block_at(a + b, n - 2) =~= block_at(a, n - 2));
        }
    }
}

/// Exclusive or with the same block twice changes nothing.
proof fn lemma_xored_twice(a: Seq<u8>, b: Seq<u8>)
    requires
        a.len() == 16,
    ensures
        xored(xored(a, b), b) == a,
{
    assert forall|i: int| 0 <= i < 16 implies xored(xored(a, b), b)[i] == a[i] by {
        let x = a[i];
        let y = b[i];
        assert((x ^ y) ^ y == x) by (bit_vector);
    }
    assert(xored(xored(a, b), b) =~= a);
}

/// Encrypts whole blocks in CBC mode.
fn cbc_encrypt(key: &[u8; 32], data: &Vec<u8>) -> (r: Vec<u8>)
    requires
        data@.len() % 16 == 0,
    ensures
        r@ == cbc_encrypted(key@, data@, data@.len() / 16),
        r@.len() == data@.len(),
        cbc_decrypted(key@, r@, data@.len() / 16) == data@,
{
    let mut prev: [u8; 16] = [0u8; 16];
    let mut j: usize = 0;
    while j < 16
        invariant
            j <= 16,
            forall|k: int| 0 <= k < j ==> prev@[k] == key@[k],
        decreases 16 - j,
    {
        prev[j] = key[j];
        j = j + 1;
    }
    assert(prev@ =~= initial(key@));
    let mut out: Vec<u8> = Vec::new();
    let n: usize = data.len() / 16;
    let mut i: usize = 0;
    assert(data@.take(0) =~= Seq::<u8>::empty());
    while i < n
        invariant
            i <= n,
            n == data.len() / 16,
            data@.len() % 16 == 0,
            out@.len() == 16 * i,
            out@ == cbc_encrypted(key@, data@, i as nat),
            cbc_decrypted(key@, out@, i as nat) == data@.take(16 * i),
            i == 0 ==> prev@ == initial(key@),
            i > 0 ==> prev@ == block_at(out@, i - 1),
        decreases n - i,
    {
        let mut buf: [u8; 16] = [0u8; 16];
        let mut j: usize = 0;
        while j < 16
            invariant
                j <= 16,
                i < n,
                n == data.len() / 16,
                forall|k: int| 0 <= k < j ==> buf@[k] == data@[16 * i + k] ^ prev@[k],
            decreases 16 - j,
        {
            buf[j] = data[16 * i + j] ^ prev[j];
            j = j + 1;
        }
        let ghost plain = block_at(data@, i as int);
        let ghost before = out@;
        let ghost last = prev@;
        assert(buf@ =~= xored(plain, last));
        let state = encrypt_block(key, &buf);
        push_all(&mut out, &state);
        prev = state;
        proof {
            assert(out@ == before + state@);
            assert(block_at(out@, i as int) =~= state@);
            lemma_cbc_decrypted_prefix(key@, before, state@, i as nat);
            if i > 0 {
                assert(block_at(out@, i - 1) =~= block_at(before, i - 1));
            }
            lemma_xored_twice(plain, last);
            assert(cbc_decrypted(key@, out@, (i + 1) as nat) =~= data@.take(16 * i) + plain);
            assert(data@.take(16 * i) + plain =~= data@.take(16 * (i + 1)));
        }
        i = i + 1;
    }
    assert(data@.take(16 * n) =~= data@);
    out
}

/// Appends a block.
fn push_all(out: &mut Vec<u8>, block: &[u8; 16])
    ensures
        final(out)@ == old(out)@ + block@,
{
    let ghost before = out@;
    let mut j: usize = 0;
    while j < 16
        invariant
            j <= 16,
            out@ == before + block@.take(j as int),
        decreases 16 - j,
    {
        out.push(block[j]);
        assert(out@ =~= before + block@.take(j + 1));
        j = j + 1;
    }
    assert(block@.take(16) =~= block@);
}

/// Decrypts whole blocks in CBC mode.
fn cbc_decrypt(key: &[u8; 32], data: &Vec<u8>) -> (r: Vec<u8>)
    requires
        data@.len() % 16 == 0,
    ensures
        r@ == cbc_decrypted(key@, data@, data@.len() / 16),
{
    let mut out: Vec<u8> = Vec::new();
    let n: usize = data.len() / 16;
    let mut i: usize = 0;
    while i < n
        invariant
            i <= n,
            n == data.len() / 16,
            out@ == cbc_decrypted(key@, data@, i as nat),
        decreases n - i,
    {
        let mut block: [u8; 16] = [0u8; 16];
        let mut j: usize = 0;
        while j < 16
            invariant
                j <= 16,
                i < n,
                n == data.len() / 16,
                forall|k: int| 0 <= k < j ==> block@[k] == data@[16 * i + k],
            decreases 16 - j,
        {
            block[j] = data[16 * i + j];
            j = j + 1;
        }
        assert(block@ =~= block_at(data@, i as int));
        let state = decrypt_block(key, &block);
        let mut plain: [u8; 16] = [0u8; 16];
        let ghost prev = if i == 0 {
            initial(key@)
        } else {
            block_at(data@, i - 1)
        };
        let mut j: usize = 0;
        while j < 16
            invariant
                j <= 16,
                i < n,
                n == data.len() / 16,
                prev == if i == 0 {
                    initial(key@)
                } else {
                    block_at(data@, i - 1)
                },
                forall|k: int| 0 <= k < j ==> plain@[k] == state@[k] ^ prev[k],
            decreases 16 - j,
        {
            let p: u8 = if i == 0 {
                key[j]
            } else {
                data[16 * (i - 1) + j]
            };
            assert(p == prev[j as int]);
            plain[j] = state[j] ^ p;
            j = j + 1;
        }
        assert(plain@ =~= xored(state@, prev));
        push_all(&mut out, &plain);
        i = i + 1;
    }
    out
}

/// Encoding one text after another is encoding both in a row.
proof fn lemma_encode_concat(a: Text, b: Text)
    ensures
        encode_utf8(a + b) == encode_utf8(a) + encode_utf8(b),
    decreases a.len(),
{
    if a.len() == 0 {
        assert(a + b =~= b);
        assert(encode_utf8(a) + encode_utf8(b) =~= encode_utf8(b));
    } else {
        lemma_encode_concat(a.drop_first(), b);
        assert((a + b).drop_first() =~= a.drop_first() + b);
        assert(encode_utf8(a + b) =~= encode_utf8(a) + encode_utf8(b));
    }
}

/// `n` NUL characters.
spec fn nuls(n: nat) -> Text {
    Seq::new(n, |i: int| '\0')
}

/// A NUL character is one zero byte.
proof fn lemma_nul()
    ensures
        encode_utf8(seq!['\0']) == seq![0u8],
{
    let s = seq!['\0'];
    assert(s.drop_first() =~= Seq::<char>::empty());
    assert(vstd::utf8::leading_byte_width_1(0u32) == 0u8) by (bit_vector);
    assert(vstd::utf8::has_width_1_encoding(0u32));
    assert('\0' as u32 == 0u32);
    assert(vstd::utf8::encode_scalar(s[0] as u32) =~= seq![0u8]);
    assert(encode_utf8(s.drop_first()) =~= Seq::<u8>::empty());
    assert(encode_utf8(s) =~= seq![0u8]);
}

/// NUL characters are encoded as zero bytes.
proof fn lemma_encode_nuls(n: nat)
    ensures
        encode_utf8(nuls(n)) == zeros(n),
    decreases n,
{
    if n == 0 {
        assert(nuls(0) =~= Seq::<char>::empty());
        assert(zeros(0) =~= Seq::<u8>::empty());
    } else {
        lemma_encode_nuls((n - 1) as nat);
        lemma_nul();
        assert(nuls(n) =~= nuls((n - 1) as nat) + seq!['\0']);
        lemma_encode_concat(nuls((n - 1) as nat), seq!['\0']);
        assert(zeros(n) =~= zeros((n - 1) as nat) + seq![0u8]);
    }
}

/// Text that was padded with zero bytes is found again by dropping NULs.
proof fn lemma_padding_drops(p: Seq<u8>, n: nat)
    requires
        valid_utf8(p),
        p.len() > 0 ==> p.last() != 0,
    ensures
        valid_utf8(p + zeros(n)),
        encode_utf8(drop_back(decode_utf8(p + zeros(n)), among("\0"@))) == p,
{
    broadcast use {
        vstd::utf8::decode_utf8_encode_utf8,
        vstd::utf8::encode_utf8_decode_utf8,
        vstd::utf8::encode_utf8_valid_utf8,
    };

    let chars = decode_utf8(p);
    lemma_encode_nuls(n);
    lemma_encode_concat(chars, nuls(n));
    let all = chars + nuls(n);
    assert(encode_utf8(all) == p + zeros(n));
    reveal_strlit("\0");
    let set = "\0"@;
    assert(set[0] == '\0');
    if chars.len() > 0 && chars.last() == '\0' {
        assert(chars =~= chars.drop_last() + seq!['\0']);
        lemma_encode_concat(chars.drop_last(), seq!['\0']);
        lemma_nul();
        assert(p.last() == 0);
    }
    assert forall|i: int| chars.len() <= i < all.len() implies among(set)(#[trigger] all[i]) by {
        assert(set.contains('\0'));
    }
    assert(chars.len() > 0 ==> !among(set)(all[chars.len() - 1]));
    crate::text::lemma_drop_back(all, among(set), chars.len() as int);
    assert(all.subrange(0, chars.len() as int) =~= chars);
}

/// Bytes without the zero bytes at their end.
pub open spec fn without_zeros(p: Seq<u8>) -> Seq<u8>
    decreases p.len(),
{
    if p.len() > 0 && p.last() == 0 {
        without_zeros(p.drop_last())
    } else {
        p
    }
}

/// What dropping the zero bytes at the end leaves, and that zero bytes are all it drops.
proof fn lemma_without_zeros(p: Seq<u8>)
    ensures
        without_zeros(p).len() <= p.len(),
        p == without_zeros(p) + zeros((p.len() - without_zeros(p).len()) as nat),
        without_zeros(p).len() > 0 ==> without_zeros(p).last() != 0,
    decreases p.len(),
{
    let q = without_zeros(p);
    if p.len() > 0 && p.last() == 0 {
        lemma_without_zeros(p.drop_last());
        let k = (p.len() - 1 - q.len()) as nat;
        assert(p =~= p.drop_last().push(0));
        assert(zeros(k + 1) =~= zeros(k).push(0));
        assert(q + zeros(k + 1) =~= (q + zeros(k)).push(0));
    } else {
        assert(p =~= q + zeros(0));
    }
}

/// Zero bytes at the end do not make UTF-8 of what is none.
proof fn lemma_zeros_keep_utf8(p: Seq<u8>, n: nat)
    requires
        valid_utf8(p + zeros(n)),
    ensures
        valid_utf8(p),
{
    let all = p + zeros(n);
    let k = p.len() as int;
    if n == 0 {
        assert(all =~= p);
    } else {
        assert(all[k] == 0);
        assert(!vstd::utf8::is_continuation_byte(0u8));
        vstd::utf8::is_char_boundary_iff_not_is_continuation_byte(all, k);
        vstd::utf8::valid_utf8_split(all, k);
        assert(all.subrange(0, k) =~= p);
    }
}

/// AES-CBC as ChatBridge uses it.
#[derive(Debug)]
pub struct AesCryptor {
    key_empty: bool,
    hashed_key: [u8; 32],
}

impl AesCryptor {
    /// Whether packets go in the clear, because the password is empty.
    pub closed spec fn in_clear(&self) -> bool {
        self.key_empty
    }

    /// The AES key.
    pub closed spec fn key(&self) -> Seq<u8> {
        self.hashed_key@
    }

    /// What goes over the wire for `plain`.
    pub open spec fn sealed(&self, plain: Seq<u8>) -> Seq<u8> {
        if self.in_clear() {
            plain
        } else {
            hex_of(cbc_encrypted(self.key(), padded(plain), padded(plain).len() / 16))
        }
    }

    /// What a wire text says: nothing where it is no hex, not in whole blocks, or
    /// no UTF-8 after decryption. The NULs of the padding are dropped.
    pub open spec fn opened(&self, wire: Seq<u8>) -> Option<Seq<u8>> {
        if self.in_clear() {
            if valid_utf8(wire) {
                Some(wire)
            } else {
                None
            }
        } else {
            match unhex(wire) {
                None => None,
                Some(c) => if c.len() % 16 != 0 {
                    None
                } else {
                    let plain = cbc_decrypted(self.key(), c, c.len() / 16);
                    if valid_utf8(plain) {
                        Some(encode_utf8(drop_back(decode_utf8(plain), among("\0"@))))
                    } else {
                        None
                    }
                },
            }
        }
    }

    /// A cryptor for the password `key`.
    pub fn new(key: &str) -> (r: Self)
        ensures
            r.in_clear() == (key@.len() == 0),
            r.key() == sha256_of(padded(encode_utf8(key@))),
    {
        let data = Self::to_16_length(key.as_bytes());
        AesCryptor { key_empty: key.is_empty(), hashed_key: sha256(data.as_slice()) }
    }

    /// `data` with zero bytes behind it up to a multiple of 16.
    pub fn to_16_length(data: &[u8]) -> (r: Vec<u8>)
        ensures
            r@ == padded(data@),
            r@.len() % 16 == 0,
    {
        let left: usize = data.len() % 16;
        let missing: usize = if left == 0 {
            0
        } else {
            16 - left
        };
        proof {
            lemma_missing(data@.len());
        }
        let mut out: Vec<u8> = slice_to_vec(data);
        let mut added: usize = 0;
        assert(out@ =~= data@ + zeros(0));
        while added < missing
            invariant
                out@ == data@ + zeros(added as nat),
                added <= missing,
            decreases missing - added,
        {
            out.push(0);
            assert(out@ =~= data@ + zeros(added as nat + 1));
            added = added + 1;
        }
        out
    }

    /// Encrypts `plaintext` for the wire. [`AesCryptor::decrypt`] finds UTF-8 again,
    /// without the NULs at its end unless the password is empty; what is no UTF-8 it
    /// refuses.
    pub fn encrypt(&self, plaintext: &[u8]) -> (r: Vec<u8>)
        ensures
            r@ == self.sealed(plaintext@),
            self.opened(r@) == (if !valid_utf8(plaintext@) {
                None
            } else if self.in_clear() {
                Some(plaintext@)
            } else {
                Some(without_zeros(plaintext@))
            }),
    {
        if self.key_empty {
            return slice_to_vec(plaintext);
        }
        let data = Self::to_16_length(plaintext);
        let ciphertext = cbc_encrypt(&self.hashed_key, &data);
        proof {
            hex_round_trip(ciphertext@);
            let n = ((16 - plaintext@.len() % 16) % 16) as nat;
            if valid_utf8(plaintext@) {
                let q = without_zeros(plaintext@);
                let k = (plaintext@.len() - q.len()) as nat;
                lemma_without_zeros(plaintext@);
                lemma_zeros_keep_utf8(q, k);
                lemma_padding_drops(q, k + n);
                assert(q + zeros(k + n) =~= plaintext@ + zeros(n));
            } else if valid_utf8(plaintext@ + zeros(n)) {
                lemma_zeros_keep_utf8(plaintext@, n);
            }
        }
        hex_encode(ciphertext.as_slice())
    }

    /// Decrypts what came over the wire.
    pub fn decrypt(&self, wire: &[u8]) -> (r: Option<Vec<u8>>)
        ensures
            match r {
                Some(v) => self.opened(wire@) == Some(v@),
                None => self.opened(wire@) is None,
            },
    {
        if self.key_empty {
            let bytes = slice_to_vec(wire);
            return match utf8_text(bytes) {
                Some(_) => Some(slice_to_vec(wire)),
                None => None,
            };
        }
        let ciphertext = match hex_decode(wire) {
            Some(c) => c,
            None => return None,
        };
        if ciphertext.len() % 16 != 0 {
            return None;
        }
        let plain = cbc_decrypt(&self.hashed_key, &ciphertext);
        match utf8_text(plain) {
            Some(text) => Some(bytes_of(trim_end_of(text.as_str(), "\0").as_str())),
            None => None,
        }
    }
}

pub const PACKET_TYPE_KEEP_ALIVE: &'static str = "chatbridge.keep_alive";

pub const PACKET_TYPE_CHAT: &'static str = "chatbridge.chat";

pub const SERVER_NAME: &'static str = "#SERVER";

/// Seconds between two pings.
pub const KEEP_ALIVE_INTERVAL: u64 = 60;

/// Seconds to wait for a pong.
pub const KEEP_ALIVE_TIMEOUT: u64 = 15;

/// Seconds before the client connects again.
pub const RECONNECT_DELAY: u64 = 5;

/// Seconds that connecting and logging in may take.
pub const CONNECT_TIMEOUT: u64 = 20;

/// Errors in a row that end a connection.
pub const MAX_ERRORS: u32 = 5;

/// Most bytes that are read at once.
pub const READ_CHUNK: usize = 65536;

/// The order in which a machine keeps the bytes of a number.
#[derive(Clone, Copy, PartialEq, Eq, Structural, Debug)]
pub enum ByteOrder {
    Little,
    Big,
}

/// The four bytes of `n`, the lowest first.
pub open spec fn little_bytes(n: u32) -> Seq<u8> {
    seq![
        (n % 256) as u8,
        (n / 256 % 256) as u8,
        (n / 65536 % 256) as u8,
        (n / 16777216) as u8,
    ]
}

/// The number that four bytes write, the lowest first.
pub open spec fn little_value(b: Seq<u8>) -> u32 {
    (b[0] + 256 * b[1] + 65536 * b[2] + 16777216 * b[3]) as u32
}

/// The four bytes of `n`.
pub open spec fn prefix_bytes(order: ByteOrder, n: u32) -> Seq<u8> {
    match order {
        ByteOrder::Little => little_bytes(n),
        ByteOrder::Big => little_bytes(n).reverse(),
    }
}

/// The number that four bytes write.
pub open spec fn prefix_value(order: ByteOrder, b: Seq<u8>) -> u32 {
    match order {
        ByteOrder::Little => little_value(b),
        ByteOrder::Big => little_value(b.reverse()),
    }
}

/// A payload behind its length; a length from 2^32 on loses its high bits.
pub open spec fn frame_of(order: ByteOrder, payload: Seq<u8>) -> Seq<u8> {
    prefix_bytes(order, (payload.len() % 0x1_0000_0000) as u32) + payload
}

/// The byte order of the machine that runs this.
pub open spec fn machine_order() -> ByteOrder {
    match vstd::endian::endianness() {
        vstd::endian::Endian::Little => ByteOrder::Little,
        vstd::endian::Endian::Big => ByteOrder::Big,
    }
}

/// Calls `u32::to_ne_bytes` of std: the bytes of the number in the order of this
/// machine. Which of the two orders that is, is not stated.
#[verifier::external_body]
fn native_bytes(n: u32) -> (r: [u8; 4])
    ensures
        r@ == prefix_bytes(machine_order(), n),
{
    n.to_ne_bytes()
}

/// The byte order of this machine.
pub fn native_order() -> (r: ByteOrder)
    ensures
        r == machine_order(),
{
    let b = native_bytes(1);
    assert(little_bytes(1)[0] == 1 && little_bytes(1).reverse()[0] == 0);
    if b[0] == 1 {
        ByteOrder::Little
    } else {
        ByteOrder::Big
    }
}

/// The last byte first.
fn reversed(v: &[u8]) -> (r: Vec<u8>)
    ensures
        r@ == v@.reverse(),
{
    let mut out: Vec<u8> = Vec::new();
    let mut i: usize = v.len();
    while i > 0
        invariant
            i <= v@.len(),
            out@ == v@.reverse().take(v@.len() - i),
        decreases i,
    {
        i = i - 1;
        out.push(v[i]);
        assert(v@.reverse().take(v@.len() - i) =~= v@.reverse().take(v@.len() - i - 1).push(
            v@[i as int],
        ));
    }
    assert(v@.reverse().take(v@.len() as int) =~= v@.reverse());
    out
}

/// Puts `payload` in a frame.
pub fn encode_frame_in(order: ByteOrder, payload: &[u8]) -> (r: Vec<u8>)
    ensures
        r@ == frame_of(order, payload@),
{
    let n: u32 = (payload.len() as u64 % 0x1_0000_0000) as u32;
    let le: Vec<u8> = vec![
        (n % 256) as u8,
        (n / 256 % 256) as u8,
        (n / 65536 % 256) as u8,
        (n / 16777216) as u8,
    ];
    assert(le@ =~= little_bytes(n));
    let mut out: Vec<u8> = match order {
        ByteOrder::Little => le,
        ByteOrder::Big => reversed(le.as_slice()),
    };
    let ghost head = out@;
    let mut i: usize = 0;
    assert(out@ =~= head + payload@.take(0));
    while i < payload.len()
        invariant
            i <= payload@.len(),
            out@ == head + payload@.take(i as int),
        decreases payload@.len() - i,
    {
        out.push(payload[i]);
        assert(out@ =~= head + payload@.take(i + 1));
        i = i + 1;
    }
    assert(payload@.take(i as int) =~= payload@);
    out
}

/// Puts `payload` in a frame, its length in the byte order of this machine.
pub fn encode_frame(payload: &[u8]) -> (r: Vec<u8>)
    ensures
        r@ == frame_of(machine_order(), payload@),
{
    encode_frame_in(native_order(), payload)
}

/// The number that four bytes write, the lowest first.
fn read_little(b: &[u8]) -> (r: u32)
    requires
        b@.len() == 4,
    ensures
        r == little_value(b@),
{
    b[0] as u32 + 256 * b[1] as u32 + 65536 * b[2] as u32 + 16777216 * b[3] as u32
}

/// A frame that is being read.
#[derive(Debug)]
pub struct FrameReader {
    pub order: ByteOrder,
    pub data: Vec<u8>,
}

impl FrameReader {
    /// How many bytes the frame has in all, as far as what was read tells.
    pub open spec fn total(&self) -> nat {
        if self.data@.len() < 4 {
            4
        } else {
            4 + prefix_value(self.order, self.data@.subrange(0, 4)) as nat
        }
    }

    /// Nothing was read beyond the frame.
    pub open spec fn wf(&self) -> bool {
        self.data@.len() <= self.total()
    }

    /// A reader that has read nothing.
    pub fn new(order: ByteOrder) -> (r: Self)
        ensures
            r.order == order,
            r.data@.len() == 0,
            r.wf(),
    {
        FrameReader { order, data: Vec::new() }
    }

    /// How many bytes to read next: 0 where the frame is complete.
    pub fn wanted(&self) -> (r: usize)
        requires
            self.wf(),
        ensures
            r <= READ_CHUNK,
            r as nat == if self.total() - self.data@.len() <= READ_CHUNK {
                self.total() - self.data@.len()
            } else {
                READ_CHUNK as int
            },
    {
        if self.data.len() < 4 {
            return 4 - self.data.len();
        }
        let head = vstd::slice::slice_subrange(self.data.as_slice(), 0, 4);
        let n: u32 = match self.order {
            ByteOrder::Little => read_little(head),
            ByteOrder::Big => read_little(reversed(head).as_slice()),
        };
        let left: u64 = n as u64 - (self.data.len() - 4) as u64;
        if left <= READ_CHUNK as u64 {
            left as usize
        } else {
            READ_CHUNK
        }
    }

    /// Takes what was read, which is no more than what was wanted.
    pub fn feed(&mut self, chunk: &[u8])
        requires
            old(self).wf(),
            chunk@.len() <= READ_CHUNK,
            chunk@.len() <= old(self).total() - old(self).data@.len(),
        ensures
            final(self).wf(),
            final(self).order == old(self).order,
            final(self).data@ == old(self).data@ + chunk@,
    {
        let ghost before = self.data@;
        let mut i: usize = 0;
        assert(before =~= before + chunk@.take(0));
        while i < chunk.len()
            invariant
                i <= chunk@.len(),
                self.order == old(self).order,
                self.data@ == before + chunk@.take(i as int),
            decreases chunk@.len() - i,
        {
            self.data.push(chunk[i]);
            assert(self.data@ =~= before + chunk@.take(i + 1));
            i = i + 1;
        }
        proof {
            assert(chunk@.take(i as int) =~= chunk@);
            if before.len() >= 4 {
                assert(self.data@.subrange(0, 4) =~= before.subrange(0, 4));
            }
        }
    }

    /// The payload of a frame that was read.
    pub fn body(&self) -> (r: Vec<u8>)
        requires
            self.data@.len() >= 4,
        ensures
            r@ == self.data@.subrange(4, self.data@.len() as int),
    {
        let n: usize = self.data.len();
        slice_to_vec(vstd::slice::slice_subrange(self.data.as_slice(), 4, n))
    }
}

/// A reader that has taken the bytes of a frame wants nothing more, and the
/// payload is the one that was framed.
pub proof fn frame_round_trip(r: FrameReader, payload: Seq<u8>)
    requires
        r.data@ == frame_of(r.order, payload),
        payload.len() < 0x1_0000_0000,
    ensures
        r.wf(),
        r.total() == r.data@.len(),
        r.data@.subrange(4, r.data@.len() as int) == payload,
{
    let n = payload.len() as u32;
    let le = little_bytes(n);
    assert(little_value(le) == n);
    assert(le.reverse().reverse() =~= le);
    assert(r.data@.subrange(0, 4) =~= prefix_bytes(r.order, n));
    assert(prefix_value(r.order, r.data@.subrange(0, 4)) == n);
    assert(r.data@.subrange(4, r.data@.len() as int) =~= payload);
}

/// Why no packet could be received.
#[derive(Debug)]
pub enum RecvError {
    /// The connection is gone.
    Connection(String),
    /// What came cannot be decrypted or read.
    Decode(String),
}

/// The message of an error.
pub fn recv_error_message(err: RecvError) -> (r: String)
    ensures
        r == match err {
            RecvError::Connection(m) => m,
            RecvError::Decode(m) => m,
        },
{
    match err {
        RecvError::Connection(m) => m,
        RecvError::Decode(m) => m,
    }
}

/// The message for a body that cannot be decrypted.
pub const UNREADABLE: &'static str = "解密失败（非法 hex / 非 UTF-8）";

/// What a frame's body says: the JSON value in it, or why there is none.
pub open spec fn packet_in(cryptor: AesCryptor, body: Seq<u8>) -> Result<JsonV, Text> {
    match cryptor.opened(body) {
        Some(plain) => json_read(plain),
        None => Err(UNREADABLE@),
    }
}

/// Decrypts and reads the body of a frame.
pub fn decode_packet(cryptor: &AesCryptor, body: &[u8]) -> (r: Result<Json, RecvError>)
    ensures
        match r {
            Ok(j) => packet_in(*cryptor, body@) == Ok::<JsonV, Text>(j@),
            Err(RecvError::Decode(m)) => packet_in(*cryptor, body@) == Err::<JsonV, Text>(m@),
            Err(RecvError::Connection(_)) => false,
        },
{
    match cryptor.decrypt(body) {
        Some(plain) => match parse_json(plain.as_slice()) {
            Ok(j) => Ok(j),
            Err(m) => Err(RecvError::Decode(m)),
        },
        None => Err(RecvError::Decode(UNREADABLE.to_owned())),
    }
}

/// A value as text; nothing is empty.
pub open spec fn worded_or_nothing(value: Option<JsonV>) -> Text {
    match value {
        None => Seq::<char>::empty(),
        Some(j) => worded(j),
    }
}

/// A value as text.
pub fn word_of(value: Option<&Json>) -> (r: String)
    ensures
        r@ == worded_or_nothing(opt_view(value)),
{
    match value {
        None => String::new(),
        Some(j) => j.word(),
    }
}

/// The text under `key`, or an empty text where there is no string.
pub open spec fn text_field(j: JsonV, key: Text) -> Text {
    match j.field(key) {
        Some(JsonV::Str(s)) => s,
        _ => Seq::<char>::empty(),
    }
}

/// The text under `key`, or an empty text where there is no string.
fn get_text(j: &Json, key: &str) -> (r: String)
    ensures
        r@ == text_field(j@, key@),
{
    match j.get(key) {
        Some(Json::Str(s)) => s.clone(),
        _ => String::new(),
    }
}

/// What a packet asks for.
#[derive(Debug)]
pub enum Dispatch {
    /// Nothing.
    Nothing,
    /// An answer to the ping of the client named here.
    Pong(String),
    /// The server has answered a ping.
    PongSeen,
    /// A chat message.
    Chat { sender: String, author: String, message: String },
}

/// What a [`Dispatch`] holds.
pub enum DispatchV {
    Nothing,
    Pong(Text),
    PongSeen,
    Chat { sender: Text, author: Text, message: Text },
}

impl View for Dispatch {
    type V = DispatchV;

    open spec fn view(&self) -> DispatchV {
        match self {
            Dispatch::Nothing => DispatchV::Nothing,
            Dispatch::Pong(s) => DispatchV::Pong(s@),
            Dispatch::PongSeen => DispatchV::PongSeen,
            Dispatch::Chat { sender, author, message } => DispatchV::Chat {
                sender: sender@,
                author: author@,
                message: message@,
            },
        }
    }
}

/// What a packet asks for; only a packet that is no object is an error.
pub open spec fn dispatched(packet: JsonV) -> Result<DispatchV, Text> {
    match packet {
        JsonV::Object(_) => Ok(
            match packet.field("payload"@) {
                Some(JsonV::Object(m)) => {
                    let payload = JsonV::Object(m);
                    let kind = text_field(packet, "type"@);
                    let sender = text_field(packet, "sender"@);
                    if kind == PACKET_TYPE_KEEP_ALIVE@ {
                        if text_field(payload, "ping_type"@) == "ping"@ {
                            DispatchV::Pong(sender)
                        } else if text_field(payload, "ping_type"@) == "pong"@ {
                            DispatchV::PongSeen
                        } else {
                            DispatchV::Nothing
                        }
                    } else if kind == PACKET_TYPE_CHAT@ {
                        let message = worded_or_nothing(payload.field("message"@));
                        if message.len() > 0 {
                            DispatchV::Chat {
                                sender,
                                author: worded_or_nothing(payload.field("author"@)),
                                message,
                            }
                        } else {
                            DispatchV::Nothing
                        }
                    } else {
                        DispatchV::Nothing
                    }
                },
                _ => DispatchV::Nothing,
            },
        ),
        _ => Err("包不是 JSON 对象: "@ + json_text_of(packet)),
    }
}

/// Looks at a packet.
pub fn dispatch(packet: &Json) -> (r: Result<Dispatch, String>)
    ensures
        match r {
            Ok(d) => dispatched(packet@) == Ok::<DispatchV, Text>(d@),
            Err(m) => dispatched(packet@) == Err::<DispatchV, Text>(m@),
        },
{
    match packet {
        Json::Object(_) => {},
        _ => {
            return Err(join2("包不是 JSON 对象: ", json_text(packet).as_str()));
        },
    }
    let kind = get_text(packet, "type");
    let sender = get_text(packet, "sender");
    let payload = match packet.get("payload") {
        Some(p) => p,
        None => {
            return Ok(Dispatch::Nothing);
        },
    };
    match payload {
        Json::Object(_) => {},
        _ => {
            return Ok(Dispatch::Nothing);
        },
    }
    if same(kind.as_str(), PACKET_TYPE_KEEP_ALIVE) {
        let ping_type = get_text(payload, "ping_type");
        if same(ping_type.as_str(), "ping") {
            Ok(Dispatch::Pong(sender))
        } else if same(ping_type.as_str(), "pong") {
            Ok(Dispatch::PongSeen)
        } else {
            Ok(Dispatch::Nothing)
        }
    } else if same(kind.as_str(), PACKET_TYPE_CHAT) {
        let author = word_of(payload.get("author"));
        let message = word_of(payload.get("message"));
        if message.as_str().is_empty() {
            Ok(Dispatch::Nothing)
        } else {
            Ok(Dispatch::Chat { sender, author, message })
        }
    } else {
        Ok(Dispatch::Nothing)
    }
}

/// What the receiving loop does after an event.
#[derive(Debug)]
pub enum Step {
    /// The connection ends.
    Stop,
    /// The loop goes on, after this.
    Go(Dispatch),
}

/// The receiving loop of one connection: it counts errors in a row.
#[derive(Debug)]
pub struct ReceiveLoop {
    pub errors: u32,
}

/// The errors in a row after an event, given whether the event was an error.
pub open spec fn errors_after(errors: u32, failed: bool) -> u32 {
    if failed {
        (errors + 1) as u32
    } else {
        0
    }
}

/// An error was counted: the loop stops at [`MAX_ERRORS`] and goes on before.
pub open spec fn counted(before: u32, after: u32, step: Step) -> bool {
    &&& after == errors_after(before, true)
    &&& if after >= MAX_ERRORS {
        step is Stop
    } else {
        step is Go && step->0@ == DispatchV::Nothing
    }
}

impl ReceiveLoop {
    /// A loop that has seen no error.
    pub fn new() -> (r: Self)
        ensures
            r.errors == 0,
    {
        ReceiveLoop { errors: 0 }
    }

    /// Takes one event. A lost connection stops the loop at once, errors stop it
    /// when there were [`MAX_ERRORS`] in a row, and a packet that can be handled
    /// starts the count again.
    pub fn received(&mut self, event: Result<Json, RecvError>) -> (r: Step)
        requires
            old(self).errors < MAX_ERRORS,
        ensures
            match event {
                Err(RecvError::Connection(_)) => r is Stop && final(self).errors == old(self).errors,
                Err(RecvError::Decode(_)) => counted(old(self).errors, final(self).errors, r),
                Ok(p) => match dispatched(p@) {
                    Ok(v) => final(self).errors == errors_after(old(self).errors, false) && r is Go
                        && r->0@ == v,
                    Err(_) => counted(old(self).errors, final(self).errors, r),
                },
            },
    {
        match event {
            Ok(packet) => match dispatch(&packet) {
                Ok(d) => {
                    self.errors = 0;
                    Step::Go(d)
                },
                Err(_) => self.failed(),
            },
            Err(RecvError::Connection(_)) => Step::Stop,
            Err(RecvError::Decode(_)) => self.failed(),
        }
    }

    /// Counts an error.
    fn failed(&mut self) -> (r: Step)
        requires
            old(self).errors < MAX_ERRORS,
        ensures
            counted(old(self).errors, final(self).errors, r),
    {
        self.errors = self.errors + 1;
        if self.errors >= MAX_ERRORS {
            Step::Stop
        } else {
            Step::Go(Dispatch::Nothing)
        }
    }
}

/// The count of errors after `n` errors in a row.
pub open spec fn errors_after_run(n: nat) -> u32
    decreases n,
{
    if n == 0 {
        0
    } else {
        errors_after(errors_after_run((n - 1) as nat), true)
    }
}

/// Fewer than [`MAX_ERRORS`] errors in a row keep the connection, and that many
/// end it; one packet that can be handled starts the count again.
pub proof fn errors_in_a_row_end_the_connection(n: nat)
    requires
        n <= MAX_ERRORS,
    ensures
        errors_after_run(n) >= MAX_ERRORS <==> n == MAX_ERRORS,
        errors_after(errors_after_run(n), false) == errors_after_run(0),
{
    reveal_with_fuel(errors_after_run, 7);
}

/// The packet of a client: whom it is for, what kind it is and what it carries.
pub open spec fn packet_v(
    sender: Text,
    receivers: Seq<Text>,
    broadcast: bool,
    kind: Text,
    payload: Seq<(Text, JsonV)>,
) -> JsonV {
    JsonV::Object(
        seq![
            ("sender"@, JsonV::Str(sender)),
            ("receivers"@, JsonV::Array(receivers.map_values(|t: Text| JsonV::Str(t)))),
            ("broadcast"@, JsonV::Bool(broadcast)),
            ("type"@, JsonV::Str(kind)),
            ("payload"@, JsonV::Object(payload)),
        ],
    )
}

/// What a chat packet carries.
pub open spec fn chat_payload(author: Text, message: Text) -> Seq<(Text, JsonV)> {
    seq![("author"@, JsonV::Str(author)), ("message"@, JsonV::Str(message))]
}

/// What a keep-alive packet carries.
pub open spec fn ping_payload(ping_type: Text) -> Seq<(Text, JsonV)> {
    seq![("ping_type"@, JsonV::Str(ping_type))]
}

/// Builds a packet.
fn build_packet(
    sender: &str,
    receiver: Option<&str>,
    broadcast: bool,
    kind: &str,
    payload: Vec<(String, Json)>,
) -> (r: Json)
    ensures
        r@ == packet_v(
            sender@,
            match receiver {
                Some(t) => seq![t@],
                None => Seq::<Text>::empty(),
            },
            broadcast,
            kind@,
            members(payload@),
        ),
{
    broadcast use {crate::json::array_view, crate::json::object_view};

    let ghost to = match receiver {
        Some(t) => seq![t@],
        None => Seq::<Text>::empty(),
    };
    let mut list: Vec<Json> = Vec::new();
    match receiver {
        Some(t) => {
            list.push(Json::Str(t.to_owned()));
        },
        None => {},
    }
    assert(items(list@) =~= to.map_values(|t: Text| JsonV::Str(t)));
    let m: Vec<(String, Json)> = vec![
        ("sender".to_owned(), Json::Str(sender.to_owned())),
        ("receivers".to_owned(), Json::Array(list)),
        ("broadcast".to_owned(), Json::Bool(broadcast)),
        ("type".to_owned(), Json::Str(kind.to_owned())),
        ("payload".to_owned(), Json::Object(payload)),
    ];
    assert(JsonV::Object(members(m@)) == packet_v(
        sender@,
        to,
        broadcast,
        kind@,
        members(payload@),
    )) by {
        assert(members(m@) =~= packet_v(sender@, to, broadcast, kind@, members(payload@))->Object_0);
    }
    Json::Object(m)
}

/// What a client says first: its name and its password.
pub open spec fn login_v(name: Text, password: Text) -> JsonV {
    JsonV::Object(seq![("name"@, JsonV::Str(name)), ("password"@, JsonV::Str(password))])
}

/// The frame for a packet.
pub open spec fn packet_frame(order: ByteOrder, cryptor: AesCryptor, packet: JsonV) -> Seq<u8> {
    frame_of(order, cryptor.sealed(encode_utf8(json_text_of(packet))))
}

/// Writes, encrypts and frames a packet. Whoever has the same key reads an exact packet
/// as it was from what is framed.
pub fn frame_packet(order: ByteOrder, cryptor: &AesCryptor, packet: &Json) -> (r: Vec<u8>)
    ensures
        r@ == packet_frame(order, *cryptor, packet@),
        is_exact(packet@) && packet@ is Object ==> match packet_in(
            *cryptor,
            r@.subrange(4, r@.len() as int),
        ) {
            Ok(back) => back == packet@,
            Err(_) => false,
        },
{
    let text = json_text(packet);
    let sealed = cryptor.encrypt(text.as_str().as_bytes());
    proof {
        let bytes = encode_utf8(text@);
        vstd::utf8::encode_utf8_valid_utf8(text@);
        if is_exact(packet@) && packet@ is Object {
            lemma_last_byte(text@);
            assert(without_zeros(bytes) == bytes);
            assert(cryptor.opened(sealed@) == Some(bytes));
        }
        let frame = frame_of(order, sealed@);
        assert(prefix_bytes(order, (sealed@.len() % 0x1_0000_0000) as u32).len() == 4);
        assert(frame.subrange(4, frame.len() as int) =~= sealed@);
    }
    encode_frame_in(order, sealed.as_slice())
}

/// A text that ends with a brace ends with the byte of that brace.
proof fn lemma_last_byte(s: Text)
    requires
        s.len() > 0,
        s.last() == '}',
    ensures
        encode_utf8(s).len() > 0,
        encode_utf8(s).last() == 125,
    decreases s.len(),
{
    let first = vstd::utf8::encode_scalar(s[0] as u32);
    let rest = s.drop_first();
    assert(encode_utf8(s) == first + encode_utf8(rest));
    if s.len() == 1 {
        assert(rest =~= Seq::empty());
        assert(encode_utf8(rest) =~= Seq::empty());
        assert(first =~= seq![125u8]) by {
            assert(125u32 & 0x7F == 125u32) by (bit_vector);
            assert(125u32 as u8 == 125u8) by (bit_vector);
        }
    } else {
        assert(rest.last() == '}');
        lemma_last_byte(rest);
    }
}

/// A ChatBridge client: who it is, and whether it runs and is connected.
#[derive(Debug)]
pub struct ChatBridgeClient {
    pub host: String,
    pub port: u16,
    pub name: String,
    pub password: String,
    pub cryptor: AesCryptor,
    pub order: ByteOrder,
    pub running: bool,
    pub connected: bool,
}

impl ChatBridgeClient {
    /// A client that neither runs nor is connected.
    pub fn new(host: &str, port: u16, name: &str, password: &str, aes_key: &str) -> (r: Self)
        ensures
            r.host@ == host@,
            r.port == port,
            r.name@ == name@,
            r.password@ == password@,
            r.cryptor.in_clear() == (aes_key@.len() == 0),
            r.cryptor.key() == sha256_of(padded(encode_utf8(aes_key@))),
            r.order == machine_order(),
            !r.running,
            !r.connected,
    {
        ChatBridgeClient {
            host: host.to_owned(),
            port,
            name: name.to_owned(),
            password: password.to_owned(),
            cryptor: AesCryptor::new(aes_key),
            order: native_order(),
            running: false,
            connected: false,
        }
    }

    /// Whether a session is open.
    pub fn is_connected(&self) -> (r: bool)
        ensures
            r == self.connected,
    {
        self.connected
    }

    /// Sets whether the client runs: nothing else changes.
    pub fn set_running(&mut self, value: bool)
        ensures
            *final(self) == (ChatBridgeClient { running: value, ..*old(self) }),
    {
        self.running = value;
    }

    /// Ends the client: it does not connect again.
    pub fn stop(&mut self)
        ensures
            *final(self) == (ChatBridgeClient { running: false, ..*old(self) }),
    {
        self.running = false;
    }

    /// Sets whether a session is open: nothing else changes.
    pub fn set_connected(&mut self, value: bool)
        ensures
            *final(self) == (ChatBridgeClient { connected: value, ..*old(self) }),
    {
        self.connected = value;
    }

    /// Whether the loops of a session go on.
    pub fn in_session(&self) -> (r: bool)
        ensures
            r == (self.running && self.connected),
    {
        self.running && self.connected
    }

    /// The frame that logs the client in.
    pub fn login_frame(&self) -> (r: Vec<u8>)
        ensures
            r@ == packet_frame(
                self.order,
                self.cryptor,
                JsonV::Object(
                    seq![
                        ("name"@, JsonV::Str(self.name@)),
                        ("password"@, JsonV::Str(self.password@)),
                    ],
                ),
            ),
            r@ == packet_frame(self.order, self.cryptor, login_v(self.name@, self.password@)),
    {
        broadcast use crate::json::object_view;

        let m: Vec<(String, Json)> = vec![
            ("name".to_owned(), Json::Str(self.name.clone())),
            ("password".to_owned(), Json::Str(self.password.clone())),
        ];
        assert(members(m@) =~= seq![
            ("name"@, JsonV::Str(self.name@)),
            ("password"@, JsonV::Str(self.password@)),
        ]);
        frame_packet(self.order, &self.cryptor, &Json::Object(m))
    }

    /// Whether the server let the client in: it answers with the message `ok`.
    pub fn check_login(reply: &Json) -> (r: Result<(), String>)
        ensures
            r is Ok <==> reply@.field("message"@) == Some(JsonV::Str("ok"@)),
            r matches Err(m) ==> m@ == "ChatBridge 登录失败: "@ + json_text_of(reply@),
    {
        match reply.get("message") {
            Some(Json::Str(s)) => {
                if same(s.as_str(), "ok") {
                    return Ok(());
                }
            },
            _ => {},
        }
        Err(join2("ChatBridge 登录失败: ", json_text(reply).as_str()))
    }

    /// The frame to write for a packet, or nothing while no session is open.
    fn send_packet(&self, packet: &Json) -> (r: Option<Vec<u8>>)
        ensures
            r is Some <==> self.connected,
            r matches Some(f) ==> f@ == packet_frame(self.order, self.cryptor, packet@),
    {
        if self.connected {
            Some(frame_packet(self.order, &self.cryptor, packet))
        } else {
            None
        }
    }

    /// The frame of a message to one client, or nothing while no session is open.
    pub fn send_chat(&self, target: &str, message: &str, author: &str) -> (r: Option<Vec<u8>>)
        ensures
            r is Some <==> self.connected,
            r matches Some(f) ==> f@ == packet_frame(
                self.order,
                self.cryptor,
                packet_v(
                    self.name@,
                    seq![target@],
                    false,
                    PACKET_TYPE_CHAT@,
                    chat_payload(author@, message@),
                ),
            ),
    {
        let payload: Vec<(String, Json)> = vec![
            ("author".to_owned(), Json::Str(author.to_owned())),
            ("message".to_owned(), Json::Str(message.to_owned())),
        ];
        assert(members(payload@) =~= chat_payload(author@, message@));
        self.send_packet(
            &build_packet(self.name.as_str(), Some(target), false, PACKET_TYPE_CHAT, payload),
        )
    }

    /// The frame of a message to all clients, or nothing while no session is open.
    pub fn broadcast_chat(&self, message: &str, author: &str) -> (r: Option<Vec<u8>>)
        ensures
            r is Some <==> self.connected,
            r matches Some(f) ==> f@ == packet_frame(
                self.order,
                self.cryptor,
                packet_v(
                    self.name@,
                    Seq::<Text>::empty(),
                    true,
                    PACKET_TYPE_CHAT@,
                    chat_payload(author@, message@),
                ),
            ),
    {
        let payload: Vec<(String, Json)> = vec![
            ("author".to_owned(), Json::Str(author.to_owned())),
            ("message".to_owned(), Json::Str(message.to_owned())),
        ];
        assert(members(payload@) =~= chat_payload(author@, message@));
        self.send_packet(&build_packet(self.name.as_str(), None, true, PACKET_TYPE_CHAT, payload))
    }

    /// The frame that asks the server (`ping`) or answers a client (`pong`), or
    /// nothing while no session is open.
    pub fn send_keep_alive(&self, target: &str, ping_type: &str) -> (r: Option<Vec<u8>>)
        ensures
            r is Some <==> self.connected,
            r matches Some(f) ==> f@ == packet_frame(
                self.order,
                self.cryptor,
                packet_v(
                    self.name@,
                    seq![target@],
                    false,
                    PACKET_TYPE_KEEP_ALIVE@,
                    ping_payload(ping_type@),
                ),
            ),
    {
        let payload: Vec<(String, Json)> = vec![
            ("ping_type".to_owned(), Json::Str(ping_type.to_owned())),
        ];
        assert(members(payload@) =~= ping_payload(ping_type@));
        self.send_packet(
            &build_packet(self.name.as_str(), Some(target), false, PACKET_TYPE_KEEP_ALIVE, payload),
        )
    }
}

// ---- what packets keep to ----

/// A packet that is made is read as what it was made for: a chat message with its sender,
/// its author and its text as they are, a question that asks for an answer as one to be
/// answered to its sender, and an answer as an answer. What is empty says nothing.
pub proof fn a_packet_says_what_it_was_made_for(
    sender: Text,
    receivers: Seq<Text>,
    broadcast: bool,
    author: Text,
    message: Text,
)
    ensures
        message.len() > 0 ==> dispatched(
            packet_v(
                sender,
                receivers,
                broadcast,
                PACKET_TYPE_CHAT@,
                chat_payload(author, message),
            ),
        ) == Ok::<DispatchV, Text>(DispatchV::Chat { sender, author, message }),
        message.len() == 0 ==> dispatched(
            packet_v(
                sender,
                receivers,
                broadcast,
                PACKET_TYPE_CHAT@,
                chat_payload(author, message),
            ),
        ) == Ok::<DispatchV, Text>(DispatchV::Nothing),
        dispatched(
            packet_v(
                sender,
                receivers,
                broadcast,
                PACKET_TYPE_KEEP_ALIVE@,
                ping_payload("ping"@),
            ),
        ) == Ok::<DispatchV, Text>(DispatchV::Pong(sender)),
        dispatched(
            packet_v(
                sender,
                receivers,
                broadcast,
                PACKET_TYPE_KEEP_ALIVE@,
                ping_payload("pong"@),
            ),
        ) == Ok::<DispatchV, Text>(DispatchV::PongSeen),
{
    reveal_strlit("author");
    reveal_strlit("message");
    reveal_strlit("ping");
    reveal_strlit("pong");
    reveal_strlit("chatbridge.keep_alive");
    reveal_strlit("chatbridge.chat");
    assert("author"@.len() == 6 && "message"@.len() == 7);
    assert("ping"@[1] != "pong"@[1]);
    assert(PACKET_TYPE_CHAT@.len() != PACKET_TYPE_KEEP_ALIVE@.len());
    let c = chat_payload(author, message);
    a_member_is_found(c, 0);
    a_member_is_found(c, 1);
    lemma_packet(sender, receivers, broadcast, PACKET_TYPE_CHAT@, c);
    let p = ping_payload("ping"@);
    a_member_is_found(p, 0);
    lemma_packet(sender, receivers, broadcast, PACKET_TYPE_KEEP_ALIVE@, p);
    let q = ping_payload("pong"@);
    a_member_is_found(q, 0);
    lemma_packet(sender, receivers, broadcast, PACKET_TYPE_KEEP_ALIVE@, q);
    numbers_are_shown_in_digits(0, message);
    numbers_are_shown_in_digits(0, author);
}

/// The fields of a packet are found under their names.
proof fn lemma_packet(
    sender: Text,
    receivers: Seq<Text>,
    broadcast: bool,
    kind: Text,
    payload: Seq<(Text, JsonV)>,
)
    ensures
        packet_v(sender, receivers, broadcast, kind, payload).field("sender"@) == Some(
            JsonV::Str(sender),
        ),
        packet_v(sender, receivers, broadcast, kind, payload).field("type"@) == Some(
            JsonV::Str(kind),
        ),
        packet_v(sender, receivers, broadcast, kind, payload).field("payload"@) == Some(
            JsonV::Object(payload),
        ),
        packet_v(sender, receivers, broadcast, kind, payload).field("broadcast"@) == Some(
            JsonV::Bool(broadcast),
        ),
{
    reveal_strlit("sender");
    reveal_strlit("receivers");
    reveal_strlit("broadcast");
    reveal_strlit("type");
    reveal_strlit("payload");
    match packet_v(sender, receivers, broadcast, kind, payload) {
        JsonV::Object(m) => {
            assert(m[0].0 == "sender"@ && m[1].0 == "receivers"@ && m[2].0 == "broadcast"@
                && m[3].0 == "type"@ && m[4].0 == "payload"@);
            assert("sender"@.len() == 6 && "receivers"@.len() == 9 && "broadcast"@.len() == 9
                && "type"@.len() == 4 && "payload"@.len() == 7);
            assert("receivers"@[0] != "broadcast"@[0]);
            a_member_is_found(m, 0);
            a_member_is_found(m, 2);
            a_member_is_found(m, 3);
            a_member_is_found(m, 4);
        },
        _ => {},
    }
}

/// A packet that carries nothing, or is of a kind that is not known, says nothing.
pub proof fn unknown_packets_say_nothing(packet: JsonV)
    requires
        packet is Object,
        packet.field("payload"@) is None || !(packet.field("type"@) matches Some(JsonV::Str(_))),
    ensures
        dispatched(packet) == Ok::<DispatchV, Text>(DispatchV::Nothing),
{
    reveal_strlit("chatbridge.keep_alive");
    reveal_strlit("chatbridge.chat");
    assert(PACKET_TYPE_CHAT@.len() > 0 && PACKET_TYPE_KEEP_ALIVE@.len() > 0);
}

/// A client names itself by its name and shows its password, each under its key.
pub proof fn a_client_names_itself(name: Text, password: Text)
    ensures
        login_v(name, password).field("name"@) == Some(JsonV::Str(name)),
        login_v(name, password).field("password"@) == Some(JsonV::Str(password)),
{
    reveal_strlit("name");
    reveal_strlit("password");
    assert("name"@.len() == 4 && "password"@.len() == 8);
    match login_v(name, password) {
        JsonV::Object(m) => {
            assert(m[0].0 == "name"@ && m[1].0 == "password"@);
            a_member_is_found(m, 0);
            a_member_is_found(m, 1);
        },
        _ => {},
    }
}

/// How many bytes are missing up to a multiple of sixteen.
proof fn lemma_missing(n: nat)
    ensures
        (16 - n % 16) % 16 == if n % 16 == 0 {
            0int
        } else {
            16 - n % 16
        },
        (n + (16 - n % 16) % 16) % 16 == 0,
{
}

/// The length of a frame stands before it in four bytes, the lowest first or last by the
/// order, and its own bytes follow as they are; so frames of different bytes differ.
pub proof fn a_frame_is_its_length_and_its_bytes(order: ByteOrder, payload: Seq<u8>)
    requires
        payload.len() < 0x1_0000_0000,
    ensures
        frame_of(order, payload).len() == payload.len() + 4,
        frame_of(order, payload).subrange(4, (payload.len() + 4) as int) == payload,
        order is Little ==> frame_of(order, payload)[0] == payload.len() % 256,
        order is Big ==> frame_of(order, payload)[3] == payload.len() % 256,
        order is Little ==> frame_of(order, payload)[3] == payload.len() / 16777216,
        order is Big ==> frame_of(order, payload)[0] == payload.len() / 16777216,
{
    let n = (payload.len() % 0x1_0000_0000) as u32;
    assert(n == payload.len());
    assert(prefix_bytes(order, n).len() == 4);
    let f = frame_of(order, payload);
    assert(f.subrange(4, (payload.len() + 4) as int) =~= payload);
}

/// The fifth error in a row ends a connection, and a packet that could be read ends the
/// row.
pub proof fn the_fifth_error_ends_a_connection(n: nat, errors: u32)
    requires
        n <= 5,
    ensures
        errors_after_run(n) >= MAX_ERRORS <==> n == 5,
        errors_after(errors, false) == 0,
{
    errors_in_a_row_end_the_connection(n);
}

/// A frame is as long as its first four bytes say, beside them; before they are there,
/// four bytes are awaited.
pub proof fn a_frame_is_as_long_as_it_says(r: FrameReader)
    ensures
        r.data@.len() >= 4 ==> r.total() == 4 + prefix_value(r.order, r.data@.subrange(0, 4)),
        r.data@.len() < 4 ==> r.total() == 4,
{
}

/// An error that does not end the connection does nothing else.
pub proof fn an_error_alone_does_nothing(before: u32, after: u32, step: Step)
    requires
        before < 5,
        counted(before, after, step),
    ensures
        after == before + 1,
        before == 4 ==> step is Stop,
        before < 4 ==> step is Go && step->0@ == DispatchV::Nothing,
{
}

} // verus!
