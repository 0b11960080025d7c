//! Key derivation, hashing and data-at-rest encryption.

use crate::error::{SecurityError, SecurityResult};
use crate::trusted::{random_uuid_bytes, sha256, sha256_digest, uuid_bytes_form};
use vstd::prelude::*;
use vstd::string::StringSliceAdditionalSpecFns;

verus! {

/// Encryption mode for data at rest.
#[derive(Debug, Clone, Copy, PartialEq, Eq, Structural)]
pub enum EncryptionMode {
    Aes256Gcm,
    ChaCha20Poly1305,
}

/// Key derivation parameters.
#[derive(Debug, Clone)]
pub struct KeyDerivationParams {
    pub salt: Vec<u8>,
    pub iterations: u32,
    pub key_length: usize,
}

/// The encryption engine for data-at-rest protection: SHA-256 based key
/// derivation and a symmetric keystream cipher.
pub struct EncryptionEngine {
    mode: EncryptionMode,
}

/// The lowercase hexadecimal digit for a value below 16.
pub open spec fn hex_digit(n: u8) -> char {
    if n == 0 {
        '0'
    } else if n == 1 {
        '1'
    } else if n == 2 {
        '2'
    } else if n == 3 {
        '3'
    } else if n == 4 {
        '4'
    } else if n == 5 {
        '5'
    } else if n == 6 {
        '6'
    } else if n == 7 {
        '7'
    } else if n == 8 {
        '8'
    } else if n == 9 {
        '9'
    } else if n == 10 {
        'a'
    } else if n == 11 {
        'b'
    } else if n == 12 {
        'c'
    } else if n == 13 {
        'd'
    } else if n == 14 {
        'e'
    } else {
        'f'
    }
}

/// The two hexadecimal digits of a byte, high nibble first.
pub open spec fn byte_hex(b: u8) -> Seq<char> {
    seq![hex_digit(b / 16), hex_digit(b % 16)]
}

/// Lowercase hexadecimal text of a byte sequence, two digits per byte.
pub open spec fn hex_text(bytes: Seq<u8>) -> Seq<char>
    decreases bytes.len(),
{
    if bytes.len() == 0 {
        Seq::empty()
    } else {
        hex_text(bytes.drop_last()) + byte_hex(bytes.last())
    }
}

/// Hexadecimal text has two characters per byte.
pub proof fn lemma_hex_text_len(bytes: Seq<u8>)
    ensures
        hex_text(bytes).len() == 2 * bytes.len(),
    decreases bytes.len(),
{
    if bytes.len() > 0 {
        lemma_hex_text_len(bytes.drop_last());
    }
}

/// The digit text for a value below 16.
fn hex_digit_text(n: u8) -> (r: &'static str)
    requires
        n < 16,
    ensures
        r@ == seq![hex_digit(n)],
{
    if n == 0 {
        proof {
            reveal_strlit("0");
        }
        "0"
    } else if n == 1 {
        proof {
            reveal_strlit("1");
        }
        "1"
    } else if n == 2 {
        proof {
            reveal_strlit("2");
        }
        "2"
    } else if n == 3 {
        proof {
            reveal_strlit("3");
        }
        "3"
    } else if n == 4 {
        proof {
            reveal_strlit("4");
        }
        "4"
    } else if n == 5 {
        proof {
            reveal_strlit("5");
        }
        "5"
    } else if n == 6 {
        proof {
            reveal_strlit("6");
        }
        "6"
    } else if n == 7 {
        proof {
            reveal_strlit("7");
        }
        "7"
    } else if n == 8 {
        proof {
            reveal_strlit("8");
        }
        "8"
    } else if n == 9 {
        proof {
            reveal_strlit("9");
        }
        "9"
    } else if n == 10 {
        proof {
            reveal_strlit("a");
        }
        "a"
    } else if n == 11 {
        proof {
            reveal_strlit("b");
        }
        "b"
    } else if n == 12 {
        proof {
            reveal_strlit("c");
        }
        "c"
    } else if n == 13 {
        proof {
            reveal_strlit("d");
        }
        "d"
    } else if n == 14 {
        proof {
            reveal_strlit("e");
        }
        "e"
    } else {
        proof {
            reveal_strlit("f");
        }
        "f"
    }
}

/// Lowercase hexadecimal encoding of bytes.
pub fn encode(bytes: &[u8]) -> (r: String)
    ensures
        r@ == hex_text(bytes@),
{
    let mut out = String::new();
    let mut i: usize = 0;
    while i < bytes.len()
        invariant
            i <= bytes@.len(),
            out@ == hex_text(bytes@.take(i as int)),
        decreases bytes@.len() - i,
    {
        let b = bytes[i];
        out.append(hex_digit_text(b / 16));
        out.append(hex_digit_text(b % 16));
        proof {
            assert(bytes@.take(i + 1).drop_last() =~= bytes@.take(i as int));
            assert(bytes@.take(i + 1).last() == b);
        }
        i += 1;
    }
    proof {
        assert(bytes@.take(bytes@.len() as int) =~= bytes@);
    }
    out
}

/// The bytes of `a` followed by those of `b`.
pub fn concat_bytes(a: &[u8], b: &[u8]) -> (r: Vec<u8>)
    ensures
        r@ == a@ + b@,
{
    let mut r: Vec<u8> = Vec::new();
    let mut i: usize = 0;
    while i < a.len()
        invariant
            i <= a@.len(),
            r@ == a@.take(i as int),
        decreases a@.len() - i,
    {
        r.push(a[i]);
        proof {
            assert(a@.take(i + 1) =~= a@.take(i as int).push(a@[i as int]));
        }
        i += 1;
    }
    let mut j: usize = 0;
    while j < b.len()
        invariant
            j <= b@.len(),
            r@ == a@ + b@.take(j as int),
        decreases b@.len() - j,
    {
        r.push(b[j]);
        proof {
            assert(b@.take(j + 1) =~= b@.take(j as int).push(b@[j as int]));
            assert(a@ + b@.take(j + 1) =~= (a@ + b@.take(j as int)).push(b@[j as int]));
        }
        j += 1;
    }
    proof {
        assert(a@.take(a@.len() as int) =~= a@);
        assert(b@.take(b@.len() as int) =~= b@);
    }
    r
}

/// The digest after `rounds` further rounds of hashing the previous digest
/// followed by the salt.
pub open spec fn stretch(first: Seq<u8>, salt: Seq<u8>, rounds: nat) -> Seq<u8>
    decreases rounds,
{
    if rounds == 0 {
        first
    } else {
        sha256_digest(stretch(first, salt, (rounds - 1) as nat) + salt)
    }
}

/// The number of further hashing rounds for an iteration count: the count is
/// capped at 1000, and the first round is the hash of passphrase and salt.
pub open spec fn stretch_rounds(iterations: u32) -> nat {
    if iterations <= 1 {
        0
    } else if iterations < 1000 {
        (iterations - 1) as nat
    } else {
        999
    }
}

/// The key derived from passphrase bytes and parameters, cut to `key_length`.
pub open spec fn derived_key(passphrase: Seq<u8>, salt: Seq<u8>, iterations: u32, key_length: usize) -> Seq<u8> {
    let full = stretch(sha256_digest(passphrase + salt), salt, stretch_rounds(iterations));
    if key_length < full.len() {
        full.take(key_length as int)
    } else {
        full
    }
}

/// The keystream cipher: each byte is combined by exclusive or with the key
/// byte at the same position modulo the key length.
pub open spec fn xor_with_key(key: Seq<u8>, data: Seq<u8>) -> Seq<u8> {
    Seq::new(data.len(), |i: int| data[i] ^ key[i % (key.len() as int)])
}

/// The message of the error for a key shorter than 16 bytes.
pub open spec fn short_key_message() -> Seq<char> {
    "Key too short (min 16 bytes)"@
}

impl View for EncryptionEngine {
    type V = EncryptionMode;

    closed spec fn view(&self) -> EncryptionMode {
        self.mode
    }
}

impl Default for KeyDerivationParams {
    /// Parameters with a fresh random 16-byte salt, 100000 iterations and a
    /// 32-byte key.
    fn default() -> (r: Self)
        ensures
            uuid_bytes_form(r.salt@),
            r.iterations == 100_000,
            r.key_length == 32,
    {
        KeyDerivationParams::with_salt(random_uuid_bytes())
    }
}

impl KeyDerivationParams {
    /// Parameters with the given salt, 100000 iterations and a 32-byte key.
    pub fn with_salt(salt: Vec<u8>) -> (r: Self)
        ensures
            r.salt == salt,
            r.iterations == 100_000,
            r.key_length == 32,
    {
        KeyDerivationParams { salt, iterations: 100_000, key_length: 32 }
    }
}

impl EncryptionEngine {
    /// An engine in the given mode.
    pub fn new(mode: EncryptionMode) -> (r: Self)
        ensures
            r@ == mode,
    {
        EncryptionEngine { mode }
    }

    /// Derives a key from a passphrase: the SHA-256 digest of the passphrase
    /// bytes followed by the salt, hashed again with the salt for up to 999
    /// further rounds, cut to `key_length` bytes.
    pub fn derive_key(&self, passphrase: &str, params: &KeyDerivationParams) -> (r: Vec<u8>)
        ensures
            r@ == derived_key(passphrase.spec_bytes(), params.salt@, params.iterations, params.key_length),
            r@.len() == if params.key_length < 32 { params.key_length as int } else { 32 },
    {
        let first_input = concat_bytes(passphrase.as_bytes(), params.salt.as_slice());
        let mut result = sha256(first_input.as_slice());
        let ghost first = result@;
        let limit: u32 = if params.iterations < 1000 { params.iterations } else { 1000 };
        let mut k: u32 = 1;
        while k < limit
            invariant
                1 <= k,
                k <= limit || k == 1,
                limit == (if params.iterations < 1000 { params.iterations } else { 1000u32 }),
                first == sha256_digest(passphrase.spec_bytes() + params.salt@),
                result@ == stretch(first, params.salt@, (k - 1) as nat),
                result@.len() == 32,
            decreases limit - k,
        {
            let input = concat_bytes(result.as_slice(), params.salt.as_slice());
            result = sha256(input.as_slice());
            k += 1;
        }
        proof {
            assert((k - 1) as nat == stretch_rounds(params.iterations));
        }
        Self::fit_key_length(result, params.key_length)
    }

    /// A derived digest cut to at most `key_length` bytes.
    pub fn fit_key_length(key: Vec<u8>, key_length: usize) -> (r: Vec<u8>)
        ensures
            r@ == if key_length < key@.len() { key@.take(key_length as int) } else { key@ },
    {
        let mut key = key;
        key.truncate(key_length);
        key
    }

    /// SHA-256 of the data, as lowercase hexadecimal text.
    pub fn hash_sha256(&self, data: &[u8]) -> (r: String)
        ensures
            r@ == hex_text(sha256_digest(data@)),
            r@.len() == 64,
    {
        let digest = sha256(data);
        proof {
            lemma_hex_text_len(digest@);
        }
        encode(digest.as_slice())
    }

    /// Encrypts with the keystream cipher. Keys shorter than 16 bytes are refused.
    pub fn encrypt(&self, key: &[u8], plaintext: &[u8]) -> (r: SecurityResult<Vec<u8>>)
        ensures
            r is Err <==> key@.len() < 16,
            r matches Err(e) ==> e is Internal && e.message_spec() == short_key_message(),
            r matches Ok(c) ==> c@ == xor_with_key(key@, plaintext@),
    {
        if key.len() < 16 {
            return Err(SecurityError::Internal(String::from_str("Key too short (min 16 bytes)")));
        }
        let mut ciphertext: Vec<u8> = Vec::with_capacity(plaintext.len());
        let mut i: usize = 0;
        while i < plaintext.len()
            invariant
                key@.len() >= 16,
                i <= plaintext@.len(),
                ciphertext@ == xor_with_key(key@, plaintext@.take(i as int)),
            decreases plaintext@.len() - i,
        {
            ciphertext.push(plaintext[i] ^ key[i % key.len()]);
            proof {
                assert(xor_with_key(key@, plaintext@.take(i + 1)) =~= xor_with_key(
                    key@,
                    plaintext@.take(i as int),
                ).push(plaintext@[i as int] ^ key@[i as int % (key@.len() as int)]));
            }
            i += 1;
        }
        proof {
            assert(plaintext@.take(plaintext@.len() as int) =~= plaintext@);
        }
        Ok(ciphertext)
    }

    /// Decrypts; the keystream cipher is its own inverse.
    pub fn decrypt(&self, key: &[u8], ciphertext: &[u8]) -> (r: SecurityResult<Vec<u8>>)
        ensures
            r is Err <==> key@.len() < 16,
            r matches Err(e) ==> e is Internal && e.message_spec() == short_key_message(),
            r matches Ok(p) ==> p@ == xor_with_key(key@, ciphertext@),
    {
        self.encrypt(key, ciphertext)
    }

    /// A fresh 12-byte nonce: the first 12 bytes of a random version-4 UUID.
    pub fn generate_nonce(&self) -> (r: Vec<u8>)
        ensures
            r@.len() == 12,
            r@[6] & 0xf0u8 == 0x40u8,
            r@[8] & 0xc0u8 == 0x80u8,
    {
        let bytes = random_uuid_bytes();
        Self::nonce_from(bytes)
    }

    /// A nonce made of the first 12 bytes of the given bytes (all of them
    /// when there are fewer).
    pub fn nonce_from(bytes: Vec<u8>) -> (r: Vec<u8>)
        ensures
            r@ == if bytes@.len() <= 12 { bytes@ } else { bytes@.take(12) },
    {
        let mut bytes = bytes;
        bytes.truncate(12);
        bytes
    }

    /// The active encryption mode.
    pub fn mode(&self) -> (r: &EncryptionMode)
        ensures
            *r == self@,
    {
        &self.mode
    }
}

/// Decrypting what was encrypted with the same key gives back the plaintext.
pub proof fn law_decrypt_inverts_encrypt(key: Seq<u8>, plaintext: Seq<u8>)
    requires
        key.len() >= 16,
    ensures
        xor_with_key(key, xor_with_key(key, plaintext)) == plaintext,
{
    let c = xor_with_key(key, plaintext);
    let p = xor_with_key(key, c);
    assert forall|i: int| 0 <= i < plaintext.len() implies #[trigger] p[i] == plaintext[i] by {
        let a = plaintext[i];
        let k = key[i % (key.len() as int)];
        assert(c[i] == a ^ k);
        assert((a ^ k) ^ k == a) by (bit_vector);
    }
    assert(p =~= plaintext);
}

/// Encryption keeps the length of the data.
pub proof fn law_encrypt_keeps_length(key: Seq<u8>, plaintext: Seq<u8>)
    ensures
        xor_with_key(key, plaintext).len() == plaintext.len(),
{
}

/// At most `n` leading bytes of `x`.
pub open spec fn at_most_bytes(x: Seq<u8>, n: usize) -> Seq<u8> {
    if n < x.len() {
        x.take(n as int)
    } else {
        x
    }
}

/// Key stretching hashes `min(iterations, 1000)` times in all: the first hash
/// is of passphrase and salt, each further one of the previous digest followed
/// by the salt, and the key is the last digest cut to `key_length`. An
/// iteration count of 0 hashes once, like 1; every count from 1000 up hashes
/// 1000 times; and one more iteration below the cap means one more hash.
pub proof fn law_key_stretching(passphrase: Seq<u8>, salt: Seq<u8>, iterations: u32, key_length: usize)
    ensures
        derived_key(passphrase, salt, 0, key_length) == at_most_bytes(
            sha256_digest(passphrase + salt),
            key_length,
        ),
        derived_key(passphrase, salt, 1, key_length) == at_most_bytes(
            sha256_digest(passphrase + salt),
            key_length,
        ),
        derived_key(passphrase, salt, 2, key_length) == at_most_bytes(
            sha256_digest(sha256_digest(passphrase + salt) + salt),
            key_length,
        ),
        1 <= iterations <= 1000 ==> derived_key(passphrase, salt, iterations, key_length)
            == at_most_bytes(
            stretch(sha256_digest(passphrase + salt), salt, (iterations - 1) as nat),
            key_length,
        ),
        iterations >= 1000 ==> derived_key(passphrase, salt, iterations, key_length)
            == at_most_bytes(stretch(sha256_digest(passphrase + salt), salt, 999), key_length),
        1 <= iterations < 1000 ==> stretch(sha256_digest(passphrase + salt), salt, iterations as nat)
            == sha256_digest(
            stretch(sha256_digest(passphrase + salt), salt, (iterations - 1) as nat) + salt,
        ),
{
    let first = sha256_digest(passphrase + salt);
    assert(stretch(first, salt, 1) == sha256_digest(stretch(first, salt, 0) + salt));
}

/// The number of hashing rounds never decreases as the iteration count grows.
pub proof fn law_stretch_rounds_monotone(a: u32, b: u32)
    requires
        a <= b,
    ensures
        stretch_rounds(a) <= stretch_rounds(b),
        stretch_rounds(b) <= 999,
        b >= 1 ==> stretch_rounds(b) == (if b < 1000 { b - 1 } else { 999 }),
{
}

/// Every key byte is used, with the key length as period: byte `i` of the
/// ciphertext is byte `i` of the data combined with key byte `i mod n`, so
/// encrypting zero bytes gives the key itself, repeated.
pub proof fn law_keystream_uses_whole_key(key: Seq<u8>, data: Seq<u8>, i: int)
    requires
        key.len() >= 16,
        0 <= i < data.len(),
    ensures
        xor_with_key(key, data).len() == data.len(),
        xor_with_key(key, data)[i] ^ data[i] == key[i % (key.len() as int)],
        i < key.len() ==> xor_with_key(key, data)[i] ^ data[i] == key[i],
        i + key.len() < data.len() ==> xor_with_key(key, data)[i + key.len()] ^ data[i + key.len()]
            == xor_with_key(key, data)[i] ^ data[i],
        xor_with_key(key, Seq::new(data.len(), |j: int| 0u8))[i] == key[i % (key.len() as int)],
{
    let n = key.len() as int;
    let c = xor_with_key(key, data);
    let a = data[i];
    let k = key[i % n];
    assert(c[i] == a ^ k);
    assert((a ^ k) ^ a == k) by (bit_vector);
    if i < n {
        assert(i % n == i) by (nonlinear_arith)
            requires
                0 <= i < n,
        ;
    }
    if i + n < data.len() {
        assert((i + n) % n == i % n) by (nonlinear_arith)
            requires
                0 <= i,
                n > 0,
        ;
        let a2 = data[i + n];
        assert(c[i + n] == a2 ^ k);
        assert((a2 ^ k) ^ a2 == k) by (bit_vector);
    }
    let z = Seq::new(data.len(), |j: int| 0u8);
    assert(xor_with_key(key, z)[i] == 0u8 ^ k);
    assert(0u8 ^ k == k) by (bit_vector);
}

} // verus!
