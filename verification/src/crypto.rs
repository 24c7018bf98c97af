//! Keys, digests and signatures.
//!
//! Keys are held as big-endian byte strings, so that the logic of the
//! library can compare, store and encode them.  The arithmetic itself is
//! done by the `rsa` crate and the digest by `rust-crypto`; the items
//! marked `external_body` below are the only places that call them.
use vstd::prelude::*;

use crypto::digest::Digest;
use crypto::sha3::Sha3;
use rand::seq::IteratorRandom;
use rsa::{
    BigUint, PaddingScheme, PublicKey as RsaPublicKeyOps, PublicKeyParts, RsaPrivateKey,
    RsaPublicKey,
};

verus! {

/// Largest public exponent that `rsa` accepts in a public key.
pub const MAX_PUBLIC_EXPONENT: u64 = 1073741824;

/// Bytes of padding that PKCS#1 v1.5 adds around a message.
pub const PKCS1_OVERHEAD: usize = 11;

/// The number that a big-endian byte string denotes.
pub open spec fn be_nat(s: Seq<u8>) -> nat
    decreases s.len(),
{
    if s.len() == 0 {
        0
    } else {
        be_nat(s.drop_last()) * 256 + s.last() as nat
    }
}

/// Length in bytes of the number that `n` denotes: `n` without its leading
/// zero bytes.
pub open spec fn modulus_size(n: Seq<u8>) -> nat
    decreases n.len(),
{
    if n.len() == 0 {
        0
    } else if n[0] == 0 {
        modulus_size(n.drop_first())
    } else {
        n.len()
    }
}

/// Public exponents that `rsa` accepts in a public key.
pub open spec fn exponent_in_range(e: Seq<u8>) -> bool {
    2 <= be_nat(e) <= MAX_PUBLIC_EXPONENT
}

/// Abstract value of a [`PublicKey`].
pub struct KeyView {
    pub n: Seq<u8>,
    pub e: Seq<u8>,
}

/// Public part of an RSA key: modulus `n` and exponent `e`, big-endian.
#[derive(Clone, Debug)]
pub struct PublicKey {
    pub n: Vec<u8>,
    pub e: Vec<u8>,
}

impl View for PublicKey {
    type V = KeyView;

    open spec fn view(&self) -> KeyView {
        KeyView { n: self.n@, e: self.e@ }
    }
}

/// Abstract value of a [`PrivateKey`].
pub struct PrivateKeyView {
    pub n: Seq<u8>,
    pub e: Seq<u8>,
    pub d: Seq<u8>,
    pub primes: Seq<Seq<u8>>,
}

impl PrivateKeyView {
    /// The public half of the key.
    pub open spec fn public(self) -> KeyView {
        KeyView { n: self.n, e: self.e }
    }
}

/// Whether the prime factors of a private key have the shape that `rsa`
/// needs to precompute its values: at least two, none below 2.
pub open spec fn primes_well_formed(primes: Seq<Seq<u8>>) -> bool {
    &&& primes.len() >= 2
    &&& forall|i: int| 0 <= i < primes.len() ==> be_nat(#[trigger] primes[i]) >= 2
}

/// Whether `n` is a prime number.
pub open spec fn is_prime(n: nat) -> bool {
    &&& n >= 2
    &&& forall|d: nat| 2 <= d < n ==> #[trigger] (n % d) != 0
}

/// Whether the factors of a private key are distinct prime numbers, as
/// RSA's decryption needs to invert its encryption.
pub open spec fn factors_distinct_primes(primes: Seq<Seq<u8>>) -> bool {
    &&& forall|i: int| 0 <= i < primes.len() ==> is_prime(be_nat(#[trigger] primes[i]))
    &&& forall|i: int, j: int|
        0 <= i < j < primes.len() ==> be_nat(#[trigger] primes[i]) != be_nat(#[trigger] primes[j])
}

/// Whether the parts of a private key are those that every [`PrivateKey`]
/// holds, and its factors are distinct primes: then decrypting under it
/// gives back what was encrypted under its public half.
pub open spec fn decrypts_for(k: PrivateKeyView) -> bool {
    &&& primes_well_formed(k.primes)
    &&& rsa_validates(k)
    &&& exponent_in_range(k.e)
    &&& factors_distinct_primes(k.primes)
}

/// Private RSA key: modulus, public and private exponent and prime factors,
/// each big-endian.
#[derive(Debug)]
pub struct PrivateKey {
    n: Vec<u8>,
    e: Vec<u8>,
    d: Vec<u8>,
    primes: Vec<Vec<u8>>,
}

/// Abstract value of a list of byte strings.
pub open spec fn seqs_view(v: Seq<Vec<u8>>) -> Seq<Seq<u8>> {
    v.map_values(|x: Vec<u8>| x@)
}

impl View for PrivateKey {
    type V = PrivateKeyView;

    closed spec fn view(&self) -> PrivateKeyView {
        PrivateKeyView { n: self.n@, e: self.e@, d: self.d@, primes: seqs_view(self.primes@) }
    }
}

impl PrivateKey {
    #[verifier::type_invariant]
    closed spec fn well_formed(self) -> bool {
        let v = PrivateKeyView {
            n: self.n@,
            e: self.e@,
            d: self.d@,
            primes: seqs_view(self.primes@),
        };
        &&& primes_well_formed(v.primes)
        &&& rsa_validates(v)
        &&& exponent_in_range(v.e)
    }

    /// The invariant that every private key keeps: primes of the right
    /// shape, and parts that `rsa`'s validation accepts.
    pub open spec fn valid(self) -> bool {
        &&& primes_well_formed(self@.primes)
        &&& rsa_validates(self@)
        &&& exponent_in_range(self@.e)
    }

    /// Builds a private key from its parts; `None` when the primes do not
    /// have the shape that [`primes_well_formed`] asks for, or when `rsa`'s
    /// validation refuses the parts.
    pub fn from_parts(n: Vec<u8>, e: Vec<u8>, d: Vec<u8>, primes: Vec<Vec<u8>>) -> (r: Option<
        PrivateKey,
    >)
        ensures
            r is Some <==> {
                let v = PrivateKeyView {
                    n: n@,
                    e: e@,
                    d: d@,
                    primes: seqs_view(primes@),
                };
                primes_well_formed(v.primes) && rsa_validates(v)
            },
            r matches Some(k) ==> k.valid() && k@ == (PrivateKeyView {
                n: n@,
                e: e@,
                d: d@,
                primes: seqs_view(primes@),
            }),
    {
        if primes.len() < 2 {
            return None;
        }
        let mut i: usize = 0;
        while i < primes.len()
            invariant
                0 <= i <= primes.len(),
                forall|j: int| 0 <= j < i ==> be_nat(#[trigger] primes@[j]@) >= 2,
            decreases primes.len() - i,
        {
            if !at_least_two(&primes[i]) {
                assert(be_nat(seqs_view(primes@)[i as int]) < 2);
                return None;
            }
            i = i + 1;
        }
        assert(primes_well_formed(seqs_view(primes@)));
        if !rsa_validate(&n, &e, &d, &primes) {
            return None;
        }
        Some(PrivateKey { n, e, d, primes })
    }

    /// A new random key whose modulus has `bits` bits and whose public
    /// exponent is 65537.
    pub fn generate(bits: usize) -> (r: Option<PrivateKey>)
        requires
            bits >= 64,
        ensures
            r is Some,
            r matches Some(k) ==> {
                &&& k.valid()
                &&& k@.e == seq![1u8, 0u8, 1u8]
                &&& modulus_size(k@.n) == (bits + 7) / 8
            },
    {
        match rsa_generate(bits) {
            Some((n, e, d, primes)) => PrivateKey::from_parts(n, e, d, primes),
            None => None,
        }
    }

    /// Modulus.
    pub fn n(&self) -> (r: &Vec<u8>)
        ensures
            r@ == self@.n,
    {
        &self.n
    }

    /// Public exponent.
    pub fn e(&self) -> (r: &Vec<u8>)
        ensures
            r@ == self@.e,
    {
        &self.e
    }

    /// Private exponent.
    pub fn d(&self) -> (r: &Vec<u8>)
        ensures
            r@ == self@.d,
    {
        &self.d
    }

    /// Prime factors.
    pub fn primes(&self) -> (r: &Vec<Vec<u8>>)
        ensures
            seqs_view(r@) == self@.primes,
    {
        &self.primes
    }

    /// PKCS#1 v1.5 signature of the raw message `msg`, `None` where `rsa`
    /// refuses to sign; a signature verifies under the key's public half.
    pub fn sign(&self, msg: &[u8]) -> (r: Option<Vec<u8>>)
        ensures
            r matches Some(s) ==> pkcs1v15_signature(self@, msg@) == Some(s@),
            r matches Some(s) ==> pkcs1v15_verifies(self@.n, self@.e, msg@, s@),
            r is None ==> pkcs1v15_signature(self@, msg@) is None,
    {
        proof {
            use_type_invariant(self);
        }
        rsa_sign(self, msg)
    }

    /// PKCS#1 v1.5 decryption of `ciphertext`, `None` where `rsa` refuses
    /// it.
    pub fn decrypt(&self, ciphertext: &[u8]) -> (r: Option<Vec<u8>>)
        ensures
            r matches Some(m) ==> pkcs1v15_plaintext(self@, ciphertext@) == Some(m@),
            r is None ==> pkcs1v15_plaintext(self@, ciphertext@) is None,
    {
        proof {
            use_type_invariant(self);
        }
        rsa_decrypt(self, ciphertext)
    }

    /// The public half of the key.
    pub fn public_key(&self) -> (r: PublicKey)
        ensures
            r@ == self@.public(),
    {
        PublicKey { n: self.n.clone(), e: self.e.clone() }
    }
}

proof fn lemma_be_nat_zero_prefix(s: Seq<u8>)
    requires
        forall|i: int| 0 <= i < s.len() ==> s[i] == 0,
    ensures
        be_nat(s) == 0,
    decreases s.len(),
{
    if s.len() > 0 {
        lemma_be_nat_zero_prefix(s.drop_last());
    }
}

proof fn lemma_be_nat_grows(s: Seq<u8>)
    requires
        s.len() > 0,
    ensures
        be_nat(s) >= be_nat(s.drop_last()) * 256,
{
}

proof fn lemma_be_nat_nonzero_early(s: Seq<u8>, k: int)
    requires
        0 <= k < s.len() - 1,
        s[k] != 0,
    ensures
        be_nat(s) >= 256,
    decreases s.len(),
{
    let t = s.drop_last();
    if k == t.len() - 1 {
        assert(be_nat(t) >= 1) by {
            assert(t.last() == s[k]);
        }
    } else {
        lemma_be_nat_nonzero_early(t, k);
    }
    assert(be_nat(s) >= be_nat(t) * 256);
}

/// Whether a big-endian byte string denotes a number of at least 2.
fn at_least_two(s: &Vec<u8>) -> (r: bool)
    ensures
        r == (be_nat(s@) >= 2),
{
    let len = s.len();
    if len == 0 {
        return false;
    }
    let mut i: usize = 0;
    while i + 1 < len
        invariant
            len == s@.len(),
            len >= 1,
            0 <= i <= len - 1,
            forall|j: int| 0 <= j < i ==> s@[j] == 0,
        decreases len - i,
    {
        if s[i] != 0 {
            proof {
                lemma_be_nat_nonzero_early(s@, i as int);
            }
            return true;
        }
        i = i + 1;
    }
    proof {
        lemma_be_nat_zero_prefix(s@.drop_last());
    }
    s[len - 1] >= 2
}

/// Length in bytes of the modulus of `key`, as `rsa` measures it.
pub fn key_size(key: &PublicKey) -> (r: usize)
    ensures
        r == modulus_size(key.n@),
{
    let len = key.n.len();
    let mut i: usize = 0;
    assert(key.n@.subrange(0, len as int) =~= key.n@);
    while i < len && key.n[i] == 0
        invariant
            len == key.n@.len(),
            0 <= i <= len,
            modulus_size(key.n@) == modulus_size(key.n@.subrange(i as int, len as int)),
        decreases len - i,
    {
        assert(key.n@.subrange(i as int, len as int).drop_first() =~= key.n@.subrange(
            i + 1,
            len as int,
        ));
        i = i + 1;
    }
    if i == len {
        assert(key.n@.subrange(i as int, len as int).len() == 0);
    }
    len - i
}

proof fn lemma_be_nat_prefix_step(s: Seq<u8>, i: int)
    requires
        0 <= i < s.len(),
    ensures
        be_nat(s.take(i + 1)) == be_nat(s.take(i)) * 256 + s[i] as nat,
{
    assert(s.take(i + 1).drop_last() =~= s.take(i));
}

/// Whether `e` is a public exponent that `rsa` accepts.
pub fn exponent_ok(e: &Vec<u8>) -> (r: bool)
    ensures
        r == exponent_in_range(e@),
{
    let len = e.len();
    let mut value: u64 = 0;
    let mut i: usize = 0;
    assert(e@.take(0) =~= Seq::<u8>::empty());
    while i < len
        invariant
            len == e@.len(),
            0 <= i <= len,
            value == be_nat(e@.take(i as int)),
            value <= MAX_PUBLIC_EXPONENT,
        decreases len - i,
    {
        proof {
            lemma_be_nat_prefix_step(e@, i as int);
        }
        let next: u64 = value * 256 + e[i] as u64;
        if next > MAX_PUBLIC_EXPONENT {
            proof {
                lemma_be_nat_prefix_monotone(e@, i + 1, len as int);
            }
            assert(e@.take(len as int) =~= e@);
            return false;
        }
        value = next;
        i = i + 1;
    }
    assert(e@.take(len as int) =~= e@);
    2 <= value
}

proof fn lemma_be_nat_prefix_monotone(s: Seq<u8>, i: int, j: int)
    requires
        0 <= i <= j <= s.len(),
    ensures
        be_nat(s.take(i)) <= be_nat(s.take(j)),
    decreases j - i,
{
    if i < j {
        lemma_be_nat_prefix_monotone(s, i, j - 1);
        lemma_be_nat_prefix_step(s, j - 1);
        assert(be_nat(s.take(j - 1)) <= be_nat(s.take(j - 1)) * 256) by (nonlinear_arith);
    }
}

/// Whether a message of `len` bytes can be encrypted for `key`: the
/// exponent is one that `rsa` accepts and the message leaves room for the
/// padding.
pub fn can_encrypt(key: &PublicKey, len: usize) -> (r: bool)
    ensures
        r == (exponent_in_range(key.e@) && len + PKCS1_OVERHEAD <= modulus_size(key.n@)),
{
    let size = key_size(key);
    exponent_ok(&key.e) && len <= size && size - len >= PKCS1_OVERHEAD
}

// ---------------------------------------------------------------------
// Names for what the outside crates compute.

/// Lower-case hexadecimal SHA3-256 digest of `input`.
pub uninterp spec fn sha3_256_hex(input: Seq<u8>) -> Seq<char>;

/// Whether `c` is a lower-case hexadecimal digit.
pub open spec fn is_lower_hex_digit(c: char) -> bool {
    ('0' <= c && c <= '9') || ('a' <= c && c <= 'f')
}

/// Whether `s` has the form of a SHA3-256 digest in lower-case
/// hexadecimal: 64 digits, two for each of the 32 bytes.
pub open spec fn is_digest_hex(s: Seq<char>) -> bool {
    &&& s.len() == 64
    &&& forall|i: int| 0 <= i < s.len() ==> is_lower_hex_digit(#[trigger] s[i])
}

/// Whether every character of `s` is ASCII.
pub open spec fn all_ascii(s: Seq<char>) -> bool {
    forall|i: int| 0 <= i < s.len() ==> (#[trigger] s[i] as u32) < 128
}

/// `c` with an ASCII capital letter turned into its small letter.
pub open spec fn ascii_lower_char(c: char) -> char {
    if 'A' <= c && c <= 'Z' {
        ((c as u32) + 32) as char
    } else {
        c
    }
}

/// `s` with every ASCII capital letter turned into its small letter.
pub open spec fn ascii_lower(s: Seq<char>) -> Seq<char> {
    s.map_values(|c: char| ascii_lower_char(c))
}

/// Whether `sig` is a PKCS#1 v1.5 signature of the raw message `msg` under
/// the public key `(n, e)`.
pub uninterp spec fn pkcs1v15_verifies(n: Seq<u8>, e: Seq<u8>, msg: Seq<u8>, sig: Seq<u8>) -> bool;

/// PKCS#1 v1.5 signature of the raw message `msg` under a private key, or
/// `None` where `rsa` refuses to sign.
pub uninterp spec fn pkcs1v15_signature(key: PrivateKeyView, msg: Seq<u8>) -> Option<Seq<u8>>;

/// PKCS#1 v1.5 decryption of `ciphertext` under a private key, or `None`
/// where `rsa` refuses it.
pub uninterp spec fn pkcs1v15_plaintext(key: PrivateKeyView, ciphertext: Seq<u8>) -> Option<
    Seq<u8>,
>;

/// Whether `rsa`'s `RsaPrivateKey::validate` accepts a private key.
pub uninterp spec fn rsa_validates(key: PrivateKeyView) -> bool;

/// Lower-case form of a string as `str::to_lowercase` gives it.
pub uninterp spec fn lowercase(s: Seq<char>) -> Seq<char>;

/// Abstract value of a point in time: seconds and nanoseconds since the Unix
/// epoch.
#[derive(Clone, Copy, Debug, PartialEq, Eq, Structural)]
pub struct Timestamp {
    pub secs: u64,
    pub nanos: u32,
}

// ---------------------------------------------------------------------
// Calls into the outside crates.

/// Calls `rust-crypto`'s `Sha3::sha3_256` with `input` and returns
/// `result_str`, the digest in lower-case hexadecimal; the contract names
/// that result [`sha3_256_hex`].  `result_str` writes each of the 32 bytes
/// of the digest as two digits out of `0123456789abcdef` (`rustc-serialize`'s
/// `to_hex`), so the result is 64 such digits.
#[verifier::external_body]
pub(crate) fn sha3_hex_digest(input: &[u8]) -> (r: String)
    ensures
        r@ == sha3_256_hex(input@),
        is_digest_hex(r@),
{
    let mut hasher = Sha3::sha3_256();
    hasher.input(input);
    hasher.result_str()
}

/// Calls `rsa`'s `PublicKey::verify` with PKCS#1 v1.5 padding and no hash
/// prefix, on the key that `RsaPublicKey::new` builds from `key`; `true`
/// exactly when both succeed.  The contract names that result
/// [`pkcs1v15_verifies`].
#[verifier::external_body]
pub(crate) fn rsa_verify(key: &PublicKey, msg: &[u8], sig: &[u8]) -> (r: bool)
    ensures
        r == pkcs1v15_verifies(key.n@, key.e@, msg@, sig@),
{
    match RsaPublicKey::new(BigUint::from_bytes_be(&key.n), BigUint::from_bytes_be(&key.e)) {
        Ok(k) => k.verify(PaddingScheme::new_pkcs1v15_sign(None), msg, sig).is_ok(),
        Err(_) => false,
    }
}

/// Calls `rsa`'s `RsaPrivateKey::validate` on the key that
/// `RsaPrivateKey::from_components` builds from the parts; the contract
/// names the result [`rsa_validates`].  `validate` checks the exponent as
/// `RsaPublicKey::new` does, that the primes multiply to the modulus, and
/// that the private exponent inverts the public one modulo each prime minus
/// one; it divides by each prime minus one, and `from_components` indexes
/// the first two primes, which is why the primes must have the shape
/// [`primes_well_formed`] gives.
#[verifier::external_body]
fn rsa_validate(n: &Vec<u8>, e: &Vec<u8>, d: &Vec<u8>, primes: &Vec<Vec<u8>>) -> (r: bool)
    requires
        primes_well_formed(seqs_view(primes@)),
    ensures
        r == rsa_validates(PrivateKeyView { n: n@, e: e@, d: d@, primes: seqs_view(primes@) }),
        r ==> exponent_in_range(e@),
{
    RsaPrivateKey::from_components(
        BigUint::from_bytes_be(n),
        BigUint::from_bytes_be(e),
        BigUint::from_bytes_be(d),
        primes.iter().map(|p| BigUint::from_bytes_be(p)).collect(),
    )
    .validate()
    .is_ok()
}

/// Calls `rsa`'s `RsaPrivateKey::sign` with PKCS#1 v1.5 padding and no hash
/// prefix, on the key that `RsaPrivateKey::from_components` builds from
/// `key` (see [`rsa_validate`] for the shape the primes need).  The contract
/// names the result [`pkcs1v15_signature`], and states what the source
/// shows of it: for a key that `validate` accepts, the modulus is the
/// product of the primes, so the private operation gives a number below the
/// modulus; `sign` raises it to the public exponent and returns it only when
/// that gives back the padded message, which is what PKCS#1 v1.5
/// verification recomputes and checks.
#[verifier::external_body]
fn rsa_sign(key: &PrivateKey, msg: &[u8]) -> (r: Option<Vec<u8>>)
    requires
        key.valid(),
    ensures
        r matches Some(s) ==> pkcs1v15_signature(key@, msg@) == Some(s@),
        r matches Some(s) ==> pkcs1v15_verifies(key@.n, key@.e, msg@, s@),
        r is None ==> pkcs1v15_signature(key@, msg@) is None,
{
    let k = RsaPrivateKey::from_components(
        BigUint::from_bytes_be(&key.n),
        BigUint::from_bytes_be(&key.e),
        BigUint::from_bytes_be(&key.d),
        key.primes.iter().map(|p| BigUint::from_bytes_be(p)).collect(),
    );
    k.sign(PaddingScheme::new_pkcs1v15_sign(None), msg).ok()
}

/// Calls `rsa`'s `RsaPrivateKey::decrypt` with PKCS#1 v1.5 padding on the
/// key that `RsaPrivateKey::from_components` builds from `key` (see
/// [`rsa_validate`] for the shape the primes need; with primes that multiply
/// to the modulus the private operation stays below it).  The contract names
/// the result [`pkcs1v15_plaintext`].
#[verifier::external_body]
fn rsa_decrypt(key: &PrivateKey, ciphertext: &[u8]) -> (r: Option<Vec<u8>>)
    requires
        key.valid(),
    ensures
        r matches Some(m) ==> pkcs1v15_plaintext(key@, ciphertext@) == Some(m@),
        r is None ==> pkcs1v15_plaintext(key@, ciphertext@) is None,
{
    let k = RsaPrivateKey::from_components(
        BigUint::from_bytes_be(&key.n),
        BigUint::from_bytes_be(&key.e),
        BigUint::from_bytes_be(&key.d),
        key.primes.iter().map(|p| BigUint::from_bytes_be(p)).collect(),
    );
    k.decrypt(PaddingScheme::new_pkcs1v15_encrypt(), ciphertext).ok()
}

/// Calls `rsa`'s `PublicKey::encrypt` with PKCS#1 v1.5 padding and the
/// thread's random generator, on the key that `RsaPublicKey::new` builds
/// from `key`.  The padding is random, so nothing names the ciphertext.
/// `rsa` checks the exponent and that the message leaves room for eleven
/// bytes of padding, and then always succeeds with a ciphertext as long as
/// the modulus: the number `m` that the padded message `0, 2, non-zero
/// bytes, 0, msg` denotes, raised to the public exponent modulo the modulus.
/// A private key with the same modulus and exponent that `validate` accepts
/// has `d·e ≡ 1` modulo each factor minus one and the product of the factors
/// as modulus; where the factors are distinct primes, `m^(e·d) ≡ m` modulo
/// each of them and so modulo the modulus, so `decrypt` recovers the padded
/// message (as a plain power or by the Chinese remainder theorem, which
/// agree) and strips the padding, giving back `msg`.  The contract states
/// this for every such key, in terms of [`pkcs1v15_plaintext`].
#[verifier::external_body]
pub(crate) fn rsa_encrypt(key: &PublicKey, msg: &[u8]) -> (r: Option<Vec<u8>>)
    requires
        exponent_in_range(key.e@),
        msg@.len() + PKCS1_OVERHEAD <= modulus_size(key.n@),
    ensures
        r is Some,
        r.unwrap()@.len() == modulus_size(key.n@),
        forall|k: PrivateKeyView|
            k.public() == key@ && decrypts_for(k) ==> #[trigger] pkcs1v15_plaintext(
                k,
                r.unwrap()@,
            ) == Some(msg@),
{
    let mut rng = rand::thread_rng();
    match RsaPublicKey::new(BigUint::from_bytes_be(&key.n), BigUint::from_bytes_be(&key.e)) {
        Ok(k) => k.encrypt(&mut rng, PaddingScheme::new_pkcs1v15_encrypt(), msg).ok(),
        Err(_) => None,
    }
}

/// Calls `rsa`'s `RsaPrivateKey::new` with the thread's random generator and
/// hands back the parts of the key, big-endian: modulus, public exponent,
/// private exponent and primes.  The key is random, so nothing names it.
/// Below 64 bits `rsa` estimates with floating point how many primes there
/// are, which this item leaves out.  From 64 bits on, `rsa` draws two
/// distinct primes of half the size each (their top two bits set) until
/// their product has exactly `bits` bits and 65537 has an inverse modulo the
/// product of the primes minus one, and returns `Ok` with that product as
/// modulus, 65537 as public exponent and the inverse as private exponent:
/// parts that its own `validate` accepts.
#[verifier::external_body]
fn rsa_generate(bits: usize) -> (r: Option<(Vec<u8>, Vec<u8>, Vec<u8>, Vec<Vec<u8>>)>)
    requires
        bits >= 64,
    ensures
        r is Some,
        r matches Some((n, e, d, primes)) ==> {
            &&& primes_well_formed(seqs_view(primes@))
            &&& rsa_validates(
                PrivateKeyView { n: n@, e: e@, d: d@, primes: seqs_view(primes@) },
            )
            &&& e@ == seq![1u8, 0u8, 1u8]
            &&& modulus_size(n@) == (bits + 7) / 8
        },
{
    let k = RsaPrivateKey::new(&mut rand::thread_rng(), bits).ok()?;
    Some((
        k.n().to_bytes_be(),
        k.e().to_bytes_be(),
        k.d().to_bytes_be(),
        k.primes().iter().map(|p| p.to_bytes_be()).collect(),
    ))
}

/// Calls `rand::random` for a uniformly drawn `u128`.
#[verifier::external_body]
pub(crate) fn random_u128() -> (r: u128) {
    rand::random::<u128>()
}

/// Calls `SystemTime::elapsed` on the Unix epoch: the time now, measured from it;
/// a clock set before the epoch reads as the epoch itself.
#[verifier::external_body]
pub(crate) fn now() -> (r: Timestamp) {
    let d = std::time::UNIX_EPOCH.elapsed().unwrap_or_default();
    Timestamp { secs: d.as_secs(), nanos: d.subsec_nanos() }
}

/// Calls `rand`'s `IteratorRandom::choose_multiple` on the indices `0..len`:
/// `amount` of them, all of them when there are fewer, each once, in an
/// order that `rand` leaves open.
#[verifier::external_body]
pub(crate) fn choose_indices(len: usize, amount: usize) -> (r: Vec<usize>)
    ensures
        r@.len() == if len < amount {
            len
        } else {
            amount
        },
        forall|i: int| 0 <= i < r@.len() ==> r@[i] < len,
        r@.no_duplicates(),
{
    (0..len).choose_multiple(&mut rand::thread_rng(), amount)
}

/// Calls `str::to_lowercase`; the contract names the result [`lowercase`].
/// It maps each character by Unicode's lower-case mapping, which turns the
/// ASCII capitals into the ASCII small letters and leaves the other ASCII
/// characters as they are; the contract states this for ASCII strings only.
#[verifier::external_body]
pub(crate) fn to_lowercase(s: &str) -> (r: String)
    ensures
        r@ == lowercase(s@),
        all_ascii(s@) ==> r@ == ascii_lower(s@),
{
    s.to_lowercase()
}

} // verus!
