//! Events: the entries that the blockchain stores.
//!
//! An [`Event`] wraps a [`Data`] value with its author, a random nonce, an
//! optional signature and its creation time.  Its hash covers the data and
//! the nonce only, so that signing an event does not change what was signed.
use vstd::prelude::*;

use crate::crypto::{
    is_lower_hex_digit, now, pkcs1v15_verifies, random_u128, rsa_verify, sha3_256_hex, sha3_hex_digest, KeyView,
    PublicKey, Timestamp,
};
use rsa::BigUint;
use vstd::utf8::encode_utf8;

verus! {

// ---------------------------------------------------------------------
// Byte encodings.

/// The `n` low bytes of `x`, least significant first.
pub open spec fn le_bytes(x: nat, n: nat) -> Seq<u8>
    decreases n,
{
    if n == 0 {
        seq![]
    } else {
        seq![(x % 256) as u8] + le_bytes(x / 256, (n - 1) as nat)
    }
}

/// Appends the `n` low bytes of `x`, least significant first.
pub fn push_le(out: &mut Vec<u8>, x: u128, n: usize)
    ensures
        final(out)@ == old(out)@ + le_bytes(x as nat, n as nat),
{
    let ghost start = out@;
    let mut cur: u128 = x;
    let mut i: usize = 0;
    assert(start + le_bytes(x as nat, n as nat) =~= out@ + le_bytes(cur as nat, (n - i) as nat));
    while i < n
        invariant
            0 <= i <= n,
            start + le_bytes(x as nat, n as nat) == out@ + le_bytes(cur as nat, (n - i) as nat),
        decreases n - i,
    {
        let ghost before = out@;
        out.push((cur % 256) as u8);
        assert(le_bytes(cur as nat, (n - i) as nat) == seq![(cur % 256) as u8] + le_bytes(
            (cur / 256) as nat,
            (n - i - 1) as nat,
        ));
        assert(out@ + le_bytes((cur / 256) as nat, (n - i - 1) as nat) =~= before + le_bytes(
            cur as nat,
            (n - i) as nat,
        ));
        cur = cur / 256;
        i = i + 1;
    }
    assert(le_bytes(cur as nat, 0) =~= Seq::<u8>::empty());
    assert(out@ =~= start + le_bytes(x as nat, n as nat));
}

/// Appends every byte of `b`.
pub fn push_all(out: &mut Vec<u8>, b: &[u8])
    ensures
        final(out)@ == old(out)@ + b@,
{
    let ghost start = out@;
    let mut i: usize = 0;
    while i < b.len()
        invariant
            0 <= i <= b@.len(),
            out@ == start + b@.take(i as int),
        decreases b@.len() - i,
    {
        out.push(b[i]);
        assert(b@.take(i + 1) =~= b@.take(i as int).push(b@[i as int]));
        i = i + 1;
    }
    assert(b@.take(b@.len() as int) =~= b@);
}

/// Copies the bytes of a slice into a new vector.
pub fn bytes_to_vec(b: &[u8]) -> (r: Vec<u8>)
    ensures
        r@ == b@,
{
    let mut r: Vec<u8> = Vec::new();
    push_all(&mut r, b);
    assert(r@ =~= b@);
    r
}

/// Whether two byte vectors hold the same bytes.
pub fn bytes_eq(a: &Vec<u8>, b: &Vec<u8>) -> (r: bool)
    ensures
        r == (a@ == b@),
{
    if a.len() != b.len() {
        return false;
    }
    let mut i: usize = 0;
    while i < a.len()
        invariant
            a@.len() == b@.len(),
            0 <= i <= a@.len(),
            forall|j: int| 0 <= j < i ==> a@[j] == b@[j],
        decreases a@.len() - i,
    {
        if a[i] != b[i] {
            return false;
        }
        i = i + 1;
    }
    assert(a@ =~= b@);
    true
}

/// Copies a byte vector.
pub fn bytes_copy(a: &Vec<u8>) -> (r: Vec<u8>)
    ensures
        r@ == a@,
{
    bytes_to_vec(a.as_slice())
}

/// Abstract value of an optional byte vector.
pub open spec fn opt_bytes_view(o: Option<Vec<u8>>) -> Option<Seq<u8>> {
    match o {
        Some(v) => Some(v@),
        None => None,
    }
}

/// Whether two optional byte vectors are equal.
pub fn opt_bytes_eq(a: &Option<Vec<u8>>, b: &Option<Vec<u8>>) -> (r: bool)
    ensures
        r == (opt_bytes_view(*a) == opt_bytes_view(*b)),
{
    match (a, b) {
        (Some(x), Some(y)) => bytes_eq(x, y),
        (None, None) => true,
        _ => false,
    }
}

/// A copy of an optional byte vector.
pub fn opt_bytes_copy(a: &Option<Vec<u8>>) -> (r: Option<Vec<u8>>)
    ensures
        opt_bytes_view(r) == opt_bytes_view(*a),
{
    match a {
        Some(x) => Some(bytes_copy(x)),
        None => None,
    }
}

// ---------------------------------------------------------------------
// Text that the hashes cover: values written as Rust's `{:?}` writes them.

/// Decimal digits of `n`, as ASCII bytes, without leading zeros.
pub open spec fn dec_digits(n: nat) -> Seq<u8>
    decreases n,
{
    if n < 10 {
        seq![(48 + n) as u8]
    } else {
        dec_digits(n / 10).push((48 + n % 10) as u8)
    }
}

/// Appends the decimal digits of `n`.
pub fn push_decimal(out: &mut Vec<u8>, n: u128)
    ensures
        final(out)@ == old(out)@ + dec_digits(n as nat),
    decreases n,
{
    if n >= 10 {
        push_decimal(out, n / 10);
    }
    out.push((48 + n % 10) as u8);
    assert(out@ =~= old(out)@ + dec_digits(n as nat));
}

/// The decimal numbers of `m` separated by `, `.
pub open spec fn dec_list(m: Seq<u8>) -> Seq<u8>
    decreases m.len(),
{
    if m.len() == 0 {
        seq![]
    } else if m.len() == 1 {
        dec_digits(m[0] as nat)
    } else {
        dec_list(m.drop_last()) + encode_utf8(", "@) + dec_digits(m.last() as nat)
    }
}

/// A list of bytes as `{:?}` writes it: `[1, 2, 3]`.
pub open spec fn bytes_debug(m: Seq<u8>) -> Seq<u8> {
    encode_utf8("["@) + dec_list(m) + encode_utf8("]"@)
}

/// Appends a list of bytes as `{:?}` writes it.
pub fn push_bytes_debug(out: &mut Vec<u8>, m: &[u8])
    ensures
        final(out)@ == old(out)@ + bytes_debug(m@),
{
    let ghost start = out@;
    push_all(out, "[".as_bytes());
    let mut i: usize = 0;
    assert(m@.take(0) =~= Seq::<u8>::empty());
    while i < m.len()
        invariant
            0 <= i <= m@.len(),
            out@ == start + encode_utf8("["@) + dec_list(m@.take(i as int)),
        decreases m@.len() - i,
    {
        let ghost before = out@;
        assert(m@.take(i + 1).drop_last() =~= m@.take(i as int));
        assert(m@.take(i + 1).last() == m@[i as int]);
        if i > 0 {
            push_all(out, ", ".as_bytes());
        }
        push_decimal(out, m[i] as u128);
        if i == 0 {
            assert(out@ =~= before + dec_digits(m@[0] as nat));
        } else {
            assert(out@ =~= before + encode_utf8(", "@) + dec_digits(m@[i as int] as nat));
        }
        assert(out@ =~= start + encode_utf8("["@) + dec_list(m@.take(i + 1)));
        i = i + 1;
    }
    assert(m@.take(i as int) =~= m@);
    push_all(out, "]".as_bytes());
    assert(out@ =~= start + bytes_debug(m@));
}

/// A string as `{:?}` writes it: quoted, with its special characters
/// escaped.
pub uninterp spec fn debug_text(s: Seq<char>) -> Seq<char>;

/// A number as `num-bigint-dig`'s `BigUint` writes it with `{:?}`, for the
/// number that the big-endian bytes `b` denote.
pub uninterp spec fn biguint_debug_text(b: Seq<u8>) -> Seq<char>;

/// Calls `str`'s `Debug` through `format!("{:?}", s)`; the contract names
/// the result [`debug_text`].
#[verifier::external_body]
pub(crate) fn str_debug(s: &str) -> (r: String)
    ensures
        r@ == debug_text(s@),
{
    format!("{:?}", s)
}

/// Calls the `Debug` of `num-bigint-dig`'s `BigUint`, through
/// `format!("{:?}", ..)`, on the number that `BigUint::from_bytes_be` reads
/// from `b`; the contract names the result [`biguint_debug_text`].
#[verifier::external_body]
pub(crate) fn biguint_debug(b: &[u8]) -> (r: String)
    ensures
        r@ == biguint_debug_text(b@),
{
    format!("{:?}", BigUint::from_bytes_be(b))
}

/// Appends a string as `{:?}` writes it.
pub fn push_str_debug(out: &mut Vec<u8>, s: &str)
    ensures
        final(out)@ == old(out)@ + encode_utf8(debug_text(s@)),
{
    let d = str_debug(s);
    push_all(out, d.as_str().as_bytes());
}

// ---------------------------------------------------------------------
// Keys, compared and copied by value.

impl PublicKey {
    /// Whether two keys have the same modulus and exponent.
    pub fn equals(&self, other: &PublicKey) -> (r: bool)
        ensures
            r == (self@ == other@),
    {
        bytes_eq(&self.n, &other.n) && bytes_eq(&self.e, &other.e)
    }

    /// A copy of the key.
    pub fn duplicate(&self) -> (r: PublicKey)
        ensures
            r@ == self@,
    {
        PublicKey { n: bytes_copy(&self.n), e: bytes_copy(&self.e) }
    }
}

// ---------------------------------------------------------------------
// Data.

/// Abstract value of [`Data`].
pub enum DataView {
    IndividualMessage(u128, Seq<u8>),
    GroupMessage(Seq<char>),
    NewUser { id: u128, pub_key: KeyView },
}

/// What can be stored on the blockchain.
#[derive(Debug)]
pub enum Data {
    /// Message for one participant, encrypted with its public key.
    IndividualMessage(u128, Vec<u8>),
    /// Message for everyone.
    GroupMessage(String),
    /// Announces a participant and its public key.
    NewUser { id: u128, pub_key: PublicKey },
}

impl View for Data {
    type V = DataView;

    open spec fn view(&self) -> DataView {
        match self {
            Data::IndividualMessage(id, m) => DataView::IndividualMessage(*id, m@),
            Data::GroupMessage(s) => DataView::GroupMessage(s@),
            Data::NewUser { id, pub_key } => DataView::NewUser { id: *id, pub_key: pub_key@ },
        }
    }
}

/// A public key as `rsa`'s `RsaPublicKey` writes it with `{:?}`: its
/// derived `Debug` names the struct and its two fields.
pub open spec fn key_debug(k: KeyView) -> Seq<u8> {
    encode_utf8("RsaPublicKey { n: "@) + encode_utf8(biguint_debug_text(k.n)) + encode_utf8(
        ", e: "@,
    ) + encode_utf8(biguint_debug_text(k.e)) + encode_utf8(" }"@)
}

/// `d` as its derived `Debug` writes it with `{:?}`, as UTF-8 bytes.
pub open spec fn data_debug(d: DataView) -> Seq<u8> {
    match d {
        DataView::IndividualMessage(id, m) => encode_utf8("IndividualMessage("@) + dec_digits(
            id as nat,
        ) + encode_utf8(", "@) + bytes_debug(m) + encode_utf8(")"@),
        DataView::GroupMessage(s) => encode_utf8("GroupMessage("@) + encode_utf8(debug_text(s))
            + encode_utf8(")"@),
        DataView::NewUser { id, pub_key } => encode_utf8("NewUser { id: "@) + dec_digits(id as nat)
            + encode_utf8(", pub_key: "@) + key_debug(pub_key) + encode_utf8(" }"@),
    }
}

impl Data {
    /// Appends the value as `{:?}` writes it.
    pub fn debug_into(&self, out: &mut Vec<u8>)
        ensures
            final(out)@ == old(out)@ + data_debug(self@),
    {
        let ghost start = out@;
        match self {
            Data::IndividualMessage(id, m) => {
                push_all(out, "IndividualMessage(".as_bytes());
                push_decimal(out, *id);
                push_all(out, ", ".as_bytes());
                push_bytes_debug(out, m.as_slice());
                push_all(out, ")".as_bytes());
            },
            Data::GroupMessage(s) => {
                push_all(out, "GroupMessage(".as_bytes());
                push_str_debug(out, s.as_str());
                push_all(out, ")".as_bytes());
            },
            Data::NewUser { id, pub_key } => {
                push_all(out, "NewUser { id: ".as_bytes());
                push_decimal(out, *id);
                push_all(out, ", pub_key: ".as_bytes());
                push_all(out, "RsaPublicKey { n: ".as_bytes());
                let n = biguint_debug(pub_key.n.as_slice());
                push_all(out, n.as_str().as_bytes());
                push_all(out, ", e: ".as_bytes());
                let e = biguint_debug(pub_key.e.as_slice());
                push_all(out, e.as_str().as_bytes());
                push_all(out, " }".as_bytes());
                push_all(out, " }".as_bytes());
            },
        }
        assert(out@ =~= start + data_debug(self@));
    }

    /// Whether two values are the same.
    pub fn equals(&self, other: &Data) -> (r: bool)
        ensures
            r == (self@ == other@),
    {
        match (self, other) {
            (Data::IndividualMessage(a, x), Data::IndividualMessage(b, y)) => *a == *b && bytes_eq(
                x,
                y,
            ),
            (Data::GroupMessage(x), Data::GroupMessage(y)) => *x == *y,
            (
                Data::NewUser { id: a, pub_key: x },
                Data::NewUser { id: b, pub_key: y },
            ) => *a == *b && x.equals(y),
            _ => false,
        }
    }

    /// A copy of the value.
    pub fn duplicate(&self) -> (r: Data)
        ensures
            r@ == self@,
    {
        match self {
            Data::IndividualMessage(id, m) => Data::IndividualMessage(*id, bytes_copy(m)),
            Data::GroupMessage(s) => Data::GroupMessage(s.clone()),
            Data::NewUser { id, pub_key } => Data::NewUser { id: *id, pub_key: pub_key.duplicate() },
        }
    }
}

// ---------------------------------------------------------------------
// Events.

/// Abstract value of an [`Event`].
pub struct EventView {
    pub made_by: u128,
    pub data: DataView,
    pub nonce: u128,
    pub signature: Option<Seq<u8>>,
    pub created_at: Timestamp,
}

/// An entry of the blockchain.
#[derive(Debug)]
pub struct Event {
    /// Identifier of the author.
    pub made_by: u128,
    /// What the event stores.
    pub data: Data,
    /// Random value that tells equal data apart.
    pub nonce: u128,
    /// Signature of [`Event::calculate_hash`] by the author, if signed.
    pub signature: Option<Vec<u8>>,
    /// When the event was made.
    pub created_at: Timestamp,
}

impl View for Event {
    type V = EventView;

    open spec fn view(&self) -> EventView {
        EventView {
            made_by: self.made_by,
            data: self.data@,
            nonce: self.nonce,
            signature: opt_bytes_view(self.signature),
            created_at: self.created_at,
        }
    }
}

/// The bytes that an event's hash is computed over: its data and nonce as
/// `{:?}` writes the pair of them.
pub open spec fn event_digest_input(data: DataView, nonce: u128) -> Seq<u8> {
    encode_utf8("("@) + data_debug(data) + encode_utf8(", "@) + dec_digits(nonce as nat)
        + encode_utf8(")"@)
}

/// Hash of an event with the given data and nonce: the bytes of the
/// hexadecimal SHA3-256 digest of the two.
pub open spec fn data_hash(data: DataView, nonce: u128) -> Seq<u8> {
    encode_utf8(sha3_256_hex(event_digest_input(data, nonce)))
}

/// Hash of an event; its author, signature and time do not enter it.
pub open spec fn event_hash(e: EventView) -> Seq<u8> {
    data_hash(e.data, e.nonce)
}

/// Whether `e` is accepted under a public key: an unsigned event always is,
/// a signed one when the signature verifies over the event's hash.
pub open spec fn signature_accepted(e: EventView, key: KeyView) -> bool {
    match e.signature {
        Some(s) => pkcs1v15_verifies(key.n, key.e, event_hash(e), s),
        None => true,
    }
}

/// Abstract value of a list of events.
pub open spec fn events_view(v: Seq<Event>) -> Seq<EventView> {
    v.map_values(|e: Event| e@)
}

impl Event {
    /// A new unsigned event by `made_by`, with a random nonce and the
    /// current time.
    pub fn new(made_by: u128, data: Data) -> (r: Event)
        ensures
            r.made_by == made_by,
            r.data == data,
            r.signature is None,
    {
        Event { made_by, data, nonce: random_u128(), signature: None, created_at: now() }
    }

    /// Hash of the event, over its data and nonce.
    pub fn calculate_hash(&self) -> (r: Vec<u8>)
        ensures
            r@ == event_hash(self@),
            r@.len() == 64,
    {
        let mut input: Vec<u8> = Vec::new();
        push_all(&mut input, "(".as_bytes());
        self.data.debug_into(&mut input);
        push_all(&mut input, ", ".as_bytes());
        push_decimal(&mut input, self.nonce);
        push_all(&mut input, ")".as_bytes());
        assert(input@ =~= event_digest_input(self.data@, self.nonce));
        let hex = sha3_hex_digest(input.as_slice());
        proof {
            assert(vstd::utf8::is_ascii_chars(hex@)) by {
                assert forall|i: int| 0 <= i < hex@.len() implies '\0' <= #[trigger] hex@[i] <= '\u{7f}' by {
                    assert(is_lower_hex_digit(hex@[i]));
                }
            }
            vstd::utf8::is_ascii_chars_encode_utf8(hex@);
        }
        bytes_to_vec(hex.as_str().as_bytes())
    }

    /// Checks the event under its author's key: an unsigned event is valid;
    /// a signed one is valid where its signature verifies under that key,
    /// and invalid where the author's key is not known.
    pub fn execute(&self, foreign_pub_key: Option<&PublicKey>) -> (r: bool)
        ensures
            r == match foreign_pub_key {
                Some(k) => signature_accepted(self@, k@),
                None => self@.signature is None,
            },
    {
        if self.signature.is_some() {
            match foreign_pub_key {
                Some(k) => self.verify_sign(k),
                None => false,
            }
        } else {
            true
        }
    }

    /// Replaces the signature.
    pub fn sign(&mut self, signature: Option<Vec<u8>>)
        ensures
            final(self).made_by == old(self).made_by,
            final(self).data == old(self).data,
            final(self).nonce == old(self).nonce,
            final(self).created_at == old(self).created_at,
            final(self).signature == signature,
    {
        self.signature = signature;
    }

    /// Whether the signature, if any, verifies under `pub_key`.
    pub fn verify_sign(&self, pub_key: &PublicKey) -> (r: bool)
        ensures
            r == signature_accepted(self@, pub_key@),
    {
        let hash = self.calculate_hash();
        match &self.signature {
            Some(s) => rsa_verify(pub_key, hash.as_slice(), s.as_slice()),
            None => true,
        }
    }

    /// Whether two events are the same in every field.
    pub fn equals(&self, other: &Event) -> (r: bool)
        ensures
            r == (self@ == other@),
    {
        self.made_by == other.made_by && self.data.equals(&other.data) && self.nonce == other.nonce
            && opt_bytes_eq(&self.signature, &other.signature) && self.created_at
            == other.created_at
    }

    /// A copy of the event.
    pub fn duplicate(&self) -> (r: Event)
        ensures
            r@ == self@,
    {
        Event {
            made_by: self.made_by,
            data: self.data.duplicate(),
            nonce: self.nonce,
            signature: opt_bytes_copy(&self.signature),
            created_at: self.created_at,
        }
    }
}

/// Whether `events` holds an event equal to `e`.
pub fn events_contain(events: &Vec<Event>, e: &Event) -> (r: bool)
    ensures
        r == events_view(events@).contains(e@),
{
    let mut i: usize = 0;
    while i < events.len()
        invariant
            0 <= i <= events@.len(),
            forall|j: int| 0 <= j < i ==> events@[j]@ != e@,
        decreases events@.len() - i,
    {
        if events[i].equals(e) {
            assert(events_view(events@)[i as int] == e@);
            return true;
        }
        i = i + 1;
    }
    assert(!events_view(events@).contains(e@)) by {
        if events_view(events@).contains(e@) {
            let k = choose|k: int| 0 <= k < events_view(events@).len() && events_view(events@)[k] == e@;
            assert(events@[k]@ == e@);
        }
    }
    false
}

/// A copy of every event of `events`.
pub fn events_copy(events: &Vec<Event>) -> (r: Vec<Event>)
    ensures
        events_view(r@) == events_view(events@),
{
    let mut r: Vec<Event> = Vec::new();
    let mut i: usize = 0;
    while i < events.len()
        invariant
            0 <= i <= events@.len(),
            r@.len() == i,
            forall|j: int| 0 <= j < i ==> r@[j]@ == events@[j]@,
        decreases events@.len() - i,
    {
        r.push(events[i].duplicate());
        i = i + 1;
    }
    assert(events_view(r@) =~= events_view(events@));
    r
}

/// Signing leaves the hash of an event as it was: the hash covers the data
/// and the nonce, and a signature changes neither.
pub proof fn lemma_sign_keeps_hash(e: EventView, signature: Option<Seq<u8>>)
    ensures
        event_hash(EventView { signature, ..e }) == event_hash(e),
{
}

/// Sequences that end alike and are equal are equal before that end.
pub(crate) proof fn lemma_cancel_right(x: Seq<u8>, y: Seq<u8>, b: Seq<u8>)
    requires
        x + b == y + b,
    ensures
        x == y,
{
    assert((x + b).len() == x.len() + b.len());
    assert((y + b).len() == y.len() + b.len());
    assert((x + b).subrange(0, x.len() as int) =~= x);
    assert((y + b).subrange(0, y.len() as int) =~= y);
}

/// Sequences that start alike and are equal are equal after that start.
pub(crate) proof fn lemma_cancel_left(a: Seq<u8>, x: Seq<u8>, y: Seq<u8>)
    requires
        a + x == a + y,
    ensures
        x == y,
{
    assert((a + x).len() == a.len() + x.len());
    assert((a + y).len() == a.len() + y.len());
    assert((a + x).subrange(a.len() as int, (a + x).len() as int) =~= x);
    assert((a + y).subrange(a.len() as int, (a + y).len() as int) =~= y);
}

/// Two events with the same nonce and the same hash input hold data that
/// `{:?}` writes the same.
proof fn lemma_digest_input_data(d1: DataView, d2: DataView, nonce: u128)
    requires
        event_digest_input(d1, nonce) == event_digest_input(d2, nonce),
    ensures
        data_debug(d1) == data_debug(d2),
{
    let t = encode_utf8(")"@);
    let n = dec_digits(nonce as nat);
    let c = encode_utf8(", "@);
    let o = encode_utf8("("@);
    lemma_cancel_right(o + data_debug(d1) + c + n, o + data_debug(d2) + c + n, t);
    lemma_cancel_right(o + data_debug(d1) + c, o + data_debug(d2) + c, n);
    lemma_cancel_right(o + data_debug(d1), o + data_debug(d2), c);
    lemma_cancel_left(o, data_debug(d1), data_debug(d2));
}

/// Text whose UTF-8 encodings are the same is the same.
proof fn lemma_encode_utf8_injective(s1: Seq<char>, s2: Seq<char>)
    requires
        encode_utf8(s1) == encode_utf8(s2),
    ensures
        s1 == s2,
{
    vstd::utf8::encode_utf8_decode_utf8(s1);
    vstd::utf8::encode_utf8_decode_utf8(s2);
}

/// The hash of an event that announces a participant covers the announced
/// key: two such events with the same identifier and nonce whose keys
/// differ in the modulus (written differently, with the same exponent) or
/// in the exponent (with the same modulus) have different hash inputs, so
/// a signature over one does not carry over to the other.
pub proof fn lemma_new_user_hash_covers_key(id: u128, k1: KeyView, k2: KeyView, nonce: u128)
    requires
        (biguint_debug_text(k1.n) != biguint_debug_text(k2.n) && k1.e == k2.e) || (k1.n == k2.n
            && biguint_debug_text(k1.e) != biguint_debug_text(k2.e)),
    ensures
        event_digest_input(DataView::NewUser { id, pub_key: k1 }, nonce) != event_digest_input(
            DataView::NewUser { id, pub_key: k2 },
            nonce,
        ),
{
    let d1 = DataView::NewUser { id, pub_key: k1 };
    let d2 = DataView::NewUser { id, pub_key: k2 };
    if event_digest_input(d1, nonce) == event_digest_input(d2, nonce) {
        lemma_digest_input_data(d1, d2, nonce);
        let p = encode_utf8("NewUser { id: "@) + dec_digits(id as nat) + encode_utf8(", pub_key: "@);
        let r = encode_utf8(" }"@);
        lemma_cancel_right(p + key_debug(k1), p + key_debug(k2), r);
        lemma_cancel_left(p, key_debug(k1), key_debug(k2));
        let a = encode_utf8("RsaPublicKey { n: "@);
        let n1 = encode_utf8(biguint_debug_text(k1.n));
        let n2 = encode_utf8(biguint_debug_text(k2.n));
        let b = encode_utf8(", e: "@);
        let e1 = encode_utf8(biguint_debug_text(k1.e));
        let e2 = encode_utf8(biguint_debug_text(k2.e));
        let c = encode_utf8(" }"@);
        lemma_cancel_right(a + n1 + b + e1, a + n2 + b + e2, c);
        if k1.e == k2.e {
            lemma_cancel_right(a + n1 + b, a + n2 + b, e1);
            lemma_cancel_right(a + n1, a + n2, b);
            lemma_cancel_left(a, n1, n2);
            lemma_encode_utf8_injective(biguint_debug_text(k1.n), biguint_debug_text(k2.n));
        } else {
            lemma_cancel_left(a + n1 + b, e1, e2);
            lemma_encode_utf8_injective(biguint_debug_text(k1.e), biguint_debug_text(k2.e));
        }
    }
}

/// The hash of a group message covers the message: two with the same nonce
/// whose texts are written differently by `{:?}` have different hash
/// inputs.
pub proof fn lemma_group_message_hash_covers_text(s1: Seq<char>, s2: Seq<char>, nonce: u128)
    requires
        debug_text(s1) != debug_text(s2),
    ensures
        event_digest_input(DataView::GroupMessage(s1), nonce) != event_digest_input(
            DataView::GroupMessage(s2),
            nonce,
        ),
{
    let d1 = DataView::GroupMessage(s1);
    let d2 = DataView::GroupMessage(s2);
    if event_digest_input(d1, nonce) == event_digest_input(d2, nonce) {
        lemma_digest_input_data(d1, d2, nonce);
        let a = encode_utf8("GroupMessage("@);
        let b = encode_utf8(")"@);
        lemma_cancel_right(a + encode_utf8(debug_text(s1)), a + encode_utf8(debug_text(s2)), b);
        lemma_cancel_left(a, encode_utf8(debug_text(s1)), encode_utf8(debug_text(s2)));
        lemma_encode_utf8_injective(debug_text(s1), debug_text(s2));
    }
}

/// The number that ASCII decimal digits denote.
pub open spec fn digits_value(s: Seq<u8>) -> int
    decreases s.len(),
{
    if s.len() == 0 {
        0
    } else {
        digits_value(s.drop_last()) * 10 + (s.last() - 48)
    }
}

/// The decimal digits of `n` are ASCII digits and denote `n`.
pub proof fn lemma_dec_digits_value(n: nat)
    ensures
        digits_value(dec_digits(n)) == n,
        dec_digits(n).len() > 0,
        forall|i: int| 0 <= i < dec_digits(n).len() ==> 48 <= #[trigger] dec_digits(n)[i] <= 57,
    decreases n,
{
    if n >= 10 {
        lemma_dec_digits_value(n / 10);
        let d = dec_digits(n / 10);
        assert(dec_digits(n).drop_last() =~= d);
        vstd::arithmetic::div_mod::lemma_fundamental_div_mod(n as int, 10);
        assert(dec_digits(n).last() == (48 + n % 10) as u8);
        assert(((48 + n % 10) as u8) as int == 48 + n % 10);
        assert(digits_value(dec_digits(n)) == digits_value(d) * 10 + (n % 10));
        assert(n == (n / 10) * 10 + n % 10);
        assert forall|i: int| 0 <= i < dec_digits(n).len() implies 48 <= #[trigger] dec_digits(
            n,
        )[i] <= 57 by {
            if i < d.len() {
                assert(dec_digits(n)[i] == d[i]);
            }
        }
    } else {
        assert(dec_digits(n).drop_last() =~= Seq::<u8>::empty());
        assert(digits_value(Seq::<u8>::empty()) == 0);
        assert(dec_digits(n).last() == (48 + n) as u8);
        assert(((48 + n) as u8) as int == 48 + n);
        assert(digits_value(dec_digits(n)) == digits_value(dec_digits(n).drop_last()) * 10 + (
        dec_digits(n).last() - 48));
    }
}

/// Different numbers have different decimal digits.
pub proof fn lemma_dec_digits_injective(n1: nat, n2: nat)
    requires
        dec_digits(n1) == dec_digits(n2),
    ensures
        n1 == n2,
{
    lemma_dec_digits_value(n1);
    lemma_dec_digits_value(n2);
}

/// Where the decimal digits of two numbers are each followed by a comma
/// and the rest is equal, the numbers are equal and so is what follows
/// them.
proof fn lemma_digits_before_comma(n1: nat, n2: nat, x1: Seq<u8>, x2: Seq<u8>)
    requires
        dec_digits(n1) + x1 == dec_digits(n2) + x2,
        x1.len() > 0 && x1[0] == 44,
        x2.len() > 0 && x2[0] == 44,
    ensures
        n1 == n2,
        x1 == x2,
{
    let d1 = dec_digits(n1);
    let d2 = dec_digits(n2);
    lemma_dec_digits_value(n1);
    lemma_dec_digits_value(n2);
    if d1.len() < d2.len() {
        assert((d1 + x1)[d1.len() as int] == x1[0]);
        assert((d2 + x2)[d1.len() as int] == d2[d1.len() as int]);
    } else if d2.len() < d1.len() {
        assert((d2 + x2)[d2.len() as int] == x2[0]);
        assert((d1 + x1)[d2.len() as int] == d1[d2.len() as int]);
    } else {
        assert((d1 + x1).subrange(0, d1.len() as int) =~= d1);
        assert((d2 + x2).subrange(0, d2.len() as int) =~= d2);
        lemma_dec_digits_injective(n1, n2);
        lemma_cancel_left(d1, x1, x2);
    }
}

/// The UTF-8 encoding of a text that starts with a comma starts with the
/// comma's byte.
proof fn lemma_starts_with_comma(s: Seq<char>)
    requires
        vstd::utf8::is_ascii_chars(s),
        s.len() > 0,
        s[0] == ',',
    ensures
        encode_utf8(s).len() > 0,
        encode_utf8(s)[0] == 44,
{
    vstd::utf8::is_ascii_chars_encode_utf8(s);
}

/// The separator `, ` starts with a comma.
proof fn lemma_comma_first()
    ensures
        encode_utf8(", "@).len() > 0,
        encode_utf8(", "@)[0] == 44,
{
    reveal_strlit(", ");
    lemma_starts_with_comma(", "@);
}

/// The text `, pub_key: ` starts with a comma.
proof fn lemma_key_field_first()
    ensures
        encode_utf8(", pub_key: "@).len() > 0,
        encode_utf8(", pub_key: "@)[0] == 44,
{
    reveal_strlit(", pub_key: ");
    lemma_starts_with_comma(", pub_key: "@);
}

/// The hash of an event covers its nonce: the same data with different
/// nonces gives different hash inputs.
pub proof fn lemma_event_hash_covers_nonce(d: DataView, n1: u128, n2: u128)
    requires
        n1 != n2,
    ensures
        event_digest_input(d, n1) != event_digest_input(d, n2),
{
    if event_digest_input(d, n1) == event_digest_input(d, n2) {
        let a = encode_utf8("("@) + data_debug(d) + encode_utf8(", "@);
        let t = encode_utf8(")"@);
        lemma_cancel_right(a + dec_digits(n1 as nat), a + dec_digits(n2 as nat), t);
        lemma_cancel_left(a, dec_digits(n1 as nat), dec_digits(n2 as nat));
        lemma_dec_digits_injective(n1 as nat, n2 as nat);
    }
}

/// The hash of an event that announces a participant covers the
/// participant's identifier.
pub proof fn lemma_new_user_hash_covers_id(id1: u128, id2: u128, k1: KeyView, k2: KeyView, nonce: u128)
    requires
        id1 != id2,
    ensures
        event_digest_input(DataView::NewUser { id: id1, pub_key: k1 }, nonce) != event_digest_input(
            DataView::NewUser { id: id2, pub_key: k2 },
            nonce,
        ),
{
    let d1 = DataView::NewUser { id: id1, pub_key: k1 };
    let d2 = DataView::NewUser { id: id2, pub_key: k2 };
    if event_digest_input(d1, nonce) == event_digest_input(d2, nonce) {
        lemma_digest_input_data(d1, d2, nonce);
        let p = encode_utf8("NewUser { id: "@);
        let c = encode_utf8(", pub_key: "@);
        let x1 = c + key_debug(k1) + encode_utf8(" }"@);
        let x2 = c + key_debug(k2) + encode_utf8(" }"@);
        assert(data_debug(d1) =~= p + (dec_digits(id1 as nat) + x1));
        assert(data_debug(d2) =~= p + (dec_digits(id2 as nat) + x2));
        lemma_cancel_left(p, dec_digits(id1 as nat) + x1, dec_digits(id2 as nat) + x2);
        lemma_key_field_first();
        assert(x1[0] == 44 && x2[0] == 44);
        lemma_digits_before_comma(id1 as nat, id2 as nat, x1, x2);
    }
}

/// The hash of a message for one participant covers the recipient.
pub proof fn lemma_individual_message_hash_covers_recipient(
    id1: u128,
    id2: u128,
    m1: Seq<u8>,
    m2: Seq<u8>,
    nonce: u128,
)
    requires
        id1 != id2,
    ensures
        event_digest_input(DataView::IndividualMessage(id1, m1), nonce) != event_digest_input(
            DataView::IndividualMessage(id2, m2),
            nonce,
        ),
{
    let d1 = DataView::IndividualMessage(id1, m1);
    let d2 = DataView::IndividualMessage(id2, m2);
    if event_digest_input(d1, nonce) == event_digest_input(d2, nonce) {
        lemma_digest_input_data(d1, d2, nonce);
        let p = encode_utf8("IndividualMessage("@);
        let c = encode_utf8(", "@);
        let r = encode_utf8(")"@);
        let g1 = bytes_debug(m1);
        let g2 = bytes_debug(m2);
        let x1 = c + (g1 + r);
        let x2 = c + (g2 + r);
        let e1 = dec_digits(id1 as nat);
        let e2 = dec_digits(id2 as nat);
        assert(data_debug(d1) == p + e1 + c + g1 + r);
        assert(data_debug(d2) == p + e2 + c + g2 + r);
        vstd::seq_lib::lemma_concat_associative(p + e1 + c, g1, r);
        vstd::seq_lib::lemma_concat_associative(p + e1, c, g1 + r);
        vstd::seq_lib::lemma_concat_associative(p, e1, x1);
        vstd::seq_lib::lemma_concat_associative(p + e2 + c, g2, r);
        vstd::seq_lib::lemma_concat_associative(p + e2, c, g2 + r);
        vstd::seq_lib::lemma_concat_associative(p, e2, x2);
        lemma_comma_first();
        assert(x1[0] == c[0] && x2[0] == c[0]);
        lemma_cancel_left(p, dec_digits(id1 as nat) + x1, dec_digits(id2 as nat) + x2);
        lemma_digits_before_comma(id1 as nat, id2 as nat, x1, x2);
    }
}

/// The separator `, ` is a comma and a space.
proof fn lemma_separator_bytes()
    ensures
        encode_utf8(", "@) == seq![44u8, 32u8],
{
    reveal_strlit(", ");
    assert(vstd::utf8::is_ascii_chars(", "@));
    vstd::utf8::is_ascii_chars_encode_utf8(", "@);
    assert(encode_utf8(", "@) =~= seq![44u8, 32u8]);
}

/// The numbers of a list are written apart from one another: the text is
/// empty only for an empty list, holds only digits for a list of one, and
/// otherwise ends with a comma, a space and the last number's digits.
proof fn lemma_dec_list_shape(m: Seq<u8>)
    ensures
        (dec_list(m).len() == 0) == (m.len() == 0),
        m.len() == 1 ==> forall|i: int| 0 <= i < dec_list(m).len() ==> 48 <= #[trigger] dec_list(m)[i] <= 57,
        m.len() >= 2 ==> dec_list(m) == dec_list(m.drop_last()) + seq![44u8, 32u8] + dec_digits(
            m.last() as nat,
        ),
{
    lemma_separator_bytes();
    if m.len() >= 1 {
        lemma_dec_digits_value(m.last() as nat);
        lemma_dec_digits_value(m[0] as nat);
    }
}

/// Different lists of bytes are written differently.
pub proof fn lemma_dec_list_injective(m1: Seq<u8>, m2: Seq<u8>)
    requires
        dec_list(m1) == dec_list(m2),
    ensures
        m1 == m2,
    decreases m1.len() + m2.len(),
{
    lemma_dec_list_shape(m1);
    lemma_dec_list_shape(m2);
    let l = dec_list(m1);
    if m1.len() == 0 || m2.len() == 0 {
        assert(m1 =~= m2);
    } else if m1.len() == 1 && m2.len() == 1 {
        lemma_dec_digits_injective(m1[0] as nat, m2[0] as nat);
        assert(m1 =~= m2);
    } else if m1.len() == 1 {
        let f2 = dec_list(m2.drop_last());
        assert(l[f2.len() as int] == 44u8);
    } else if m2.len() == 1 {
        let f1 = dec_list(m1.drop_last());
        assert(l[f1.len() as int] == 44u8);
    } else {
        let s = seq![44u8, 32u8];
        let f1 = dec_list(m1.drop_last()) + s;
        let f2 = dec_list(m2.drop_last()) + s;
        let d1 = dec_digits(m1.last() as nat);
        let d2 = dec_digits(m2.last() as nat);
        lemma_dec_digits_value(m1.last() as nat);
        lemma_dec_digits_value(m2.last() as nat);
        assert(l == f1 + d1);
        assert(l == f2 + d2);
        if d1.len() < d2.len() {
            let p = l.len() - d1.len() - 1;
            assert(l[p] == (f1 + d1)[p]);
            assert((f1 + d1)[p] == 32u8);
            assert((f2 + d2)[p] == d2[p - f2.len()]);
        } else if d2.len() < d1.len() {
            let p = l.len() - d2.len() - 1;
            assert((f2 + d2)[p] == 32u8);
            assert((f1 + d1)[p] == d1[p - f1.len()]);
        } else {
            assert((f1 + d1).subrange(0, f1.len() as int) =~= f1);
            assert((f2 + d2).subrange(0, f2.len() as int) =~= f2);
            assert((f1 + d1).subrange(f1.len() as int, l.len() as int) =~= d1);
            assert((f2 + d2).subrange(f2.len() as int, l.len() as int) =~= d2);
            lemma_cancel_right(dec_list(m1.drop_last()), dec_list(m2.drop_last()), s);
            lemma_dec_list_injective(m1.drop_last(), m2.drop_last());
            lemma_dec_digits_injective(m1.last() as nat, m2.last() as nat);
            assert(m1 =~= m2.drop_last().push(m2.last()));
            assert(m2 =~= m2.drop_last().push(m2.last()));
        }
    }
}

/// The hash of a message for one participant covers the message: the same
/// recipient and nonce with different message bytes give different hash
/// inputs.
pub proof fn lemma_individual_message_hash_covers_bytes(
    id: u128,
    m1: Seq<u8>,
    m2: Seq<u8>,
    nonce: u128,
)
    requires
        m1 != m2,
    ensures
        event_digest_input(DataView::IndividualMessage(id, m1), nonce) != event_digest_input(
            DataView::IndividualMessage(id, m2),
            nonce,
        ),
{
    let d1 = DataView::IndividualMessage(id, m1);
    let d2 = DataView::IndividualMessage(id, m2);
    if event_digest_input(d1, nonce) == event_digest_input(d2, nonce) {
        lemma_digest_input_data(d1, d2, nonce);
        let a = encode_utf8("IndividualMessage("@) + dec_digits(id as nat) + encode_utf8(", "@);
        let r = encode_utf8(")"@);
        assert(data_debug(d1) == a + bytes_debug(m1) + r);
        assert(data_debug(d2) == a + bytes_debug(m2) + r);
        lemma_cancel_right(a + bytes_debug(m1), a + bytes_debug(m2), r);
        lemma_cancel_left(a, bytes_debug(m1), bytes_debug(m2));
        let o = encode_utf8("["@);
        let c = encode_utf8("]"@);
        lemma_cancel_right(o + dec_list(m1), o + dec_list(m2), c);
        lemma_cancel_left(o, dec_list(m1), dec_list(m2));
        lemma_dec_list_injective(m1, m2);
    }
}

} // verus!
