//! Participants: their roles, keys and identity.
use vstd::prelude::*;

use crate::config::Profile;
use crate::crypto::{
    all_ascii, ascii_lower, can_encrypt, decrypts_for, exponent_in_range, lowercase, modulus_size, pkcs1v15_plaintext,
    pkcs1v15_signature, rsa_encrypt, to_lowercase, PrivateKey, PrivateKeyView, PublicKey,
    PKCS1_OVERHEAD,
};
use crate::events::{data_hash, event_hash, opt_bytes_view, signature_accepted, Data, Event};

verus! {

/// Role of a node in the network.
#[derive(Clone, Copy, Debug, PartialEq, Eq, Structural)]
pub enum Role {
    /// Sends data and makes events.
    User,
    /// Sends data, makes events, and builds blocks from the events it
    /// receives.
    Miner,
    /// Holds the addresses of the participants.
    LookUp,
}

/// A role name that no role has.
#[derive(Clone, Copy, Debug, PartialEq, Eq, Structural)]
pub struct RoleParseError;

/// The role that a lower-case name denotes.
pub open spec fn role_named(lower: Seq<char>) -> Option<Role> {
    if lower == "miner"@ {
        Some(Role::Miner)
    } else if lower == "user"@ {
        Some(Role::User)
    } else if lower == "lookup"@ {
        Some(Role::LookUp)
    } else {
        None
    }
}

impl Role {
    /// The role named by `s`, in any case: `miner`, `user` or `lookup`.
    pub fn parse(s: &str) -> (r: Result<Role, RoleParseError>)
        ensures
            r == match role_named(lowercase(s@)) {
                Some(role) => Ok(role),
                None => Err(RoleParseError),
            },
            all_ascii(s@) ==> r == match role_named(ascii_lower(s@)) {
                Some(role) => Ok(role),
                None => Err(RoleParseError),
            },
    {
        let lower = to_lowercase(s);
        if lower == "miner".to_owned() {
            Ok(Role::Miner)
        } else if lower == "user".to_owned() {
            Ok(Role::User)
        } else if lower == "lookup".to_owned() {
            Ok(Role::LookUp)
        } else {
            Err(RoleParseError)
        }
    }
}

impl std::str::FromStr for Role {
    type Err = RoleParseError;

    fn from_str(s: &str) -> (r: Result<Role, RoleParseError>)
        ensures
            r == match role_named(lowercase(s@)) {
                Some(role) => Ok(role),
                None => Err(RoleParseError),
            },
            all_ascii(s@) ==> r == match role_named(ascii_lower(s@)) {
                Some(role) => Ok(role),
                None => Err(RoleParseError),
            },
    {
        Role::parse(s)
    }
}

/// A participant of the network.
#[derive(Debug)]
pub struct Account {
    /// Identifier of the node.
    pub id: u128,
    /// Role of the node.
    pub role: Role,
    /// How many events go in each block the node builds.
    pub block_size: usize,
    /// Public key of the node.
    pub pub_key: PublicKey,
    /// Private key of the node.
    pub priv_key: PrivateKey,
    /// Profile the node was set up with.
    pub profile: Profile,
}

impl Account {
    /// The private key.
    pub closed spec fn private_key(&self) -> PrivateKeyView {
        self.priv_key@
    }

    /// A new account; blocks hold ten events unless the profile says
    /// otherwise.
    pub fn new(
        role: Role,
        profile: Profile,
        pub_key: PublicKey,
        priv_key: PrivateKey,
        id: u128,
    ) -> (r: Account)
        ensures
            r.id == id,
            r.role == role,
            r.block_size == match profile.block_size {
                Some(s) => s,
                None => 10,
            },
            r.pub_key == pub_key,
            r.private_key() == priv_key@,
            r.profile == profile,
    {
        let block_size: usize = match profile.block_size {
            Some(s) => s,
            None => 10,
        };
        Account { id, role, block_size, pub_key, priv_key, profile }
    }

    /// A new event by this account, signed with its key; `None` where the
    /// key cannot sign it.
    pub fn new_event(&self, data: Data) -> (r: Option<Event>)
        ensures
            match r {
                Some(e) => {
                    &&& e.made_by == self.id
                    &&& e.data == data
                    &&& e.signature is Some
                    &&& pkcs1v15_signature(self.private_key(), event_hash(e@)) == opt_bytes_view(
                        e.signature,
                    )
                    &&& signature_accepted(e@, self.private_key().public())
                },
                None => exists|nonce: u128|
                    pkcs1v15_signature(self.private_key(), data_hash(data@, nonce)) is None,
            },
    {
        let mut event = Event::new(self.id, data);
        if self.try_sign_event(&mut event) {
            Some(event)
        } else {
            None
        }
    }

    /// Signs `event` with this account's key.
    pub fn sign_event(&self, event: &mut Event)
        requires
            pkcs1v15_signature(self.private_key(), event_hash(old(event)@)) is Some,
        ensures
            final(event).made_by == old(event).made_by,
            final(event).data == old(event).data,
            final(event).nonce == old(event).nonce,
            final(event).created_at == old(event).created_at,
            opt_bytes_view(final(event).signature) == pkcs1v15_signature(
                self.private_key(),
                event_hash(old(event)@),
            ),
            signature_accepted(final(event)@, self.private_key().public()),
    {
        let signed = self.try_sign_event(event);
        assert(signed);
    }

    /// Signs `event` with this account's key where the key can sign it, and
    /// says whether it did; an event that cannot be signed is left as it was.
    pub fn try_sign_event(&self, event: &mut Event) -> (r: bool)
        ensures
            r == pkcs1v15_signature(self.private_key(), event_hash(old(event)@)) is Some,
            final(event).made_by == old(event).made_by,
            final(event).data == old(event).data,
            final(event).nonce == old(event).nonce,
            final(event).created_at == old(event).created_at,
            r ==> opt_bytes_view(final(event).signature) == pkcs1v15_signature(
                self.private_key(),
                event_hash(old(event)@),
            ),
            r ==> signature_accepted(final(event)@, self.private_key().public()),
            !r ==> final(event).signature == old(event).signature,
    {
        let bytes = event.calculate_hash();
        match self.priv_key.sign(bytes.as_slice()) {
            Some(s) => {
                event.sign(Some(s));
                true
            },
            None => false,
        }
    }

    /// Decrypts a message sent to this account.
    pub fn decrypt_msg(&self, enc_data: &Vec<u8>) -> (r: Vec<u8>)
        requires
            pkcs1v15_plaintext(self.private_key(), enc_data@) is Some,
        ensures
            pkcs1v15_plaintext(self.private_key(), enc_data@) == Some(r@),
    {
        match self.try_decrypt_msg(enc_data) {
            Some(m) => m,
            None => {
                assert(false);
                Vec::new()
            },
        }
    }

    /// Decrypts a message sent to this account, `None` where it cannot be
    /// decrypted with the account's key.
    pub fn try_decrypt_msg(&self, enc_data: &Vec<u8>) -> (r: Option<Vec<u8>>)
        ensures
            match r {
                Some(m) => pkcs1v15_plaintext(self.private_key(), enc_data@) == Some(m@),
                None => pkcs1v15_plaintext(self.private_key(), enc_data@) is None,
            },
    {
        self.priv_key.decrypt(enc_data.as_slice())
    }

    /// Encrypts `data` for the holder of `pub_key`: the ciphertext is as long
    /// as the key's modulus, and the private key of `pub_key` decrypts it to
    /// `data` where its factors are distinct primes.
    pub fn encrypt_msg(&self, data: &Vec<u8>, pub_key: &PublicKey) -> (r: Vec<u8>)
        requires
            exponent_in_range(pub_key.e@),
            data@.len() + PKCS1_OVERHEAD <= modulus_size(pub_key.n@),
        ensures
            r@.len() == modulus_size(pub_key.n@),
            forall|k: PrivateKeyView|
                k.public() == pub_key@ && decrypts_for(k) ==> #[trigger] pkcs1v15_plaintext(
                    k,
                    r@,
                ) == Some(data@),
    {
        match rsa_encrypt(pub_key, data.as_slice()) {
            Some(c) => c,
            None => {
                assert(false);
                Vec::new()
            },
        }
    }

    /// Whether `encrypt_msg` can encrypt `data` for `pub_key`.
    pub fn can_encrypt_msg(&self, data: &Vec<u8>, pub_key: &PublicKey) -> (r: bool)
        ensures
            r == (exponent_in_range(pub_key.e@) && data@.len() + PKCS1_OVERHEAD <= modulus_size(
                pub_key.n@,
            )),
    {
        can_encrypt(pub_key, data.len())
    }
}

} // verus!
