//! Keys and signatures. Keys and signatures are held as bytes; the
//! elliptic-curve arithmetic on them is `p256`'s.

use p256::ecdsa::signature::Signer;
use p256::ecdsa::signature::Verifier;
use p256::ecdsa::Signature;
use p256::ecdsa::SigningKey;
use p256::ecdsa::VerifyingKey;
use rand_core::OsRng;
use vstd::prelude::*;

verus! {

/// The error of `p256`'s key and signature functions. It carries no detail.
#[verifier::external_type_specification]
#[verifier::external_body]
pub struct ExEcdsaError(p256::ecdsa::Error);

/// The signature that `SigningKey::try_sign` makes of a message with a
/// private key, in ASN.1 DER; `None` where `SigningKey::from_slice` refuses
/// the key or signing fails. Signing is deterministic.
pub uninterp spec fn p256_signature(private_key: Seq<u8>, message: Seq<char>) -> Option<Seq<u8>>;

/// Whether `VerifyingKey::from_sec1_bytes` takes the bytes for a public key.
pub uninterp spec fn p256_is_public_key(public_key: Seq<u8>) -> bool;

/// Whether the bytes are a public key and a DER signature, and
/// `VerifyingKey::verify` accepts the signature for the message.
pub uninterp spec fn p256_accepts(public_key: Seq<u8>, message: Seq<char>, signature: Seq<u8>) -> bool;

/// The public key of a private key, as an uncompressed SEC1 point; `None`
/// where `SigningKey::from_slice` refuses the private key.
pub uninterp spec fn p256_public_key(private_key: Seq<u8>) -> Option<Seq<u8>>;

/// The address of a public key: the `Debug` text of its uncompressed SEC1
/// point; empty where the bytes are no public key.
pub uninterp spec fn p256_address(public_key: Seq<u8>) -> Seq<char>;

/// `SigningKey::from_slice`, `try_sign` on the message's bytes, and
/// `Signature::to_der`. An error of either of the first two is handed on.
/// What comes back depends on key and message alone. A signature that comes
/// back is one that the public key of the private key accepts for the
/// message: this is what `p256::ecdsa` documents of signing and verifying,
/// and shows in the example of its module.
#[verifier::external_body]
fn ecdsa_sign(private_key: &[u8], message: &str) -> (signed: Result<Vec<u8>, p256::ecdsa::Error>)
    ensures
        match signed {
            Ok(signature) => p256_signature(private_key@, message@) == Some(signature@),
            Err(_) => p256_signature(private_key@, message@) is None,
        },
        signed is Ok ==> forall|public_key: Seq<u8>|
            p256_public_key(private_key@) == Some(public_key) ==> #[trigger] p256_accepts(
                public_key,
                message@,
                signed->Ok_0@,
            ),
{
    let key = SigningKey::from_slice(private_key)?;
    let signature: Signature = key.try_sign(message.as_bytes())?;
    Ok(signature.to_der().as_bytes().to_vec())
}

/// `VerifyingKey::from_sec1_bytes`, for its verdict on the bytes alone: the
/// key that it makes is dropped.
#[verifier::external_body]
fn check_public_key(public_key: &[u8]) -> (checked: Result<(), p256::ecdsa::Error>)
    ensures
        checked is Ok == p256_is_public_key(public_key@),
{
    VerifyingKey::from_sec1_bytes(public_key).map(|_| ())
}

/// `VerifyingKey::from_sec1_bytes`, `Signature::from_der` and
/// `VerifyingKey::verify` on the message's bytes. The answer is `false`
/// where any of the three reports an error.
#[verifier::external_body]
fn ecdsa_accepts(public_key: &[u8], message: &str, signature: &[u8]) -> (accepted: bool)
    ensures
        accepted == p256_accepts(public_key@, message@, signature@),
{
    match (VerifyingKey::from_sec1_bytes(public_key), Signature::from_der(signature)) {
        (Ok(key), Ok(parsed)) => key.verify(message.as_bytes(), &parsed).is_ok(),
        _ => false,
    }
}

/// `SigningKey::from_slice`, `verifying_key` and `to_encoded_point(false)`:
/// the bytes of the public point, or the error of the first. The bytes that
/// come back are a public key: `from_sec1_bytes` reads the point that
/// `to_encoded_point` wrote.
#[verifier::external_body]
fn derive_public_key(private_key: &[u8]) -> (derived: Result<Vec<u8>, p256::ecdsa::Error>)
    ensures
        match derived {
            Ok(public_key) => p256_public_key(private_key@) == Some(public_key@)
                && p256_is_public_key(public_key@),
            Err(_) => p256_public_key(private_key@) is None,
        },
{
    let key = SigningKey::from_slice(private_key)?;
    Ok(key.verifying_key().to_encoded_point(false).as_bytes().to_vec())
}

/// `SigningKey::random` on the operating system's generator, and
/// `to_bytes`. Nothing is stated of which key comes back, only that it is
/// one: `random` makes a scalar that is not zero, and `from_slice` takes the
/// bytes of every such scalar.
#[verifier::external_body]
fn random_private_key() -> (private_key: Vec<u8>)
    ensures
        p256_public_key(private_key@) is Some,
{
    SigningKey::random(&mut OsRng).to_bytes().to_vec()
}

/// The `Debug` text of `VerifyingKey::to_encoded_point(false)`; empty where
/// `from_sec1_bytes` refuses the bytes.
#[verifier::external_body]
fn address_text(public_key: &[u8]) -> (address: String)
    ensures
        address@ == p256_address(public_key@),
{
    match VerifyingKey::from_sec1_bytes(public_key) {
        Ok(key) => format!("{:?}", key.to_encoded_point(false)),
        Err(_) => String::new(),
    }
}

/// What is wrong with a key.
#[derive(Debug, Clone, Copy, PartialEq, Eq, Structural)]
pub enum KeyError {
    /// The bytes are no key.
    Malformed,
    /// No key is registered for the address.
    Unregistered,
}

/// A signature, as ASN.1 DER.
#[derive(Debug)]
pub struct SerializableSignature(pub Vec<u8>);

/// The signature of a transaction, if it has one.
#[derive(Debug)]
pub struct OptionalSerializableSignature(pub Option<SerializableSignature>);

impl Clone for SerializableSignature {
    fn clone(&self) -> (copy: SerializableSignature)
        ensures
            copy.0@ == self.0@,
    {
        SerializableSignature(self.0.clone())
    }
}

impl OptionalSerializableSignature {
    /// The signature's bytes, if there is a signature.
    pub open spec fn bytes(&self) -> Option<Seq<u8>> {
        match self.0 {
            Some(signature) => Some(signature.0@),
            None => None,
        }
    }
}

impl Clone for OptionalSerializableSignature {
    fn clone(&self) -> (copy: OptionalSerializableSignature)
        ensures
            copy.bytes() == self.bytes(),
    {
        match &self.0 {
            Some(signature) => OptionalSerializableSignature(Some(signature.clone())),
            None => OptionalSerializableSignature(None),
        }
    }
}

/// Signs a message: the DER signature, or the error for a private key that
/// is none.
pub fn sign_message(private_key: &[u8], message: &str) -> (signed: Result<Vec<u8>, KeyError>)
    ensures
        match signed {
            Ok(signature) => p256_signature(private_key@, message@) == Some(signature@),
            Err(_) => p256_signature(private_key@, message@) is None,
        },
        signed is Ok ==> forall|public_key: Seq<u8>|
            p256_public_key(private_key@) == Some(public_key) ==> #[trigger] p256_accepts(
                public_key,
                message@,
                signed->Ok_0@,
            ),
{
    match ecdsa_sign(private_key, message) {
        Ok(signature) => Ok(signature),
        Err(_) => Err(KeyError::Malformed),
    }
}

/// Checks a signature on a message: an error for bytes that are no public
/// key, else whether the signature is accepted.
pub fn verify_message(public_key: &[u8], message: &str, signature: &[u8]) -> (verdict: Result<
    bool,
    KeyError,
>)
    ensures
        verdict == if p256_is_public_key(public_key@) {
            Ok::<bool, KeyError>(p256_accepts(public_key@, message@, signature@))
        } else {
            Err::<bool, KeyError>(KeyError::Malformed)
        },
{
    match check_public_key(public_key) {
        Ok(_) => Ok(ecdsa_accepts(public_key, message, signature)),
        Err(_) => Err(KeyError::Malformed),
    }
}

/// A key pair.
#[derive(Debug)]
pub struct Wallet {
    /// The public key, as an uncompressed SEC1 point of 65 bytes.
    pub public_key: Vec<u8>,
    /// The private key, a scalar of 32 bytes.
    pub private_key: Vec<u8>,
}

impl Wallet {
    /// Whether the public key is a public key, and the one of the private
    /// key.
    pub open spec fn is_key_pair(&self) -> bool {
        p256_public_key(self.private_key@) == Some(self.public_key@) && p256_is_public_key(
            self.public_key@,
        )
    }

    /// A wallet with a fresh random key pair.
    pub fn new() -> (wallet: Wallet)
        ensures
            wallet.is_key_pair(),
    {
        let private_key = random_private_key();
        match derive_public_key(private_key.as_slice()) {
            Ok(public_key) => Wallet { public_key, private_key },
            Err(_) => Wallet { public_key: Vec::new(), private_key },
        }
    }

    /// The wallet of a given private key.
    pub fn from_private_key(private_key: Vec<u8>) -> (wallet: Result<Wallet, KeyError>)
        ensures
            match wallet {
                Ok(w) => w.private_key@ == private_key@ && w.is_key_pair(),
                Err(_) => p256_public_key(private_key@) is None,
            },
    {
        match derive_public_key(private_key.as_slice()) {
            Ok(public_key) => Ok(Wallet { public_key, private_key }),
            Err(_) => Err(KeyError::Malformed),
        }
    }

    /// The address of the wallet's public key.
    pub fn get_address(&self) -> (address: String)
        ensures
            address@ == p256_address(self.public_key@),
    {
        address_text(self.public_key.as_slice())
    }
}

impl Clone for Wallet {
    fn clone(&self) -> (copy: Wallet)
        ensures
            copy.public_key@ == self.public_key@,
            copy.private_key@ == self.private_key@,
    {
        Wallet { public_key: self.public_key.clone(), private_key: self.private_key.clone() }
    }
}

} // verus!
