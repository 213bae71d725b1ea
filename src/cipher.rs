use magic_crypt::MagicCryptTrait;
use vstd::prelude::*;

verus! {

/// The token that AES-256 encryption of a plaintext under a passphrase gives.
pub uninterp spec fn encrypted_of(plaintext: Seq<char>, passphrase: Seq<char>) -> Seq<char>;

/// What decrypting a token under a passphrase gives, if it succeeds.
pub uninterp spec fn decrypted_of(token: Seq<char>, passphrase: Seq<char>) -> Option<Seq<char>>;

#[verifier::external_type_specification]
#[verifier::external_body]
pub struct ExMagicCryptError(magic_crypt::MagicCryptError);

/// Relies on magic_crypt's `MagicCrypt256::new` (key from SHA-256 of the
/// passphrase, fixed IV) and `encrypt_str_to_base64`: the base64 token depends
/// on the plaintext and passphrase alone, and decrypting it under the same
/// passphrase gives the plaintext back.
#[verifier::external_body]
pub(crate) fn encrypt_with(plaintext: &str, passphrase: &str) -> (r: String)
    ensures
        r@ == encrypted_of(plaintext@, passphrase@),
        decrypted_of(r@, passphrase@) == Some(plaintext@),
{
    magic_crypt::MagicCrypt256::new(passphrase, None::<&str>).encrypt_str_to_base64(plaintext)
}

/// Relies on magic_crypt's `MagicCrypt256::new` and `decrypt_base64_to_string`:
/// the outcome depends on the token and passphrase alone.
#[verifier::external_body]
pub(crate) fn decrypt_with(token: &str, passphrase: &str) -> (r: Result<
    String,
    magic_crypt::MagicCryptError,
>)
    ensures
        match r {
            Ok(s) => decrypted_of(token@, passphrase@) == Some(s@),
            Err(_) => decrypted_of(token@, passphrase@) is None,
        },
{
    magic_crypt::MagicCrypt256::new(passphrase, None::<&str>).decrypt_base64_to_string(token)
}

} // verus!
