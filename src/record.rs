use crate::cipher::{decrypt_with, decrypted_of, encrypt_with, encrypted_of};
use crate::error::StoreError;
use crate::json::{distinct_keys, field_views, json_field, json_field_of, json_object, json_text_of, lookup};
use vstd::prelude::*;

verus! {

/// One stored secret: its name, the account it belongs to and the
/// encrypted password.
#[derive(Debug, Default)]
pub struct Credential {
    pub name: String,
    pub account: String,
    encrypted_password: String,
}

/// A credential as three character sequences.
pub struct CredentialView {
    pub name: Seq<char>,
    pub account: Seq<char>,
    pub encrypted_password: Seq<char>,
}

impl View for Credential {
    type V = CredentialView;

    closed spec fn view(&self) -> CredentialView {
        CredentialView {
            name: self.name@,
            account: self.account@,
            encrypted_password: self.encrypted_password@,
        }
    }
}

pub open spec fn name_key() -> Seq<char> {
    seq!['n', 'a', 'm', 'e']
}

pub open spec fn account_key() -> Seq<char> {
    seq!['a', 'c', 'c', 'o', 'u', 'n', 't']
}

pub open spec fn secret_key() -> Seq<char> {
    seq!['e', 'n', 'c', 'r', 'y', 'p', 't', 'e', 'd', '_', 'p', 'a', 's', 's', 'w', 'o', 'r', 'd']
}

/// The tagged fields that the serialized form of a credential holds.
pub open spec fn fields_of(c: CredentialView) -> Seq<(Seq<char>, Seq<char>)> {
    seq![(name_key(), c.name), (account_key(), c.account), (secret_key(), c.encrypted_password)]
}

/// The credential that a serialized text holds, if it holds all three fields.
pub open spec fn parse_record(text: Seq<char>) -> Option<CredentialView> {
    match (
        json_field_of(text, name_key()),
        json_field_of(text, account_key()),
        json_field_of(text, secret_key()),
    ) {
        (Some(n), Some(a), Some(e)) => Some(
            CredentialView { name: n, account: a, encrypted_password: e },
        ),
        _ => None,
    }
}

/// What decrypting a credential's secret under a passphrase returns.
pub open spec fn decrypt_result(c: CredentialView, passphrase: Seq<char>) -> Option<Seq<char>> {
    decrypted_of(c.encrypted_password, passphrase)
}

fn name_key_str() -> (r: &'static str)
    ensures
        r@ == name_key(),
{
    let r = "name";
    proof {
        reveal_strlit("name");
    }
    r
}

fn account_key_str() -> (r: &'static str)
    ensures
        r@ == account_key(),
{
    let r = "account";
    proof {
        reveal_strlit("account");
    }
    r
}

fn secret_key_str() -> (r: &'static str)
    ensures
        r@ == secret_key(),
{
    let r = "encrypted_password";
    proof {
        reveal_strlit("encrypted_password");
    }
    r
}

impl Credential {
    /// The stored token of the encrypted password.
    pub fn encrypted_password(&self) -> (r: &str)
        ensures
            r@ == self@.encrypted_password,
    {
        self.encrypted_password.as_str()
    }

    /// Decrypts the password under the passphrase `key`.
    pub fn decrypt(&self, key: &str) -> (r: Result<String, StoreError>)
        ensures
            match r {
                Ok(s) => decrypt_result(self@, key@) == Some(s@),
                Err(e) => e == StoreError::Decryption && decrypt_result(self@, key@) is None,
            },
    {
        match decrypt_with(self.encrypted_password.as_str(), key) {
            Ok(s) => Ok(s),
            Err(_) => Err(StoreError::Decryption),
        }
    }

    /// Builds a credential whose password is encrypted under the passphrase
    /// `key`; decrypting it under `key` gives `password` back.
    pub fn from_input(name: &str, username: &str, password: &str, key: &str) -> (r: Credential)
        ensures
            r@.name == name@,
            r@.account == username@,
            r@.encrypted_password == encrypted_of(password@, key@),
            decrypt_result(r@, key@) == Some(password@),
    {
        Credential {
            name: name.to_string(),
            account: username.to_string(),
            encrypted_password: encrypt_with(password, key),
        }
    }

    /// The serialized text of the credential; reading it back gives the same
    /// credential.
    pub fn as_json(&self) -> (r: String)
        ensures
            r@ == json_text_of(fields_of(self@)),
            parse_record(r@) == Some(self@),
            forall|key: Seq<char>| #[trigger] json_field_of(r@, key) == lookup(fields_of(self@), key),
    {
        let mut fields: Vec<(String, String)> = Vec::new();
        fields.push((name_key_str().to_string(), self.name.clone()));
        fields.push((account_key_str().to_string(), self.account.clone()));
        fields.push((secret_key_str().to_string(), self.encrypted_password.clone()));
        proof {
            assert(field_views(fields@) =~= fields_of(self@));
            assert(name_key().len() == 4 && account_key().len() == 7 && secret_key().len() == 18);
            assert(name_key() != account_key());
            assert(name_key() != secret_key());
            assert(account_key() != secret_key());
        }
        let r = json_object(&fields);
        proof {
            let fs = fields_of(self@);
            reveal_with_fuel(lookup, 3);
            assert(lookup(fs, name_key()) == Some(self@.name));
            assert(lookup(fs, account_key()) == Some(self@.account));
            assert(lookup(fs, secret_key()) == Some(self@.encrypted_password));
        }
        r
    }

    /// Reads a credential from its serialized text.
    pub fn from_json(text: &str) -> (r: Result<Credential, StoreError>)
        ensures
            match r {
                Ok(c) => parse_record(text@) == Some(c@),
                Err(e) => e == StoreError::Parse && parse_record(text@) is None,
            },
    {
        let name = json_field(text, name_key_str());
        let account = json_field(text, account_key_str());
        let secret = json_field(text, secret_key_str());
        match (name, account, secret) {
            (Some(n), Some(a), Some(e)) => Ok(
                Credential { name: n, account: a, encrypted_password: e },
            ),
            _ => Err(StoreError::Parse),
        }
    }
}

} // verus!
