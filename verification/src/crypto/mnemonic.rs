//! BIP-39 seed phrases, as handled by the `bip39` crate. The library holds
//! a phrase as its text; the crate reads it and derives its seed.

use vstd::prelude::*;

verus! {

/// What `bip39::Mnemonic::parse(phrase)` followed by `to_seed(passphrase)`
/// gives: `None` when the crate does not accept the phrase, else the 64-byte
/// seed (PBKDF2 over the phrase's words and the passphrase). A function of
/// the two texts alone.
pub uninterp spec fn bip39_seed(phrase: Seq<char>, passphrase: Seq<char>) -> Option<Seq<u8>>;

/// Calls `bip39::Mnemonic::generate_in(Language::English, word_count)` and
/// writes the phrase out with its `Display` (the words, separated by single
/// spaces). The words are random, so nothing is claimed of which they are.
/// Claimed: the crate documents that generation succeeds for 12, 15, 18, 21
/// and 24 words, and a phrase it generated and wrote out is accepted again
/// by `parse` (its words are English and its checksum holds), whatever the
/// passphrase.
#[verifier::external_body]
pub(crate) fn generate_english(word_count: usize) -> (r: Option<String>)
    ensures
        (word_count == 12 || word_count == 15 || word_count == 18 || word_count == 21
            || word_count == 24) ==> r is Some,
        r matches Some(p) ==> forall|pw: Seq<char>| #[trigger] bip39_seed(p@, pw) is Some,
{
    match bip39::Mnemonic::generate_in(bip39::Language::English, word_count) {
        Ok(m) => Some(m.to_string()),
        Err(_) => None,
    }
}

/// Calls `bip39::Mnemonic::parse(phrase)`, then `to_seed(passphrase)` on the
/// phrase it read: the result is `bip39_seed` of the two texts.
#[verifier::external_body]
pub(crate) fn phrase_seed(phrase: &str, passphrase: &str) -> (r: Option<[u8; 64]>)
    ensures
        match bip39_seed(phrase@, passphrase@) {
            None => r is None,
            Some(s) => r matches Some(x) && x@ == s,
        },
{
    match bip39::Mnemonic::parse(phrase) {
        Ok(m) => Some(m.to_seed(passphrase)),
        Err(_) => None,
    }
}

/// The passphrase a seed is derived with: the password, or the empty text.
pub open spec fn passphrase_of(password: Option<&str>) -> Seq<char> {
    match password {
        Some(p) => p@,
        None => Seq::empty(),
    }
}

/// The password as a passphrase: the empty text when there is none.
pub fn passphrase_text<'a>(password: Option<&'a str>) -> (r: &'a str)
    ensures
        r@ == passphrase_of(password),
{
    match password {
        Some(p) => p,
        None => {
            proof {
                reveal_strlit("");
            }
            ""
        },
    }
}

} // verus!
