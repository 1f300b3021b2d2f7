use vstd::prelude::*;

use argon2::{Argon2, PasswordHash, PasswordVerifier};

verus! {

/// `password_hash::PasswordHash`, the parse of a PHC string; opaque here.
#[verifier::external_type_specification]
#[verifier::external_body]
pub struct ExPasswordHash<'a>(PasswordHash<'a>);

/// Whether `PasswordHash::new` of the `password-hash` crate (0.5) accepts
/// the text as a hash in the PHC string format.
pub uninterp spec fn phc_string_is_well_formed(phc: Seq<char>) -> bool;

/// Whether `Argon2::default().verify_password` (argon2 0.5) accepts
/// `password` against the hash that the PHC string `phc` describes: the
/// password, hashed with the algorithm, version, parameters and salt that the
/// string names, gives the output that the string holds.
pub uninterp spec fn argon2_accepts(phc: Seq<char>, password: Seq<u8>) -> bool;

/// Parses a PHC string with `password_hash::PasswordHash::new`.
///
/// Trusted: the parse succeeds exactly when the text is well formed in the
/// sense named by `phc_string_is_well_formed`; what the parsed value holds
/// is not stated.
#[verifier::external_body]
fn parse_phc_string<'a>(phc: &'a str) -> (parsed: Option<PasswordHash<'a>>)
    ensures
        parsed is Some <==> phc_string_is_well_formed(phc@),
{
    PasswordHash::new(phc).ok()
}

/// A stored password hash: a PHC string that parses, kept with its parse.
/// The only way to build one is `StoredPasswordHash::parse`, so the parsed
/// value is always the parse of the text.
pub struct StoredPasswordHash<'a> {
    phc: &'a str,
    parsed: PasswordHash<'a>,
}

impl<'a> View for StoredPasswordHash<'a> {
    type V = Seq<char>;

    /// The PHC string that the hash was parsed from.
    closed spec fn view(&self) -> Seq<char> {
        self.phc@
    }
}

impl<'a> StoredPasswordHash<'a> {
    /// Parses a stored hash in the PHC string format.
    pub fn parse(phc: &'a str) -> (stored: Option<StoredPasswordHash<'a>>)
        ensures
            stored is Some <==> phc_string_is_well_formed(phc@),
            stored matches Some(h) ==> h@ == phc@,
    {
        match parse_phc_string(phc) {
            Some(parsed) => Some(StoredPasswordHash { phc, parsed }),
            None => None,
        }
    }

    /// Checks `password` against the hash with
    /// `Argon2::default().verify_password` (the `PasswordVerifier` method).
    ///
    /// Trusted: the answer is the value named by `argon2_accepts` on the PHC
    /// text of the hash and the password bytes; it relies on `parsed` being
    /// the parse of `phc`, which the constructor guarantees. Not stated: the
    /// call hashes with the memory cost that the PHC string names and may run
    /// out of memory on an absurd one.
    #[verifier::external_body]
    pub(crate) fn verifies(&self, password: &[u8]) -> (accepted: bool)
        ensures
            accepted == argon2_accepts(self@, password@),
    {
        Argon2::default().verify_password(password, &self.parsed).is_ok()
    }
}

} // verus!
