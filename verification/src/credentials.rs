//! Credential provisioning and password-hash verification. The hash is a
//! self-describing PHC string produced by a memory-hard scheme; what the
//! scheme computes is named, not restated.

use vstd::prelude::*;

verus! {

/// Whether `password` verifies against the PHC hash string `phc`.
/// A deterministic function of the two arguments alone: the PHC string
/// embeds algorithm, salt and cost parameters.
pub uninterp spec fn hash_matches(password: Seq<char>, phc: Seq<char>) -> bool;

/// Relies on `phc::PasswordHash::new` and argon2's `PasswordVerifier::verify_password`:
/// re-computes the hash of `password` under the algorithm, salt and
/// parameters the PHC string describes and compares the outputs. The
/// result depends on the two strings alone; an unparsable hash verifies
/// no password.
#[verifier::external_body]
pub fn phc_verify(password: &str, phc: &str) -> (r: bool)
    ensures
        r == hash_matches(password@, phc@),
{
    match argon2::password_hash::phc::PasswordHash::new(phc) {
        Ok(parsed) => argon2::password_hash::PasswordVerifier::verify_password(
            &argon2::Argon2::default(),
            password.as_bytes(),
            &parsed,
        ).is_ok(),
        Err(_) => false,
    }
}

/// Relies on argon2's `PasswordHasher::hash_password`: hashes `password`
/// under default parameters with a fresh random salt and renders the
/// self-describing PHC string. The crate documents that verifying the
/// same password against the produced string succeeds.
#[verifier::external_body]
pub fn phc_hash(password: &str) -> (r: Option<String>)
    ensures
        r matches Some(h) ==> hash_matches(password@, h@),
{
    argon2::password_hash::PasswordHasher::hash_password(
        &argon2::Argon2::default(),
        password.as_bytes(),
    ).ok().map(|h| h.to_string())
}

/// Relies on `uuid::Uuid::new_v4` and the simple format: 32 lowercase
/// hexadecimal characters of fresh randomness, used as a generated
/// admin password. Nothing is assumed about which value comes out.
#[verifier::external_body]
pub fn generate_password() -> (r: String)
    ensures
        r@.len() == 32,
{
    uuid::Uuid::new_v4().simple().to_string()
}

/// The one way provisioning can fail: the hashing scheme refused to
/// produce a hash.
#[derive(Debug)]
pub enum ProvisionError {
    HashingFailed,
}

/// The outcome of provisioning: the hash to store, and, when a password
/// had to be generated, that password so the caller can persist it.
pub struct Provisioned {
    pub password_hash: String,
    pub generated_password: Option<String>,
}

/// Resolves the admin password hash by a strict priority chain: an
/// explicitly configured password is hashed; else an explicitly
/// configured hash is used as it stands; else a password previously
/// persisted to the well-known file is hashed; else a fresh high-entropy
/// password is generated and hashed, and handed back for persisting.
/// Exactly one branch executes.
pub fn provision_password_hash(
    explicit_password: Option<&str>,
    explicit_hash: Option<&str>,
    file_password: Option<&str>,
) -> (r: Result<Provisioned, ProvisionError>)
    ensures
        match r {
            Ok(p) => match explicit_password {
                Some(pw) => hash_matches(pw@, p.password_hash@) && p.generated_password is None,
                None => match explicit_hash {
                    Some(h) => p.password_hash@ == h@ && p.generated_password is None,
                    None => match file_password {
                        Some(pw) => hash_matches(pw@, p.password_hash@) && p.generated_password
                            is None,
                        None => p.generated_password matches Some(g) && g@.len() >= 24
                            && hash_matches(g@, p.password_hash@),
                    },
                },
            },
            Err(_) => explicit_password is Some || explicit_hash is None,
        },
        (explicit_password is None && explicit_hash is Some) ==> r is Ok,
{
    match explicit_password {
        Some(pw) => {
            match phc_hash(pw) {
                Some(h) => Ok(Provisioned { password_hash: h, generated_password: None }),
                None => Err(ProvisionError::HashingFailed),
            }
        },
        None => {
            match explicit_hash {
                Some(h) => Ok(
                    Provisioned { password_hash: h.to_owned(), generated_password: None },
                ),
                None => {
                    match file_password {
                        Some(pw) => {
                            match phc_hash(pw) {
                                Some(h) => Ok(
                                    Provisioned { password_hash: h, generated_password: None },
                                ),
                                None => Err(ProvisionError::HashingFailed),
                            }
                        },
                        None => {
                            let generated = generate_password();
                            match phc_hash(generated.as_str()) {
                                Some(h) => Ok(
                                    Provisioned {
                                        password_hash: h,
                                        generated_password: Some(generated),
                                    },
                                ),
                                None => Err(ProvisionError::HashingFailed),
                            }
                        },
                    }
                },
            }
        },
    }
}

} // verus!
