//! Where the root certificate of the proxy lies, and who issues by it.
use vstd::prelude::*;
use rcgen::{Issuer, KeyPair};
use crate::mitm::MitmError;
use crate::text;
use crate::util;

verus! {

#[verifier::external_type_specification]
#[verifier::external_body]
pub struct ExKeyPair(rcgen::KeyPair);

#[verifier::external_type_specification]
#[verifier::external_body]
#[verifier::reject_recursive_types(S)]
pub struct ExIssuer<'a, S>(rcgen::Issuer<'a, S>);

/// How many certificates the proxy keeps ready.
pub const LEAF_CACHE_SIZE: u64 = 10000;

/// How long a new root certificate is valid, in seconds: ten years.
pub const CA_VALIDITY_SECS: u64 = 60 * 60 * 24 * 365 * 10;

/// By how many seconds the validity of a new root certificate begins in the past.
pub const CA_BACKDATE_SECS: u64 = 60;

/// The name in the root certificate.
pub const CA_COMMON_NAME: &'static str = "Pouch Root CA";

/// The organisation in the root certificate.
pub const CA_ORGANIZATION: &'static str = "Pouch";

/// The directory of the root certificate, below the program's data directory.
pub fn ca_directory(app_support: Option<&str>) -> (r: Result<String, MitmError>)
    ensures
        match (r, app_support) {
            (Ok(dir), Some(root)) => dir@ == util::joined(root@, "ca"@),
            (Err(MitmError::Ca(words)), None) => words@
                == "macos_app_support_dir unavailable ($HOME unset?)"@,
            _ => false,
        },
{
    match app_support {
        Some(root) => Ok(util::join_path(root, "ca")),
        None => Err(
            MitmError::Ca("macos_app_support_dir unavailable ($HOME unset?)".to_owned()),
        ),
    }
}

/// The file of the root certificate.
pub open spec fn pem_file(root: Seq<char>) -> Seq<char> {
    util::joined(util::joined(root, "ca"@), "pouch-ca.pem"@)
}

/// The file of the key to the root certificate.
pub open spec fn key_file(root: Seq<char>) -> Seq<char> {
    util::joined(util::joined(root, "ca"@), "pouch-ca.key"@)
}

/// The file of the root certificate, where there is a data directory.
pub fn ca_pem_path(app_support: Option<&str>) -> (r: Option<String>)
    ensures
        text::opt(r) == match app_support {
            Some(root) => Some(pem_file(root@)),
            None => None,
        },
{
    match ca_directory(app_support) {
        Ok(dir) => Some(util::join_path(dir.as_str(), "pouch-ca.pem")),
        Err(_) => None,
    }
}

/// The file of the key to the root certificate, where there is a data directory.
pub fn ca_key_path(app_support: Option<&str>) -> (r: Option<String>)
    ensures
        text::opt(r) == match app_support {
            Some(root) => Some(key_file(root@)),
            None => None,
        },
{
    match ca_directory(app_support) {
        Ok(dir) => Some(util::join_path(dir.as_str(), "pouch-ca.key")),
        Err(_) => None,
    }
}

/// Where the root certificate comes from.
#[derive(Debug, Clone, Copy, PartialEq, Eq, Structural)]
pub enum CaSource {
    /// It is read from its two files.
    Load,
    /// A new one is made and written.
    Generate,
}

/// A root certificate is read only where both its files are there.
pub fn ca_source(pem_exists: bool, key_exists: bool) -> (r: CaSource)
    ensures
        r == if pem_exists && key_exists {
            CaSource::Load
        } else {
            CaSource::Generate
        },
{
    if pem_exists && key_exists {
        CaSource::Load
    } else {
        CaSource::Generate
    }
}

// ---------------------------------------------------------------------------
// The issuer.

/// Whether a key is one that `rcgen::KeyPair::from_pem` can read from a text.
pub uninterp spec fn is_key_of(pem: Seq<char>, key: KeyPair) -> bool;

/// Whether a key can be read from a text.
pub open spec fn key_accepted(pem: Seq<char>) -> bool {
    exists|key: KeyPair| #[trigger] is_key_of(pem, key)
}

/// What `rcgen::Issuer::from_ca_cert_pem` makes of the text of a root certificate
/// and the key to it: the issuer, or the words of its error.
pub uninterp spec fn issuer_made(cert_pem: Seq<char>, key: KeyPair) -> Result<
    Issuer<'static, KeyPair>,
    Seq<char>,
>;

/// Whether a text is a certificate that can issue others, whatever the key to it.
pub open spec fn certificate_accepted(cert_pem: Seq<char>) -> bool {
    forall|key: KeyPair| (#[trigger] issuer_made(cert_pem, key)) is Ok
}

/// `rcgen::KeyPair::from_pem`: a key that can be read from the text, or the words
/// of the error. A key on an elliptic curve takes bytes from the random source of
/// the system, so that one text can give different values, and is refused where
/// that source fails; left unsaid is therefore which of the keys comes, and that
/// one comes whenever it can.
#[verifier::external_body]
fn parse_key(pem: &str) -> (r: Result<KeyPair, String>)
    ensures
        r matches Ok(key) ==> is_key_of(pem@, key),
{
    KeyPair::from_pem(pem).map_err(|e| e.to_string())
}

/// `rcgen::Issuer::from_ca_cert_pem`: the issuer by a certificate and the key to
/// it, or the words of the error. The key is moved into the issuer and not looked
/// at, so the text alone decides whether there is one.
#[verifier::external_body]
fn make_issuer(cert_pem: &str, key: KeyPair) -> (r: Result<Issuer<'static, KeyPair>, String>)
    ensures
        issuer_made(cert_pem@, key) == match r {
            Ok(issuer) => Ok::<_, Seq<char>>(issuer),
            Err(words) => Err(words@),
        },
        r is Ok ==> certificate_accepted(cert_pem@),
{
    Issuer::from_ca_cert_pem(cert_pem, key).map_err(|e| e.to_string())
}

/// An error with words before those of its cause.
fn ca_error(lead: &str, words: &str) -> (r: MitmError)
    ensures
        r matches MitmError::Ca(w) && w@ == lead@ + words@,
{
    let mut out: String = lead.to_owned();
    out.append(words);
    MitmError::Ca(out)
}

/// The issuer by a root certificate and what came of reading the key to it.
pub fn issuer_with_key(cert_pem: &str, key: Result<KeyPair, String>) -> (r: Result<Issuer<'static, KeyPair>, MitmError>)
    ensures
        match key {
            Err(words) => r matches Err(MitmError::Ca(w)) && w@ == "parse CA key PEM: "@ + words@,
            Ok(key) => match issuer_made(cert_pem@, key) {
                Ok(issuer) => r == Ok::<_, MitmError>(issuer),
                Err(words) => r matches Err(MitmError::Ca(w)) && w@ == "parse CA cert PEM: "@ + words,
            },
        },
        r is Ok <==> key is Ok && certificate_accepted(cert_pem@),
{
    match key {
        Err(words) => Err(ca_error("parse CA key PEM: ", words.as_str())),
        Ok(key) => match make_issuer(cert_pem, key) {
            Ok(issuer) => Ok(issuer),
            Err(words) => Err(ca_error("parse CA cert PEM: ", words.as_str())),
        },
    }
}

/// The issuer by a root certificate and the key to it, both in their text form.
/// The key is read first.
pub fn issuer_from_pem(cert_pem: &str, key_pem: &str) -> (r: Result<Issuer<'static, KeyPair>, MitmError>)
    ensures
        r matches Ok(issuer) ==> exists|key: KeyPair| #[trigger]
            is_key_of(key_pem@, key) && issuer_made(cert_pem@, key) == Ok::<_, Seq<char>>(issuer),
        r is Ok ==> key_accepted(key_pem@) && certificate_accepted(cert_pem@),
        r matches Err(e) ==> {
            ||| e matches MitmError::Ca(w) && text::starts_with(w@, "parse CA key PEM: "@)
            ||| exists|key: KeyPair| #[trigger]
                is_key_of(key_pem@, key) && (issuer_made(cert_pem@, key) matches Err(words) && (
                e matches MitmError::Ca(w) && w@ == "parse CA cert PEM: "@ + words))
        },
        !key_accepted(key_pem@) ==> (r matches Err(MitmError::Ca(w)) && text::starts_with(
            w@,
            "parse CA key PEM: "@,
        )),
{
    let key = parse_key(key_pem);
    proof {
        if let Err(words) = &key {
            let lead = "parse CA key PEM: "@;
            assert((lead + words@).take(lead.len() as int) =~= lead);
        }
    }
    issuer_with_key(cert_pem, key)
}

/// The certificate and its key lie beside each other, in the directory `ca` of the
/// data directory.
pub proof fn law_certificate_and_key_lie_together(root: Seq<char>)
    requires
        root.len() > 0,
        root.last() != '/',
    ensures
        pem_file(root) == root + "/ca/pouch-ca.pem"@,
        key_file(root) == root + "/ca/pouch-ca.key"@,
{
    reveal_strlit("ca");
    reveal_strlit("pouch-ca.pem");
    reveal_strlit("pouch-ca.key");
    reveal_strlit("/ca/pouch-ca.pem");
    reveal_strlit("/ca/pouch-ca.key");
    assert(util::joined(root, "ca"@) =~= root.push('/') + "ca"@);
    assert(pem_file(root) =~= root + "/ca/pouch-ca.pem"@);
    assert(key_file(root) =~= root + "/ca/pouch-ca.key"@);
}

} // verus!
