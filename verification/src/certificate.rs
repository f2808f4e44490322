//! Self-signed certificates (made by the `rcgen` crate) and their SHA-256 fingerprints.
use crate::crypto::{sha256, sha256_of};
use crate::protocols::dtls_utils::{fingerprint_text, format_fingerprint};
use crate::text::{push_str, str_eq};
use vstd::prelude::*;

verus! {

/// The parameters of a certificate to make (`rcgen::CertificateParams`).
#[verifier::external_type_specification]
#[verifier::external_body]
pub struct ExCertificateParams(rcgen::CertificateParams);

/// A certificate with its key pair (`rcgen::Certificate`).
#[verifier::external_type_specification]
#[verifier::external_body]
pub struct ExCertificate(rcgen::Certificate);

/// An error of the `rcgen` crate.
#[verifier::external_type_specification]
#[verifier::external_body]
pub struct ExRcgenError(rcgen::RcgenError);

/// Default parameters for a certificate valid for the given names
/// (`rcgen::CertificateParams::new`).
/// Trusted: nothing is stated of the parameters.
#[verifier::external_body]
fn certificate_params(names: Vec<String>) -> rcgen::CertificateParams {
    rcgen::CertificateParams::new(names)
}

/// Replaces the distinguished name by one holding only the common name `cn`
/// (`rcgen::DistinguishedName::new` and `push`).
/// Trusted: nothing is stated of the parameters.
#[verifier::external_body]
fn set_common_name(params: &mut rcgen::CertificateParams, cn: &str) {
    params.distinguished_name = rcgen::DistinguishedName::new();
    params.distinguished_name.push(rcgen::DnType::CommonName, cn);
}

/// A self-signed certificate with a fresh key pair (`rcgen::Certificate::from_params`).
/// Trusted: nothing is stated of the outcome, which depends on fresh randomness.
#[verifier::external_body]
fn certificate_from_params(params: rcgen::CertificateParams) -> Result<rcgen::Certificate, rcgen::RcgenError> {
    rcgen::Certificate::from_params(params)
}

/// The DER encoding of a certificate (`rcgen::Certificate::serialize_der`).
/// Trusted: an encoding is never empty, since it is a DER SEQUENCE (tag and length at
/// least); its contents are not stated.
#[verifier::external_body]
fn certificate_der(cert: &rcgen::Certificate) -> (r: Result<Vec<u8>, rcgen::RcgenError>)
    ensures
        r matches Ok(v) ==> v@.len() > 0,
{
    cert.serialize_der()
}

/// The DER encoding of a certificate's private key
/// (`rcgen::Certificate::serialize_private_key_der`).
/// Trusted: the bytes are the key pair's PKCS#8 document, which is never empty for a key
/// pair that is generated or read from DER (a remote key pair, which this library never
/// makes, panics instead); its contents are not stated.
#[verifier::external_body]
fn private_key_der(cert: &rcgen::Certificate) -> (r: Vec<u8>)
    ensures
        r@.len() > 0,
{
    cert.serialize_private_key_der()
}

/// The text of an `rcgen` error (its `Display`).
/// Trusted: nothing is stated of the text.
#[verifier::external_body]
fn rcgen_error_text(e: &rcgen::RcgenError) -> String {
    format!("{}", e)
}

/// The names a certificate of this library is valid for, and its common name.
pub fn certificate_subject() -> (r: (Vec<String>, String))
    ensures
        r.0@.len() == 2,
        r.0@[0]@ == "localhost"@,
        r.0@[1]@ == "127.0.0.1"@,
        r.1@ == "RoomRTC"@,
{
    (vec![String::from_str("localhost"), String::from_str("127.0.0.1")], String::from_str("RoomRTC"))
}

/// A certificate in DER, its private key in DER, and the certificate's fingerprint.
pub struct CertificateInfo {
    pub certificate: Vec<u8>,
    pub private_key: Vec<u8>,
    pub fingerprint: String,
}

impl CertificateInfo {
    /// Makes a self-signed certificate for "localhost" and "127.0.0.1" with common name
    /// "RoomRTC", and computes its fingerprint.
    pub fn generate() -> (r: Result<Self, String>)
        ensures
            r matches Ok(c) ==> c.fingerprint@ == fingerprint_text(sha256_of(c.certificate@))
                && c.certificate@.len() > 0 && c.private_key@.len() > 0,
    {
        let (names, common_name) = certificate_subject();
        let mut params = certificate_params(names);
        set_common_name(&mut params, common_name.as_str());
        let cert = match certificate_from_params(params) {
            Ok(c) => c,
            Err(e) => {
                let mut m = String::from_str("Failed to generate certificate: ");
                let t = rcgen_error_text(&e);
                push_str(&mut m, t.as_str());
                return Err(m);
            },
        };
        let der = match certificate_der(&cert) {
            Ok(d) => d,
            Err(e) => {
                let mut m = String::from_str("Failed to serialize certificate: ");
                let t = rcgen_error_text(&e);
                push_str(&mut m, t.as_str());
                return Err(m);
            },
        };
        let key = private_key_der(&cert);
        let digest = sha256(der.as_slice());
        let fingerprint = format_fingerprint(&digest);
        Ok(CertificateInfo { certificate: der, private_key: key, fingerprint })
    }

    /// Whether `expected_fingerprint` is the fingerprint of the certificate `cert_der`.
    pub fn verify_fingerprint(cert_der: &[u8], expected_fingerprint: &str) -> (r: Result<bool, String>)
        ensures
            r == Ok::<bool, String>(fingerprint_text(sha256_of(cert_der@)) == expected_fingerprint@),
    {
        let digest = sha256(cert_der);
        let computed = format_fingerprint(&digest);
        Ok(str_eq(computed.as_str(), expected_fingerprint))
    }
}

} // verus!
