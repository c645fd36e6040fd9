//! The certificate-parsing collaborator: DER decoding of X.509 certificates.

use vstd::prelude::*;
use x509_certificate::certificate::X509Certificate;
use x509_certificate::X509CertificateError;

verus! {

#[verifier::external_type_specification]
#[verifier::external_body]
pub struct ExX509Certificate(X509Certificate);

#[verifier::external_type_specification]
#[verifier::external_body]
pub struct ExX509CertificateError(X509CertificateError);

/// Whether the DER decoder of `x509_certificate` accepts these bytes as a certificate.
pub uninterp spec fn der_is_certificate(der: Seq<u8>) -> bool;

/// Relies on `X509Certificate::from_der`: it decodes the bytes it is given and
/// nothing else, so whether it succeeds depends on those bytes alone.
#[verifier::external_body]
pub(crate) fn decode_der(der: &Vec<u8>) -> (r: Result<X509Certificate, X509CertificateError>)
    ensures
        r is Ok <==> der_is_certificate(der@),
{
    X509Certificate::from_der(der)
}

} // verus!
