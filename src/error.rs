//! Errors of the decoder, and their mathematical model.

use vstd::prelude::*;
use x509_certificate::X509CertificateError;

verus! {

/// Every way in which decoding a keystore can fail. Each one aborts the whole parse.
#[derive(Debug)]
pub enum JksError {
    /// The buffer does not start with the magic number.
    InvalidFormat { expected: [u8; 4], actual: [u8; 4] },
    /// The version field holds something other than 2.
    UnsupportedVersion { version: u32 },
    /// The buffer ended before a field could be read whole.
    ShortRead { needed: usize },
    /// A length-prefixed string is not well-formed UTF-8.
    InvalidEncoding,
    /// An entry tag other than 1 (key pair) or 2 (certificate).
    InvalidEntryType { tag: u32 },
    /// A certificate type other than `X.509`.
    UnsupportedCertificateType { cert_type: String },
    /// The DER decoder rejected the bytes of a certificate.
    CertificateParseError(X509CertificateError),
}

/// What a [`JksError`] says, as plain values.
pub enum ErrorModel {
    InvalidFormat { actual: Seq<u8> },
    UnsupportedVersion { version: u32 },
    ShortRead { needed: nat },
    InvalidEncoding,
    InvalidEntryType { tag: u32 },
    UnsupportedCertificateType { cert_type: Seq<char> },
    CertificateParseError,
}

impl View for JksError {
    type V = ErrorModel;

    open spec fn view(&self) -> ErrorModel {
        match self {
            JksError::InvalidFormat { actual, .. } => ErrorModel::InvalidFormat { actual: actual@ },
            JksError::UnsupportedVersion { version } => ErrorModel::UnsupportedVersion {
                version: *version,
            },
            JksError::ShortRead { needed } => ErrorModel::ShortRead { needed: *needed as nat },
            JksError::InvalidEncoding => ErrorModel::InvalidEncoding,
            JksError::InvalidEntryType { tag } => ErrorModel::InvalidEntryType { tag: *tag },
            JksError::UnsupportedCertificateType { cert_type } =>
                ErrorModel::UnsupportedCertificateType { cert_type: cert_type@ },
            JksError::CertificateParseError(_) => ErrorModel::CertificateParseError,
        }
    }
}

} // verus!
