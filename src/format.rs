//! The JKS version 2 wire format, stated as spec functions over the input bytes.
//!
//! Each reader takes the buffer and a position and gives either the value read
//! with the position after it, or the error that decoding stops with.

use vstd::prelude::*;
use crate::der::der_is_certificate;
use crate::error::ErrorModel;
use vstd::utf8::{decode_utf8, valid_utf8};

verus! {

/// The big-endian unsigned value of a byte sequence.
pub open spec fn be_value(s: Seq<u8>) -> nat
    decreases s.len(),
{
    if s.len() == 0 {
        0
    } else {
        be_value(s.drop_last()) * 256 + s.last() as nat
    }
}

/// `256` raised to `n`.
pub open spec fn pow256(n: nat) -> nat
    decreases n,
{
    if n == 0 {
        1
    } else {
        256 * pow256((n - 1) as nat)
    }
}

pub proof fn lemma_be_value_bound(s: Seq<u8>)
    ensures
        be_value(s) < pow256(s.len()),
    decreases s.len(),
{
    if s.len() > 0 {
        lemma_be_value_bound(s.drop_last());
        let a = be_value(s.drop_last());
        let b = pow256((s.len() - 1) as nat);
        let c = s.last() as nat;
        assert(a * 256 + c < 256 * b) by (nonlinear_arith)
            requires
                a < b,
                c < 256,
        ;
    }
}

pub proof fn lemma_pow256_monotone(m: nat, n: nat)
    requires
        m <= n,
    ensures
        pow256(m) <= pow256(n),
    decreases n,
{
    if m < n {
        lemma_pow256_monotone(m, (n - 1) as nat);
    }
}

/// `n` bytes at `p`.
pub open spec fn take(d: Seq<u8>, p: int, n: nat) -> Result<(Seq<u8>, int), ErrorModel> {
    if p + n <= d.len() {
        Ok((d.subrange(p, p + n), p + n))
    } else {
        Err(ErrorModel::ShortRead { needed: n })
    }
}

/// A big-endian integer of `n` bytes at `p`.
pub open spec fn take_int(d: Seq<u8>, p: int, n: nat) -> Result<(nat, int), ErrorModel> {
    match take(d, p, n) {
        Ok((b, q)) => Ok((be_value(b), q)),
        Err(e) => Err(e),
    }
}

/// A string at `p`: a two-byte length, then that many bytes of UTF-8.
pub open spec fn take_str(d: Seq<u8>, p: int) -> Result<(Seq<char>, int), ErrorModel> {
    match take_int(d, p, 2) {
        Ok((n, q)) => match take(d, q, n) {
            Ok((b, r)) => if valid_utf8(b) {
                Ok((decode_utf8(b), r))
            } else {
                Err(ErrorModel::InvalidEncoding)
            },
            Err(e) => Err(e),
        },
        Err(e) => Err(e),
    }
}


/// The fixed bytes that every keystore starts with.
pub open spec fn magic() -> Seq<u8> {
    seq![0xFEu8, 0xED, 0xFE, 0xED]
}

/// A certificate entry, as plain values.
pub struct CertModel {
    pub alias: Seq<char>,
    pub timestamp: u64,
    pub raw: Seq<u8>,
}

/// A key-pair entry, as plain values: the chain holds each certificate's DER bytes.
pub struct KeyPairModel {
    pub alias: Seq<char>,
    pub timestamp: u64,
    pub encrypted_key: Seq<u8>,
    pub chain: Seq<Seq<u8>>,
}

/// A whole keystore, as plain values, each sequence in the order of the input.
pub struct StoreModel {
    pub certs: Seq<CertModel>,
    pub key_pairs: Seq<KeyPairModel>,
}

/// A certificate at `p`: its type, which must be `X.509`, a four-byte length,
/// and that many bytes of DER, which the DER decoder must accept.
pub open spec fn take_cert(d: Seq<u8>, p: int) -> Result<(Seq<u8>, int), ErrorModel> {
    match take_str(d, p) {
        Ok((t, q)) => if t != "X.509"@ {
            Err(ErrorModel::UnsupportedCertificateType { cert_type: t })
        } else {
            match take_int(d, q, 4) {
                Ok((n, r)) => match take(d, r, n) {
                    Ok((der, s)) => if der_is_certificate(der) {
                        Ok((der, s))
                    } else {
                        Err(ErrorModel::CertificateParseError)
                    },
                    Err(e) => Err(e),
                },
                Err(e) => Err(e),
            }
        },
        Err(e) => Err(e),
    }
}

/// A certificate entry at `p` (after its tag): alias, timestamp, certificate.
pub open spec fn take_cert_entry(d: Seq<u8>, p: int) -> Result<(CertModel, int), ErrorModel> {
    match take_str(d, p) {
        Ok((alias, q)) => match take_int(d, q, 8) {
            Ok((ts, r)) => match take_cert(d, r) {
                Ok((raw, s)) => Ok((CertModel { alias, timestamp: ts as u64, raw }, s)),
                Err(e) => Err(e),
            },
            Err(e) => Err(e),
        },
        Err(e) => Err(e),
    }
}

/// The first `n` certificates of a chain that starts at `p`.
pub open spec fn take_chain(d: Seq<u8>, p: int, n: nat) -> Result<(Seq<Seq<u8>>, int), ErrorModel>
    decreases n,
{
    if n == 0 {
        Ok((Seq::empty(), p))
    } else {
        match take_chain(d, p, (n - 1) as nat) {
            Ok((c, q)) => match take_cert(d, q) {
                Ok((x, r)) => Ok((c.push(x), r)),
                Err(e) => Err(e),
            },
            Err(e) => Err(e),
        }
    }
}

/// A key-pair entry at `p` (after its tag): alias, timestamp, the encrypted key
/// with a four-byte length, and the chain with a four-byte count.
pub open spec fn take_key_pair(d: Seq<u8>, p: int) -> Result<(KeyPairModel, int), ErrorModel> {
    match take_str(d, p) {
        Ok((alias, q)) => match take_int(d, q, 8) {
            Ok((ts, r)) => match take_int(d, r, 4) {
                Ok((n, s)) => match take(d, s, n) {
                    Ok((key, t)) => match take_int(d, t, 4) {
                        Ok((m, u)) => match take_chain(d, u, m) {
                            Ok((chain, v)) => Ok((
                                KeyPairModel {
                                    alias,
                                    timestamp: ts as u64,
                                    encrypted_key: key,
                                    chain,
                                },
                                v,
                            )),
                            Err(e) => Err(e),
                        },
                        Err(e) => Err(e),
                    },
                    Err(e) => Err(e),
                },
                Err(e) => Err(e),
            },
            Err(e) => Err(e),
        },
        Err(e) => Err(e),
    }
}

/// One entry at `p`: a four-byte tag, then a key pair (1) or a certificate (2),
/// added to `s`.
pub open spec fn take_entry(d: Seq<u8>, p: int, s: StoreModel) -> Result<(StoreModel, int), ErrorModel> {
    match take_int(d, p, 4) {
        Ok((tag, q)) => if tag == 1 {
            match take_key_pair(d, q) {
                Ok((k, r)) => Ok((StoreModel { certs: s.certs, key_pairs: s.key_pairs.push(k) }, r)),
                Err(e) => Err(e),
            }
        } else if tag == 2 {
            match take_cert_entry(d, q) {
                Ok((c, r)) => Ok((StoreModel { certs: s.certs.push(c), key_pairs: s.key_pairs }, r)),
                Err(e) => Err(e),
            }
        } else {
            Err(ErrorModel::InvalidEntryType { tag: tag as u32 })
        },
        Err(e) => Err(e),
    }
}

/// The first `n` entries, starting at `p`.
pub open spec fn take_entries(d: Seq<u8>, p: int, n: nat) -> Result<(StoreModel, int), ErrorModel>
    decreases n,
{
    if n == 0 {
        Ok((StoreModel { certs: Seq::empty(), key_pairs: Seq::empty() }, p))
    } else {
        match take_entries(d, p, (n - 1) as nat) {
            Ok((s, q)) => take_entry(d, q, s),
            Err(e) => Err(e),
        }
    }
}

/// A whole keystore: magic, version 2, a four-byte entry count, the entries.
/// On success, also the position just past the last entry.
pub open spec fn take_store(d: Seq<u8>) -> Result<(StoreModel, int), ErrorModel> {
    match take(d, 0, 4) {
        Ok((m, p)) => if m != magic() {
            Err(ErrorModel::InvalidFormat { actual: m })
        } else {
            match take_int(d, p, 4) {
                Ok((v, q)) => if v != 2 {
                    Err(ErrorModel::UnsupportedVersion { version: v as u32 })
                } else {
                    match take_int(d, q, 4) {
                        Ok((n, r)) => take_entries(d, r, n),
                        Err(e) => Err(e),
                    }
                },
                Err(e) => Err(e),
            }
        },
        Err(e) => Err(e),
    }
}

/// What decoding `d` gives.
pub open spec fn store_of(d: Seq<u8>) -> Result<StoreModel, ErrorModel> {
    match take_store(d) {
        Ok((s, _)) => Ok(s),
        Err(e) => Err(e),
    }
}

/// Once the first `k` links of a chain fail, every longer chain fails alike.
pub proof fn lemma_chain_err_stays(d: Seq<u8>, p: int, k: nat, n: nat)
    requires
        k <= n,
        take_chain(d, p, k) is Err,
    ensures
        take_chain(d, p, n) == take_chain(d, p, k),
    decreases n,
{
    if k < n {
        lemma_chain_err_stays(d, p, k, (n - 1) as nat);
    }
}

/// Once the first `k` entries fail, decoding more entries fails alike.
pub proof fn lemma_entries_err_stays(d: Seq<u8>, p: int, k: nat, n: nat)
    requires
        k <= n,
        take_entries(d, p, k) is Err,
    ensures
        take_entries(d, p, n) == take_entries(d, p, k),
    decreases n,
{
    if k < n {
        lemma_entries_err_stays(d, p, k, (n - 1) as nat);
    }
}

} // verus!
