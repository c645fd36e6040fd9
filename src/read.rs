//! Primitive readers over a byte buffer and a cursor into it.
//!
//! Each reader leaves the cursor just past what it read when it succeeds.

use vstd::prelude::*;
use vstd::utf8::{decode_utf8, valid_utf8};
use crate::der::decode_der;
use crate::error::JksError;
use crate::Cert;
use crate::format::{be_value, lemma_be_value_bound, lemma_pow256_monotone, pow256, take, take_cert, take_int, take_str};

verus! {

/// `len` bytes at the cursor, verbatim.
pub fn read_bytes(data: &[u8], pos: &mut usize, len: usize) -> (r: Result<Vec<u8>, JksError>)
    requires
        *old(pos) <= data@.len(),
    ensures
        match take(data@, *old(pos) as int, len as nat) {
            Ok((b, q)) => r matches Ok(v) && v@ == b && *final(pos) == q,
            Err(e) => r matches Err(x) && x@ == e && *final(pos) == *old(pos),
        },
{
    if len > data.len() - *pos {
        return Err(JksError::ShortRead { needed: len });
    }
    let start = *pos;
    let mut out: Vec<u8> = Vec::with_capacity(len);
    let mut i: usize = 0;
    while i < len
        invariant
            start + len <= data@.len(),
            data@.len() <= usize::MAX,
            i <= len,
            out@ == data@.subrange(start as int, start + i),
        decreases len - i,
    {
        out.push(data[start + i]);
        i = i + 1;
        assert(out@ =~= data@.subrange(start as int, start + i));
    }
    *pos = start + len;
    Ok(out)
}


/// The big-endian value of at most eight bytes.
fn be_int(b: &[u8]) -> (r: u64)
    requires
        b@.len() <= 8,
    ensures
        r as nat == be_value(b@),
{
    let mut v: u64 = 0;
    let mut i: usize = 0;
    while i < b.len()
        invariant
            i <= b@.len(),
            b@.len() <= 8,
            v as nat == be_value(b@.subrange(0, i as int)),
        decreases b@.len() - i,
    {
        let ghost prefix = b@.subrange(0, i + 1);
        proof {
            lemma_be_value_bound(b@.subrange(0, i as int));
            lemma_pow256_monotone(i as nat, 7);
            reveal_with_fuel(pow256, 8);
            assert(prefix.drop_last() =~= b@.subrange(0, i as int));
        }
        v = v * 256 + b[i] as u64;
        i = i + 1;
    }
    assert(b@.subrange(0, b@.len() as int) =~= b@);
    v
}

/// Two bytes at the cursor, most significant first.
pub fn read_u16(data: &[u8], pos: &mut usize) -> (r: Result<[u8; 2], JksError>)
    requires
        *old(pos) <= data@.len(),
    ensures
        match take(data@, *old(pos) as int, 2) {
            Ok((b, q)) => r matches Ok(a) && a@ == b && *final(pos) == q,
            Err(e) => r matches Err(x) && x@ == e && *final(pos) == *old(pos),
        },
{
    let p = *pos;
    if data.len() - p < 2 {
        return Err(JksError::ShortRead { needed: 2 });
    }
    let a = [data[p], data[p + 1]];
    *pos = p + 2;
    assert(a@ =~= data@.subrange(p as int, p + 2));
    Ok(a)
}

/// Four bytes at the cursor, most significant first.
pub fn read_u32(data: &[u8], pos: &mut usize) -> (r: Result<[u8; 4], JksError>)
    requires
        *old(pos) <= data@.len(),
    ensures
        match take(data@, *old(pos) as int, 4) {
            Ok((b, q)) => r matches Ok(a) && a@ == b && *final(pos) == q,
            Err(e) => r matches Err(x) && x@ == e && *final(pos) == *old(pos),
        },
{
    let p = *pos;
    if data.len() - p < 4 {
        return Err(JksError::ShortRead { needed: 4 });
    }
    let a = [data[p], data[p + 1], data[p + 2], data[p + 3]];
    *pos = p + 4;
    assert(a@ =~= data@.subrange(p as int, p + 4));
    Ok(a)
}

/// Eight bytes at the cursor, most significant first.
pub fn read_u64(data: &[u8], pos: &mut usize) -> (r: Result<[u8; 8], JksError>)
    requires
        *old(pos) <= data@.len(),
    ensures
        match take(data@, *old(pos) as int, 8) {
            Ok((b, q)) => r matches Ok(a) && a@ == b && *final(pos) == q,
            Err(e) => r matches Err(x) && x@ == e && *final(pos) == *old(pos),
        },
{
    let p = *pos;
    if data.len() - p < 8 {
        return Err(JksError::ShortRead { needed: 8 });
    }
    let a = [
        data[p],
        data[p + 1],
        data[p + 2],
        data[p + 3],
        data[p + 4],
        data[p + 5],
        data[p + 6],
        data[p + 7],
    ];
    *pos = p + 8;
    assert(a@ =~= data@.subrange(p as int, p + 8));
    Ok(a)
}

/// The big-endian value of two bytes.
pub fn u16_of(a: [u8; 2]) -> (r: u16)
    ensures
        r as nat == be_value(a@),
{
    proof {
        lemma_be_value_bound(a@);
        reveal_with_fuel(pow256, 3);
    }
    be_int(a.as_slice()) as u16
}

/// The big-endian value of four bytes.
pub fn u32_of(a: [u8; 4]) -> (r: u32)
    ensures
        r as nat == be_value(a@),
{
    proof {
        lemma_be_value_bound(a@);
        reveal_with_fuel(pow256, 5);
    }
    be_int(a.as_slice()) as u32
}

/// A timestamp: eight big-endian bytes, milliseconds since the epoch.
pub fn read_timestamp(data: &[u8], pos: &mut usize) -> (r: Result<u64, JksError>)
    requires
        *old(pos) <= data@.len(),
    ensures
        match take_int(data@, *old(pos) as int, 8) {
            Ok((v, q)) => r matches Ok(t) && t as nat == v && *final(pos) == q,
            Err(e) => r matches Err(x) && x@ == e && *final(pos) == *old(pos),
        },
{
    let a = read_u64(data, pos)?;
    Ok(be_int(a.as_slice()))
}

/// Relies on `String::from_utf8`: it accepts exactly well-formed UTF-8 and
/// keeps the characters that the bytes encode.
#[verifier::external_body]
fn utf8_string(bytes: Vec<u8>) -> (r: Option<String>)
    ensures
        r is Some <==> valid_utf8(bytes@),
        r matches Some(s) ==> s@ == decode_utf8(bytes@),
{
    String::from_utf8(bytes).ok()
}

/// A string: a two-byte big-endian length, then that many bytes of UTF-8.
pub fn read_str(data: &[u8], pos: &mut usize) -> (r: Result<String, JksError>)
    requires
        *old(pos) <= data@.len(),
    ensures
        match take_str(data@, *old(pos) as int) {
            Ok((t, q)) => r matches Ok(s) && s@ == t && *final(pos) == q,
            Err(e) => r matches Err(x) && x@ == e,
        },
        *final(pos) <= data@.len(),
{
    let n = u16_of(read_u16(data, pos)?);
    let bytes = read_bytes(data, pos, n as usize)?;
    match utf8_string(bytes) {
        Some(s) => Ok(s),
        None => Err(JksError::InvalidEncoding),
    }
}


/// A certificate: its type, which must be `X.509`, a four-byte length, and
/// that many bytes of DER, handed to the DER decoder.
pub fn read_cert(data: &[u8], pos: &mut usize) -> (r: Result<Cert, JksError>)
    requires
        *old(pos) <= data@.len(),
    ensures
        match take_cert(data@, *old(pos) as int) {
            Ok((raw, q)) => r matches Ok(c) && c@ == raw && *final(pos) == q,
            Err(e) => r matches Err(x) && x@ == e,
        },
        *final(pos) <= data@.len(),
{
    let cert_type = read_str(data, pos)?;
    let x509 = "X.509".to_owned();
    if !(cert_type == x509) {
        return Err(JksError::UnsupportedCertificateType { cert_type });
    }
    let n = u32_of(read_u32(data, pos)?);
    let raw = read_bytes(data, pos, n as usize)?;
    match decode_der(&raw) {
        Ok(cert) => Ok(Cert { raw, cert }),
        Err(e) => Err(JksError::CertificateParseError(e)),
    }
}

} // verus!
