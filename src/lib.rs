//! Decoder for Java KeyStore (JKS) version 2 containers.

pub mod der;
pub mod error;
pub mod format;
pub mod lemmas;
pub mod read;
pub mod truncation;

pub use error::{ErrorModel, JksError};

use vstd::prelude::*;
use x509_certificate::certificate::X509Certificate;
use crate::format::{
    be_value, lemma_chain_err_stays, lemma_entries_err_stays, magic, store_of, take, take_cert_entry,
    take_chain, take_entries, take_entry, take_int, take_key_pair, take_store, take_str, CertModel,
    KeyPairModel, StoreModel,
};
use crate::read::{read_bytes, read_cert, read_str, read_timestamp, read_u32, u32_of};

verus! {

/// The bytes that every keystore starts with.
pub const MAGIC: [u8; 4] = [0xFE, 0xED, 0xFE, 0xED];

/// All entries of a keystore, each kind in the order of the input.
#[derive(Debug)]
pub struct Store {
    pub certs: Vec<CertInfo>,
    pub key_pairs: Vec<KeyPair>,
}

/// A trusted-certificate entry.
#[derive(Debug)]
pub struct CertInfo {
    pub alias: String,
    /// Milliseconds since the epoch.
    pub timestamp: u64,
    pub certificate: Cert,
}

/// A certificate: its DER bytes and what the DER decoder made of them.
#[derive(Debug)]
pub struct Cert {
    pub raw: Vec<u8>,
    pub cert: X509Certificate,
}

/// A private-key entry: the key stays encrypted.
#[derive(Debug)]
pub struct KeyPair {
    pub alias: String,
    /// Milliseconds since the epoch.
    pub timestamp: u64,
    pub encrypted_key: Vec<u8>,
    pub cert_chain: Vec<KeyPairCert>,
}

/// One certificate of a key pair's chain.
#[derive(Debug)]
pub struct KeyPairCert {
    pub raw: Vec<u8>,
    pub cert: X509Certificate,
}

impl View for Cert {
    type V = Seq<u8>;

    open spec fn view(&self) -> Seq<u8> {
        self.raw@
    }
}

impl View for KeyPairCert {
    type V = Seq<u8>;

    open spec fn view(&self) -> Seq<u8> {
        self.raw@
    }
}

impl View for CertInfo {
    type V = CertModel;

    open spec fn view(&self) -> CertModel {
        CertModel { alias: self.alias@, timestamp: self.timestamp, raw: self.certificate@ }
    }
}

impl View for KeyPair {
    type V = KeyPairModel;

    open spec fn view(&self) -> KeyPairModel {
        KeyPairModel {
            alias: self.alias@,
            timestamp: self.timestamp,
            encrypted_key: self.encrypted_key@,
            chain: self.cert_chain@.map_values(|c: KeyPairCert| c@),
        }
    }
}

impl View for Store {
    type V = StoreModel;

    open spec fn view(&self) -> StoreModel {
        StoreModel {
            certs: self.certs@.map_values(|c: CertInfo| c@),
            key_pairs: self.key_pairs@.map_values(|k: KeyPair| k@),
        }
    }
}


/// What the caller hands the decoder besides the bytes.
#[derive(Debug)]
pub struct Options {
    /// The password of every key pair that has none of its own.
    pub password: String,
    /// Whether a caller that checks signatures or trust should skip that.
    pub skip_verify: bool,
    /// Passwords of particular key pairs, as (alias, password); the first
    /// pair with a given alias counts.
    pub key_passwords: Vec<(String, String)>,
}

/// The password for `alias` among `entries[i..]`, else `default`.
pub open spec fn password_from(
    entries: Seq<(String, String)>,
    i: int,
    default: Seq<char>,
    alias: Seq<char>,
) -> Seq<char>
    decreases entries.len() - i,
{
    if i < 0 || i >= entries.len() {
        default
    } else if entries[i].0@ == alias {
        entries[i].1@
    } else {
        password_from(entries, i + 1, default, alias)
    }
}

impl Options {
    /// The password for the key pair `alias`: its own if it has one, else the default.
    pub open spec fn password_for(&self, alias: Seq<char>) -> Seq<char> {
        password_from(self.key_passwords@, 0, self.password@, alias)
    }

    /// The password with which to decrypt the key of the key pair `alias`.
    pub fn resolve_password(&self, alias: &str) -> (r: String)
        ensures
            r@ == self.password_for(alias@),
    {
        let wanted = alias.to_owned();
        let mut i: usize = 0;
        while i < self.key_passwords.len()
            invariant
                i <= self.key_passwords@.len(),
                wanted@ == alias@,
                password_from(self.key_passwords@, 0, self.password@, alias@) == password_from(
                    self.key_passwords@,
                    i as int,
                    self.password@,
                    alias@,
                ),
            decreases self.key_passwords@.len() - i,
        {
            if self.key_passwords[i].0 == wanted {
                return self.key_passwords[i].1.clone();
            }
            i = i + 1;
        }
        self.password.clone()
    }
}

impl Default for Options {
    fn default() -> (r: Options)
        ensures
            r.password@ == "changeit"@,
            !r.skip_verify,
            r.key_passwords@.len() == 0,
    {
        Options { password: "changeit".to_owned(), skip_verify: false, key_passwords: Vec::new() }
    }
}

/// The keystore versions that the decoder knows of.
#[derive(PartialEq, Eq, Structural)]
enum Version {
    Unsupported,
    V2,
}

impl Version {
    fn from_bytes(value: [u8; 4]) -> (r: Version)
        ensures
            r == (if be_value(value@) == 2 { Version::V2 } else { Version::Unsupported }),
    {
        if u32_of(value) == 2 {
            Version::V2
        } else {
            Version::Unsupported
        }
    }
}

/// The two kinds of entry, told apart by a four-byte tag.
#[derive(PartialEq, Eq, Structural)]
enum EntryType {
    KeyPair,
    Certs,
}

impl EntryType {
    /// The kind that a tag selects: 1 for a key pair, 2 for a certificate.
    fn from_tag(tag: u32) -> (r: Result<EntryType, JksError>)
        ensures
            tag == 1 ==> r == Ok::<EntryType, JksError>(EntryType::KeyPair),
            tag == 2 ==> r == Ok::<EntryType, JksError>(EntryType::Certs),
            tag != 1 && tag != 2 ==> (r matches Err(e) && e@ == (ErrorModel::InvalidEntryType { tag })),
    {
        match tag {
            1 => Ok(EntryType::KeyPair),
            2 => Ok(EntryType::Certs),
            _ => Err(JksError::InvalidEntryType { tag }),
        }
    }
}

/// A certificate entry, after its tag.
fn process_cert(data: &[u8], pos: &mut usize) -> (r: Result<CertInfo, JksError>)
    requires
        *old(pos) <= data@.len(),
    ensures
        match take_cert_entry(data@, *old(pos) as int) {
            Ok((c, q)) => r matches Ok(x) && x@ == c && *final(pos) == q,
            Err(e) => r matches Err(x) && x@ == e,
        },
        *final(pos) <= data@.len(),
{
    let alias = read_str(data, pos)?;
    let timestamp = read_timestamp(data, pos)?;
    let certificate = read_cert(data, pos)?;
    Ok(CertInfo { alias, timestamp, certificate })
}

/// A key-pair entry, after its tag.
fn process_key_pair(data: &[u8], pos: &mut usize) -> (r: Result<KeyPair, JksError>)
    requires
        *old(pos) <= data@.len(),
    ensures
        match take_key_pair(data@, *old(pos) as int) {
            Ok((k, q)) => r matches Ok(x) && x@ == k && *final(pos) == q,
            Err(e) => r matches Err(x) && x@ == e,
        },
        *final(pos) <= data@.len(),
{
    let ghost entry_pos = *pos as int;
    let alias = read_str(data, pos)?;
    let ghost after_alias = *pos as int;
    let timestamp = read_timestamp(data, pos)?;
    let ghost after_time = *pos as int;
    let enc_key_len = u32_of(read_u32(data, pos)?);
    let ghost after_len = *pos as int;
    let enc_key = read_bytes(data, pos, enc_key_len as usize)?;
    let ghost after_key = *pos as int;
    let count = u32_of(read_u32(data, pos)?);
    let ghost d = data@;
    let ghost start = *pos as int;
    assert(take_str(d, entry_pos) == Ok::<(Seq<char>, int), ErrorModel>((alias@, after_alias)));
    assert(take_int(d, after_alias, 8) == Ok::<(nat, int), ErrorModel>((timestamp as nat, after_time)));
    assert(take_int(d, after_time, 4) == Ok::<(nat, int), ErrorModel>((enc_key_len as nat, after_len)));
    assert(take(d, after_len, enc_key_len as nat) == Ok::<(Seq<u8>, int), ErrorModel>((enc_key@, after_key)));
    assert(take_int(d, after_key, 4) == Ok::<(nat, int), ErrorModel>((count as nat, start)));
    let ghost whole = take_key_pair(d, entry_pos);
    assert(whole == match take_chain(d, start, count as nat) {
        Ok((chain, v)) => Ok((
            KeyPairModel { alias: alias@, timestamp, encrypted_key: enc_key@, chain },
            v,
        )),
        Err(e) => Err(e),
    });
    let mut cert_chain: Vec<KeyPairCert> = Vec::new();
    assert(cert_chain@.map_values(|c: KeyPairCert| c@) =~= Seq::<Seq<u8>>::empty());
    let mut i: u32 = 0;
    while i < count
        invariant
            *pos <= d.len(),
            d == data@,
            i <= count,
            whole == take_key_pair(d, entry_pos),
            entry_pos == *old(pos) as int,
            whole == match take_chain(d, start, count as nat) {
                Ok((chain, v)) => Ok((
                    KeyPairModel { alias: alias@, timestamp, encrypted_key: enc_key@, chain },
                    v,
                )),
                Err(e) => Err(e),
            },
            take_chain(d, start, i as nat) == Ok::<(Seq<Seq<u8>>, int), ErrorModel>(
                (cert_chain@.map_values(|c: KeyPairCert| c@), *pos as int),
            ),
        decreases count - i,
    {
        let ghost before = cert_chain@;
        let cert = match read_cert(data, pos) {
            Ok(c) => c,
            Err(e) => {
                proof {
                    assert(take_chain(d, start, (i + 1) as nat) == Err::<(Seq<Seq<u8>>, int), ErrorModel>(e@));
                    lemma_chain_err_stays(d, start, (i + 1) as nat, count as nat);
                    assert(whole == Err::<(KeyPairModel, int), ErrorModel>(e@));
                }
                return Err(e);
            },
        };
        cert_chain.push(KeyPairCert { raw: cert.raw, cert: cert.cert });
        assert(cert_chain@.map_values(|c: KeyPairCert| c@) =~= before.map_values(
            |c: KeyPairCert| c@,
        ).push(cert_chain@.last()@));
        i = i + 1;
    }
    Ok(KeyPair { alias, timestamp, encrypted_key: enc_key, cert_chain })
}

impl Store {
    /// Decodes a whole keystore from `data`.
    ///
    /// Decoding needs no password: a key pair's key is kept encrypted, and
    /// [`Options::resolve_password`] names the password to decrypt it with.
    pub fn parse(data: &[u8], opts: Option<Options>) -> (r: Result<Store, JksError>)
        ensures
            match store_of(data@) {
                Ok(s) => r matches Ok(x) && x@ == s,
                Err(e) => r matches Err(x) && x@ == e,
            },
    {
        let _ = opts;
        let ghost d = data@;
        let mut pos: usize = 0;
        let magic_bytes = read_u32(data, &mut pos)?;
        if !(magic_bytes[0] == MAGIC[0] && magic_bytes[1] == MAGIC[1] && magic_bytes[2] == MAGIC[2]
            && magic_bytes[3] == MAGIC[3]) {
            proof {
                assert(magic_bytes@ != magic()) by {
                    assert(magic()[0] == 0xFE && magic()[1] == 0xED && magic()[2] == 0xFE && magic()[3] == 0xED);
                }
            }
            return Err(JksError::InvalidFormat { expected: MAGIC, actual: magic_bytes });
        }
        assert(magic_bytes@ =~= magic());
        let version = read_u32(data, &mut pos)?;
        if Version::from_bytes(version) == Version::Unsupported {
            return Err(JksError::UnsupportedVersion { version: u32_of(version) });
        }
        let count = u32_of(read_u32(data, &mut pos)?);
        let ghost start = pos as int;
        let mut certs: Vec<CertInfo> = Vec::new();
        let mut key_pairs: Vec<KeyPair> = Vec::new();
        assert(certs@.map_values(|c: CertInfo| c@) =~= Seq::<CertModel>::empty());
        assert(key_pairs@.map_values(|k: KeyPair| k@) =~= Seq::<KeyPairModel>::empty());
        let mut i: u32 = 0;
        while i < count
            invariant
                pos <= d.len(),
                d == data@,
                i <= count,
                take_store(d) == take_entries(d, start, count as nat),
                take_entries(d, start, i as nat) == Ok::<(StoreModel, int), ErrorModel>(
                    (
                        (Store { certs, key_pairs })@,
                        pos as int,
                    ),
                ),
            decreases count - i,
        {
            let ghost before = (Store { certs, key_pairs })@;
            let ghost entry_pos = pos as int;
            let tag = match read_u32(data, &mut pos) {
                Ok(t) => u32_of(t),
                Err(e) => {
                    proof {
                        lemma_entries_err_stays(d, start, (i + 1) as nat, count as nat);
                    }
                    return Err(e);
                },
            };
            let kind = match EntryType::from_tag(tag) {
                Ok(k) => k,
                Err(e) => {
                    proof {
                        lemma_entries_err_stays(d, start, (i + 1) as nat, count as nat);
                    }
                    return Err(e);
                },
            };
            match kind {
                EntryType::KeyPair => match process_key_pair(data, &mut pos) {
                    Ok(k) => {
                        key_pairs.push(k);
                    },
                    Err(e) => {
                        proof {
                            lemma_entries_err_stays(d, start, (i + 1) as nat, count as nat);
                        }
                        return Err(e);
                    },
                },
                EntryType::Certs => match process_cert(data, &mut pos) {
                    Ok(c) => {
                        certs.push(c);
                    },
                    Err(e) => {
                        proof {
                            lemma_entries_err_stays(d, start, (i + 1) as nat, count as nat);
                        }
                        return Err(e);
                    },
                },
            }
            proof {
                let after = (Store { certs, key_pairs })@;
                assert(take_entries(d, start, (i + 1) as nat) == take_entry(d, entry_pos, before));
                if tag == 1 {
                    assert(after.key_pairs =~= before.key_pairs.push(key_pairs@.last()@));
                    assert(after.certs =~= before.certs);
                } else {
                    assert(after.certs =~= before.certs.push(certs@.last()@));
                    assert(after.key_pairs =~= before.key_pairs);
                }
            }
            i = i + 1;
        }
        Ok(Store { certs, key_pairs })
    }
}

} // verus!
