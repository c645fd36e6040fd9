//! Laws of the decoder, stated over the format model and proved.

use vstd::prelude::*;
use crate::error::ErrorModel;
use crate::format::{
    be_value, lemma_entries_err_stays, magic, store_of, take_cert, take_entries, take_str,
    CertModel, KeyPairModel, StoreModel,
};
use crate::{password_from, Options};

verus! {

/// A buffer shorter than eight bytes never decodes: it fails with a wrong
/// magic number or a short read.
pub proof fn lemma_short_buffer_fails(d: Seq<u8>)
    requires
        d.len() < 8,
    ensures
        store_of(d) matches Err(e) && (e is InvalidFormat || e is ShortRead),
{
}

/// Magic, version 2 and an entry count of zero decode to a store with no
/// entries, whatever follows.
pub proof fn lemma_no_entries(d: Seq<u8>)
    requires
        d.len() >= 12,
        d.subrange(0, 4) == magic(),
        be_value(d.subrange(4, 8)) == 2,
        be_value(d.subrange(8, 12)) == 0,
    ensures
        store_of(d) == Ok::<StoreModel, ErrorModel>(
            StoreModel { certs: Seq::<CertModel>::empty(), key_pairs: Seq::<KeyPairModel>::empty() },
        ),
{
}

/// After a valid header with at least one entry, a first entry tag of 3
/// fails the decode with that tag, whatever follows.
pub proof fn lemma_tag_three_fails(d: Seq<u8>)
    requires
        d.len() >= 16,
        d.subrange(0, 4) == magic(),
        be_value(d.subrange(4, 8)) == 2,
        be_value(d.subrange(8, 12)) >= 1,
        be_value(d.subrange(12, 16)) == 3,
    ensures
        store_of(d) == Err::<StoreModel, ErrorModel>(ErrorModel::InvalidEntryType { tag: 3 }),
{
    let n = be_value(d.subrange(8, 12));
    assert(take_entries(d, 12, 0) matches Ok((_, q)) && q == 12);
    assert(take_entries(d, 12, 1) == Err::<(StoreModel, int), ErrorModel>(
        ErrorModel::InvalidEntryType { tag: 3 },
    ));
    lemma_entries_err_stays(d, 12, 1, n);
}

/// A certificate whose type is anything but `X.509` fails with that type,
/// before its length or its DER bytes are looked at.
pub proof fn lemma_other_cert_type_fails(d: Seq<u8>, p: int)
    requires
        take_str(d, p) matches Ok((t, _)) && t != "X.509"@,
    ensures
        take_cert(d, p) == Err::<(Seq<u8>, int), ErrorModel>(
            ErrorModel::UnsupportedCertificateType { cert_type: take_str(d, p)->Ok_0.0 },
        ),
{
}

/// Decoding is a function of the bytes: equal buffers decode to equal stores,
/// entry for entry, or to the same error.
pub proof fn lemma_decode_deterministic(a: Seq<u8>, b: Seq<u8>)
    requires
        a == b,
    ensures
        store_of(a) == store_of(b),
{
}

/// The password for `alias` is the one given with the first entry for `alias`,
/// or the default where no entry is for `alias`.
pub proof fn lemma_resolved_password(opts: Options, alias: Seq<char>)
    ensures
        (forall|i: int| 0 <= i < opts.key_passwords@.len() ==> opts.key_passwords@[i].0@ != alias)
            ==> opts.password_for(alias) == opts.password@,
        forall|j: int|
            0 <= j < opts.key_passwords@.len() && opts.key_passwords@[j].0@ == alias && (forall|
                i: int,
            | 0 <= i < j ==> opts.key_passwords@[i].0@ != alias) ==> opts.password_for(alias)
                == opts.key_passwords@[j].1@,
{
    let kp = opts.key_passwords@;
    lemma_password_from(kp, 0, opts.password@, alias);
}

proof fn lemma_password_from(kp: Seq<(String, String)>, i: int, default: Seq<char>, alias: Seq<char>)
    requires
        0 <= i <= kp.len(),
    ensures
        (forall|m: int| i <= m < kp.len() ==> kp[m].0@ != alias) ==> password_from(
            kp,
            i,
            default,
            alias,
        ) == default,
        forall|j: int|
            i <= j < kp.len() && kp[j].0@ == alias && (forall|m: int| i <= m < j ==> kp[m].0@ != alias)
                ==> password_from(kp, i, default, alias) == kp[j].1@,
    decreases kp.len() - i,
{
    if i < kp.len() {
        lemma_password_from(kp, i + 1, default, alias);
        assert forall|j: int|
            i <= j < kp.len() && kp[j].0@ == alias && (forall|m: int| i <= m < j ==> kp[m].0@ != alias)
                implies password_from(kp, i, default, alias) == kp[j].1@ by {
            if j > i {
                assert(kp[i].0@ != alias);
            }
        }
    }
}

} // verus!
