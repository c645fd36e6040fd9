//! Cutting a buffer short: every reader of the format model either reads the
//! same from the shorter buffer or stops there with a short read.

use vstd::prelude::*;
use crate::error::ErrorModel;
use crate::format::{
    store_of, take, take_cert, take_cert_entry, take_chain, take_entries, take_entry, take_int,
    take_key_pair, take_store, take_str, StoreModel,
};

verus! {

/// Whether decoding stopped because the buffer ran out.
pub open spec fn is_short<T>(r: Result<T, ErrorModel>) -> bool {
    r matches Err(ErrorModel::ShortRead { .. })
}

proof fn lemma_take(d: Seq<u8>, p: int, n: nat, k: int)
    requires
        0 <= p,
        0 <= k <= d.len(),
    ensures
        take(d, p, n) matches Ok((v, q)) ==> q >= p && (if q <= k {
            take(d.subrange(0, k), p, n) == take(d, p, n)
        } else {
            is_short(take(d.subrange(0, k), p, n))
        }),
{
    if p + n <= k {
        assert(d.subrange(0, k).subrange(p, p + n) =~= d.subrange(p, p + n));
    }
}

proof fn lemma_take_int(d: Seq<u8>, p: int, n: nat, k: int)
    requires
        0 <= p,
        0 <= k <= d.len(),
    ensures
        take_int(d, p, n) matches Ok((v, q)) ==> q >= p && (if q <= k {
            take_int(d.subrange(0, k), p, n) == take_int(d, p, n)
        } else {
            is_short(take_int(d.subrange(0, k), p, n))
        }),
{
    lemma_take(d, p, n, k);
}

proof fn lemma_take_str(d: Seq<u8>, p: int, k: int)
    requires
        0 <= p,
        0 <= k <= d.len(),
    ensures
        take_str(d, p) matches Ok((v, q)) ==> q >= p && (if q <= k {
            take_str(d.subrange(0, k), p) == take_str(d, p)
        } else {
            is_short(take_str(d.subrange(0, k), p))
        }),
{
    lemma_take_int(d, p, 2, k);
    match take_int(d, p, 2) {
        Ok((n, q)) => {
            lemma_take(d, q, n, k);
        },
        Err(_) => {},
    }
}

proof fn lemma_take_cert(d: Seq<u8>, p: int, k: int)
    requires
        0 <= p,
        0 <= k <= d.len(),
    ensures
        take_cert(d, p) matches Ok((v, q)) ==> q >= p && (if q <= k {
            take_cert(d.subrange(0, k), p) == take_cert(d, p)
        } else {
            is_short(take_cert(d.subrange(0, k), p))
        }),
{
    lemma_take_str(d, p, k);
    match take_str(d, p) {
        Ok((t, q)) => {
            lemma_take_int(d, q, 4, k);
            match take_int(d, q, 4) {
                Ok((n, r)) => {
                    lemma_take(d, r, n, k);
                },
                Err(_) => {},
            }
        },
        Err(_) => {},
    }
}

proof fn lemma_take_cert_entry(d: Seq<u8>, p: int, k: int)
    requires
        0 <= p,
        0 <= k <= d.len(),
    ensures
        take_cert_entry(d, p) matches Ok((v, q)) ==> q >= p && (if q <= k {
            take_cert_entry(d.subrange(0, k), p) == take_cert_entry(d, p)
        } else {
            is_short(take_cert_entry(d.subrange(0, k), p))
        }),
{
    lemma_take_str(d, p, k);
    match take_str(d, p) {
        Ok((a, q)) => {
            lemma_take_int(d, q, 8, k);
            match take_int(d, q, 8) {
                Ok((ts, r)) => {
                    lemma_take_cert(d, r, k);
                },
                Err(_) => {},
            }
        },
        Err(_) => {},
    }
}

proof fn lemma_take_chain(d: Seq<u8>, p: int, n: nat, k: int)
    requires
        0 <= p,
        0 <= k <= d.len(),
    ensures
        take_chain(d, p, n) matches Ok((v, q)) ==> q >= p && (if q <= k {
            take_chain(d.subrange(0, k), p, n) == take_chain(d, p, n)
        } else {
            p <= k ==> is_short(take_chain(d.subrange(0, k), p, n))
        }),
    decreases n,
{
    if n > 0 {
        lemma_take_chain(d, p, (n - 1) as nat, k);
        match take_chain(d, p, (n - 1) as nat) {
            Ok((c, q)) => {
                lemma_take_cert(d, q, k);
            },
            Err(_) => {},
        }
    }
}

proof fn lemma_take_key_pair(d: Seq<u8>, p: int, k: int)
    requires
        0 <= p,
        0 <= k <= d.len(),
    ensures
        take_key_pair(d, p) matches Ok((v, q)) ==> q >= p && (if q <= k {
            take_key_pair(d.subrange(0, k), p) == take_key_pair(d, p)
        } else {
            is_short(take_key_pair(d.subrange(0, k), p))
        }),
{
    lemma_take_str(d, p, k);
    match take_str(d, p) {
        Ok((a, q)) => {
            lemma_take_int(d, q, 8, k);
            match take_int(d, q, 8) {
                Ok((ts, r)) => {
                    lemma_take_int(d, r, 4, k);
                    match take_int(d, r, 4) {
                        Ok((n, s)) => {
                            lemma_take(d, s, n, k);
                            match take(d, s, n) {
                                Ok((key, t)) => {
                                    lemma_take_int(d, t, 4, k);
                                    match take_int(d, t, 4) {
                                        Ok((m, u)) => {
                                            lemma_take_chain(d, u, m, k);
                                        },
                                        Err(_) => {},
                                    }
                                },
                                Err(_) => {},
                            }
                        },
                        Err(_) => {},
                    }
                },
                Err(_) => {},
            }
        },
        Err(_) => {},
    }
}

proof fn lemma_take_entry(d: Seq<u8>, p: int, s: StoreModel, k: int)
    requires
        0 <= p,
        0 <= k <= d.len(),
    ensures
        take_entry(d, p, s) matches Ok((v, q)) ==> q >= p && (if q <= k {
            take_entry(d.subrange(0, k), p, s) == take_entry(d, p, s)
        } else {
            is_short(take_entry(d.subrange(0, k), p, s))
        }),
{
    lemma_take_int(d, p, 4, k);
    match take_int(d, p, 4) {
        Ok((tag, q)) => {
            lemma_take_key_pair(d, q, k);
            lemma_take_cert_entry(d, q, k);
        },
        Err(_) => {},
    }
}

proof fn lemma_take_entries(d: Seq<u8>, p: int, n: nat, k: int)
    requires
        0 <= p,
        0 <= k <= d.len(),
    ensures
        take_entries(d, p, n) matches Ok((v, q)) ==> q >= p && (if q <= k {
            take_entries(d.subrange(0, k), p, n) == take_entries(d, p, n)
        } else {
            p <= k ==> is_short(take_entries(d.subrange(0, k), p, n))
        }),
    decreases n,
{
    if n > 0 {
        lemma_take_entries(d, p, (n - 1) as nat, k);
        match take_entries(d, p, (n - 1) as nat) {
            Ok((s, q)) => {
                lemma_take_entry(d, q, s, k);
            },
            Err(_) => {},
        }
    }
}

/// Cutting a keystore that decodes anywhere before the end of its last entry
/// (so that some field is left incomplete) makes decoding fail with a short
/// read, never with a wrong value.
pub proof fn lemma_truncated_store_short_read(d: Seq<u8>, k: int)
    requires
        take_store(d) matches Ok((_, e)) && 0 <= k < e,
    ensures
        store_of(d.subrange(0, k)) matches Err(ErrorModel::ShortRead { .. }),
{
    let e = take_store(d)->Ok_0.1;
    assert(e <= d.len()) by {
        lemma_take_entries(d, 12, take_int(d, 8, 4)->Ok_0.0, d.len() as int);
    }
    lemma_take(d, 0, 4, k);
    lemma_take_int(d, 4, 4, k);
    lemma_take_int(d, 8, 4, k);
    lemma_take_entries(d, 12, take_int(d, 8, 4)->Ok_0.0, k);
}

} // verus!
