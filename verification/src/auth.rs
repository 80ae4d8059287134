//! Who a caller is, by the headers of a request.

use sha2::Digest;
use vstd::prelude::*;
use vstd::utf8::encode_utf8;

use crate::codec::{hashable, hex_bytes, hex_of};
use crate::digits::{hex, padded, to_hex_padded};
use crate::text::{opt_text, owned};

verus! {

/// The header that carries an API key.
pub const HEADER_API_KEY: &'static str = "x-api-key";

/// The header that carries a tenant.
pub const HEADER_TENANT_ID: &'static str = "x-tenant-id";

/// The headers of a request that say who a caller is, each where it is there
/// and is visible ASCII text.
#[derive(Debug)]
pub struct CallerHeaders {
    pub api_key: Option<String>,
    pub tenant_id: Option<String>,
}

/// The hash after one more byte: exclusive or, then a product modulo two to the
/// 64.
pub open spec fn fnv_step(hash: u64, b: u8) -> u64 {
    ((hash ^ (b as u64)) as int * 1099511628211 % 0x1_0000_0000_0000_0000) as u64
}

/// The 64-bit FNV-1a hash of some bytes, from this library's own start value.
pub open spec fn fnv_of(b: Seq<u8>) -> u64
    decreases b.len(),
{
    if b.len() == 0 {
        1469598103934665603
    } else {
        fnv_step(fnv_of(b.drop_last()), b.last())
    }
}

/// A hash of a text that is the same on every machine.
pub fn fnv1a64(value: &str) -> (r: u64)
    ensures
        r == fnv_of(vstd::utf8::encode_utf8(value@)),
{
    let bytes = value.as_bytes();
    let mut hash: u64 = 1469598103934665603;
    let mut i: usize = 0;
    assert(bytes@.take(0) =~= Seq::empty());
    while i < bytes.len()
        invariant
            i <= bytes@.len(),
            hash == fnv_of(bytes@.take(i as int)),
        decreases bytes@.len() - i,
    {
        let b: u8 = bytes[i];
        let mixed: u64 = hash ^ (b as u64);
        assert(bytes@.take(i + 1).drop_last() =~= bytes@.take(i as int));
        hash = mixed.wrapping_mul(1099511628211);
        i += 1;
    }
    assert(bytes@.take(i as int) =~= bytes@);
    hash
}

/// The SHA-256 of some bytes.
pub uninterp spec fn sha256_of(bytes: Seq<u8>) -> Seq<u8>;

/// `sha2::Sha256::digest`: 32 bytes that depend on the argument alone. The
/// length is counted in bits in 64 bits, so the argument fits that.
#[verifier::external_body]
fn sha256_bytes(bytes: &[u8]) -> (r: Vec<u8>)
    requires
        hashable(bytes@),
    ensures
        r@ == sha256_of(bytes@),
        r@.len() == 32,
{
    sha2::Sha256::digest(bytes).to_vec()
}

/// The SHA-256 of a text, in hexadecimal.
pub open spec fn strong_hash(value: Seq<char>) -> Seq<char> {
    hex_of(sha256_of(encode_utf8(value)))
}

/// A hash of a text that nobody can turn around: its SHA-256, in hexadecimal.
pub fn strong_hash_hex(value: &str) -> (r: String)
    requires
        hashable(encode_utf8(value@)),
    ensures
        r@ == strong_hash(value@),
        r@.len() == 64,
{
    let bytes = sha256_bytes(value.as_bytes());
    proof {
        crate::codec::hex_doubles_the_length(bytes@);
    }
    hex_bytes(bytes.as_slice())
}

/// The key of a caller whom nobody vouches for.
pub open spec fn caller_key(tenant_id: Option<Seq<char>>, api_key: Option<Seq<char>>) -> Seq<char> {
    match tenant_id {
        Some(t) => "tenant:"@ + t,
        None => match api_key {
            Some(k) => "api-key:"@ + padded(hex(fnv_of(vstd::utf8::encode_utf8(k)) as nat), 16),
            None => "public"@,
        },
    }
}

/// The key of a caller whom nobody vouches for: by the tenant, else by a hash
/// of the API key, else the public one.
pub fn principal_key_from_headers(headers: &CallerHeaders) -> (r: String)
    ensures
        r@ == caller_key(opt_text(headers.tenant_id), opt_text(headers.api_key)),
{
    match &headers.tenant_id {
        Some(t) => {
            let mut out = owned("tenant:");
            out.push_str(t.as_str());
            return out;
        },
        None => {},
    }
    match &headers.api_key {
        Some(k) => {
            let mut out = owned("api-key:");
            out.push_str(to_hex_padded(fnv1a64(k.as_str()), 16).as_str());
            out
        },
        None => owned("public"),
    }
}

/// A caller is known by its tenant where it names one, else by its key, else as
/// the public.
pub proof fn callers_are_known_by_their_tenant(tenant_id: Option<Seq<char>>, api_key: Option<Seq<char>>)
    ensures
        tenant_id is Some ==> caller_key(tenant_id, api_key) == "tenant:"@ + tenant_id->0,
        tenant_id is None && api_key is None ==> caller_key(tenant_id, api_key) == "public"@,
        tenant_id is None && api_key is Some ==> {
            let key = caller_key(tenant_id, api_key);
            &&& key.len() >= 8 + 16
            &&& key.take(8) == "api-key:"@
        },
{
    if tenant_id is None && api_key is Some {
        reveal_strlit("api-key:");
        assert("api-key:"@.len() == 8);
        let digits = hex(fnv_of(vstd::utf8::encode_utf8(api_key->0)) as nat);
        assert(caller_key(tenant_id, api_key).take(8) =~= "api-key:"@);
    }
}

/// The number of a text begins at the offset basis, and each byte multiplies
/// what it changed by the prime.
pub proof fn each_byte_is_mixed_in(b: Seq<u8>, next: u8)
    ensures
        fnv_of(Seq::empty()) == 1469598103934665603,
        fnv_of(b.push(next)) as int == ((fnv_of(b) ^ (next as u64)) as int * 1099511628211)
            % 0x1_0000_0000_0000_0000,
{
    assert(b.push(next).drop_last() =~= b);
}

} // verus!
