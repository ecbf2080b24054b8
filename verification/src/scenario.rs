//! Versioned, reproducible scenarios (`schema = 1`). Every random scenario
//! records its seed; its id is a deterministic hash of its canonical content.
use vstd::prelude::*;
use vstd::utf8::encode_utf8;
use vstd::wrapping::u64_specs::wrapping_mul;
use crate::text::{chars_of, decimal, extend_chars, hex_fixed, owned, slice_copy, string_of, u64_decimal, u64_hex_fixed};

verus! {

/// Scenario format version.
pub const SCHEMA: u32 = 1;

pub const FNV_OFFSET: u64 = 0xcbf29ce484222325;
pub const FNV_PRIME: u64 = 0x100000001b3;

/// FNV-1a 64 of `data` (byte by byte, from the offset basis).
pub open spec fn fnv(data: Seq<u8>) -> u64
    decreases data.len(),
{
    if data.len() == 0 {
        FNV_OFFSET
    } else {
        wrapping_mul(fnv(data.drop_last()) ^ (data.last() as u64), FNV_PRIME)
    }
}

/// FNV-1a 64 bits (stable across platforms and compilers).
pub fn fnv1a_64(data: &[u8]) -> (h: u64)
    ensures
        h == fnv(data@),
{
    let mut h: u64 = FNV_OFFSET;
    let mut i: usize = 0;
    while i < data.len()
        invariant
            i <= data@.len(),
            h == fnv(data@.subrange(0, i as int)),
        decreases data@.len() - i,
    {
        let b = data[i];
        h ^= b as u64;
        h = h.wrapping_mul(FNV_PRIME);
        assert(data@.subrange(0, i + 1).drop_last() =~= data@.subrange(0, i as int));
        i += 1;
    }
    assert(data@.subrange(0, data@.len() as int) =~= data@);
    h
}

/// First eight characters of a target name.
pub open spec fn short(t: Seq<char>) -> Seq<char> {
    if t.len() <= 8 { t } else { t.subrange(0, 8) }
}

pub fn short_target(t: &str) -> (r: String)
    ensures
        r@ == short(t@),
{
    let cs = chars_of(t);
    let n = if cs.len() <= 8 { cs.len() } else { 8 };
    let v = slice_copy(cs.as_slice(), 0, n);
    assert(cs@.len() <= 8 ==> cs@.subrange(0, n as int) =~= cs@);
    string_of(v.as_slice())
}

/// Canonical content hashed into the id: `target:seed:params`.
pub open spec fn canon(target: Seq<char>, seed: u64, params: Seq<char>) -> Seq<char> {
    target + seq![':'] + decimal(seed as nat) + seq![':'] + params
}

/// `"<short target>-<12 hex digits of the masked FNV-1a>"`.
pub open spec fn scenario_id_of(target: Seq<char>, seed: u64, params: Seq<char>) -> Seq<char> {
    short(target) + seq!['-'] + hex_fixed(
        (fnv(encode_utf8(canon(target, seed, params))) & 0xFFFF_FFFF_FFFFu64) as nat,
        12,
    )
}

/// A reproducible scenario. `params`/`environment` hold canonical JSON text
/// (stable key order), which is exactly what the id hashes.
#[derive(Debug, Clone, PartialEq, Eq)]
pub struct Scenario {
    pub schema: u32,
    pub scenario_id: String,
    pub target: String,
    pub api: String,
    pub seed: u64,
    pub params: String,
    pub environment: String,
}

impl Scenario {
    pub fn new(target: &str, api: &str, seed: u64, params: String, environment: String) -> (s: Scenario)
        ensures
            s.schema == SCHEMA,
            s.target@ == target@,
            s.api@ == api@,
            s.seed == seed,
            s.params@ == params@,
            s.environment@ == environment@,
            s.scenario_id@ == scenario_id_of(target@, seed, params@),
    {
        let id = compute_id(target, seed, params.as_str());
        Scenario {
            schema: SCHEMA,
            scenario_id: id,
            target: owned(target),
            api: owned(api),
            seed,
            params,
            environment,
        }
    }
}

/// Deterministic id of `(target, seed, params)`.
pub fn compute_id(target: &str, seed: u64, params: &str) -> (id: String)
    ensures
        id@ == scenario_id_of(target@, seed, params@),
{
    let mut c = chars_of(target);
    c.push(':');
    let d = u64_decimal(seed);
    extend_chars(&mut c, d.as_slice());
    c.push(':');
    let p = chars_of(params);
    extend_chars(&mut c, p.as_slice());
    assert(c@ =~= canon(target@, seed, params@));
    let canon_s = string_of(c.as_slice());
    let bytes = canon_s.as_str().as_bytes();
    let h = fnv1a_64(bytes) & 0xFFFF_FFFF_FFFFu64;
    let mut out = chars_of(short_target(target).as_str());
    out.push('-');
    let hx = u64_hex_fixed(h, 12);
    extend_chars(&mut out, hx.as_slice());
    string_of(out.as_slice())
}

} // verus!
