//! Roster identifiers and reservation names.
//!
//! A roster's id is content-addressed: the founder's encoded identity is
//! hashed into a namespace, and the title is hashed within that namespace.
use vstd::prelude::*;

use crate::types::{AccountId, ReservedCurrencyReason, RosterId};

verus! {

/// The MD5 digest of `data`, read as a big-endian number.
pub uninterp spec fn md5_of(data: Seq<u8>) -> u128;

/// The name-based (MD5, version 3) UUID of `name` within `namespace`, both
/// read as big-endian numbers.
pub uninterp spec fn uuid_v3_of(namespace: u128, name: Seq<u8>) -> u128;

/// The SCALE encoding of an account identity: its eight bytes, low byte first.
pub open spec fn account_bytes(a: AccountId) -> Seq<u8> {
    Seq::new(8, |i: int| ((a >> ((8 * i) as u64)) & 0xff) as u8)
}

/// The sixteen bytes of an identifier, high byte first.
pub open spec fn id_bytes(x: u128) -> Seq<u8> {
    Seq::new(16, |i: int| ((x >> ((8 * (15 - i)) as u128)) & 0xff) as u8)
}

/// The identifier of the roster that `founder` creates under `title`.
pub open spec fn roster_id_of(founder: AccountId, title: Seq<u8>) -> RosterId {
    RosterId(uuid_v3_of(md5_of(account_bytes(founder)), title))
}

/// The name of the reservation kept for `reason`: a three-byte tag of its
/// kind, the engine's eight-byte id, then the roster id, or the first half of
/// the roster id and the counterparty's encoding.
pub open spec fn currency_name(pallet_id: Seq<u8>, reason: ReservedCurrencyReason) -> Seq<u8> {
    match reason {
        ReservedCurrencyReason::NewRoster(id) => seq![0u8, 0u8, 1u8] + pallet_id + id_bytes(id.0),
        ReservedCurrencyReason::NewNomination(id, nominee) => seq![0u8, 0u8, 2u8] + pallet_id
            + id_bytes(id.0).take(8) + account_bytes(nominee),
        ReservedCurrencyReason::MembershipDues(id) => seq![0u8, 0u8, 3u8] + pallet_id + id_bytes(
            id.0,
        ),
        ReservedCurrencyReason::NewExpulsionProposal(id, subject) => seq![0u8, 0u8, 4u8]
            + pallet_id + id_bytes(id.0).take(8) + account_bytes(subject),
    }
}

/// Relies on `md5::compute`: the digest depends on the bytes alone.
#[verifier::external_body]
fn md5_digest(data: &Vec<u8>) -> (r: u128)
    ensures
        r == md5_of(data@),
{
    u128::from_be_bytes(md5::compute(data).0)
}

/// Relies on `uuid::Uuid::new_v3`: the UUID depends on the namespace and the
/// name alone.
#[verifier::external_body]
fn uuid_v3(namespace: u128, name: &Vec<u8>) -> (r: u128)
    ensures
        r == uuid_v3_of(namespace, name@),
{
    uuid::Uuid::new_v3(&uuid::Uuid::from_u128(namespace), name).as_u128()
}

/// Relies on `parity_scale_codec::Encode` for `u64`, which writes the eight
/// little-endian bytes.
#[verifier::external_body]
fn encode_account(a: AccountId) -> (r: Vec<u8>)
    ensures
        r@ == account_bytes(a),
{
    parity_scale_codec::Encode::encode(&a)
}

/// The bytes of an identifier, high byte first.
pub fn roster_id_bytes(id: RosterId) -> (r: Vec<u8>)
    ensures
        r@ == id_bytes(id.0),
{
    let mut out: Vec<u8> = Vec::new();
    let mut i: u32 = 0;
    while i < 16
        invariant
            i <= 16,
            out@ =~= id_bytes(id.0).take(i as int),
        decreases 16 - i,
    {
        let b = ((id.0 >> (8 * (15 - i))) & 0xff) as u8;
        out.push(b);
        i = i + 1;
    }
    assert(id_bytes(id.0).take(16) =~= id_bytes(id.0));
    out
}

impl RosterId {
    /// The identifier of the roster that `founder` creates under `title`.
    pub fn from_tuple(founder: AccountId, title: &Vec<u8>) -> (r: RosterId)
        ensures
            r == roster_id_of(founder, title@),
    {
        let encoded = encode_account(founder);
        let namespace = md5_digest(&encoded);
        RosterId(uuid_v3(namespace, title))
    }
}

/// The name of the reservation kept for `reason`.
pub fn reserved_currency_name(pallet_id: &[u8; 8], reason: ReservedCurrencyReason) -> (r: Vec<u8>)
    ensures
        r@ == currency_name(pallet_id@, reason),
        r@.len() == 27,
{
    let mut name: Vec<u8> = Vec::new();
    let tag: u8 = match reason {
        ReservedCurrencyReason::NewRoster(_) => 1,
        ReservedCurrencyReason::NewNomination(_, _) => 2,
        ReservedCurrencyReason::MembershipDues(_) => 3,
        ReservedCurrencyReason::NewExpulsionProposal(_, _) => 4,
    };
    name.push(0);
    name.push(0);
    name.push(tag);
    let mut i: usize = 0;
    while i < 8
        invariant
            i <= 8,
            name@ =~= seq![0u8, 0u8, tag] + pallet_id@.take(i as int),
        decreases 8 - i,
    {
        name.push(pallet_id[i]);
        i = i + 1;
    }
    assert(pallet_id@.take(8) =~= pallet_id@);
    let ghost head = name@;
    match reason {
        ReservedCurrencyReason::NewRoster(id) | ReservedCurrencyReason::MembershipDues(id) => {
            let mut bytes = roster_id_bytes(id);
            name.append(&mut bytes);
        },
        ReservedCurrencyReason::NewNomination(id, who)
        | ReservedCurrencyReason::NewExpulsionProposal(id, who) => {
            let bytes = roster_id_bytes(id);
            let mut j: usize = 0;
            while j < 8
                invariant
                    j <= 8,
                    bytes@ == id_bytes(id.0),
                    name@ =~= head + id_bytes(id.0).take(j as int),
                decreases 8 - j,
            {
                name.push(bytes[j]);
                j = j + 1;
            }
            let mut encoded = encode_account(who);
            name.append(&mut encoded);
        },
    }
    assert(name@ =~= currency_name(pallet_id@, reason));
    name
}

} // verus!
