//! Migration identities: 128-bit UUID values, built from their four fields.
use vstd::prelude::*;

verus! {

/// The 128-bit value of a UUID whose fields are `d1`, `d2`, `d3` and the
/// eight bytes `d4`, all laid out big-endian.
pub open spec fn uuid_value(d1: u32, d2: u16, d3: u16, d4: Seq<u8>) -> int {
    d1 as int * 0x1_0000_0000_0000_0000_0000_0000
        + d2 as int * 0x1_0000_0000_0000_0000_0000
        + d3 as int * 0x1_0000_0000_0000_0000
        + d4[0] as int * 0x100_0000_0000_0000
        + d4[1] as int * 0x1_0000_0000_0000
        + d4[2] as int * 0x100_0000_0000
        + d4[3] as int * 0x1_0000_0000
        + d4[4] as int * 0x100_0000
        + d4[5] as int * 0x1_0000
        + d4[6] as int * 0x100
        + d4[7] as int
}

/// Relies on `uuid::Uuid::from_fields`, which lays the fields out big-endian
/// in sixteen bytes, read back by `as_u128` as one big-endian integer.
#[verifier::external_body]
pub(crate) fn uuid_from_fields(d1: u32, d2: u16, d3: u16, d4: &[u8; 8]) -> (r: u128)
    ensures
        r as int == uuid_value(d1, d2, d3, d4@),
{
    uuid::Uuid::from_fields(d1, d2, d3, d4).as_u128()
}

/// The identity of the migration that introduced the transaction views.
pub fn add_transaction_views_id() -> (r: u128)
    ensures
        r as int == uuid_value(
            0x282fad2e,
            0x8372,
            0x4ca0,
            seq![0x8bu8, 0xed, 0x71, 0x82, 0x13, 0x20, 0x90, 0x9f],
        ),
{
    let d4: [u8; 8] = [0x8b, 0xed, 0x71, 0x82, 0x13, 0x20, 0x90, 0x9f];
    let r = uuid_from_fields(0x282fad2e, 0x8372, 0x4ca0, &d4);
    assert(d4@ =~= seq![0x8bu8, 0xed, 0x71, 0x82, 0x13, 0x20, 0x90, 0x9f]);
    r
}

/// The identity of the migration that fixes double-entry accounting of change
/// in the transaction views.
pub fn transactions_net_id() -> (r: u128)
    ensures
        r as int == uuid_value(
            0x2aa4d24f,
            0x51aa,
            0x4a4c,
            seq![0x8du8, 0x9b, 0xe5, 0xb8, 0xa7, 0x62, 0x86, 0x5f],
        ),
{
    let d4: [u8; 8] = [0x8d, 0x9b, 0xe5, 0xb8, 0xa7, 0x62, 0x86, 0x5f];
    let r = uuid_from_fields(0x2aa4d24f, 0x51aa, 0x4a4c, &d4);
    assert(d4@ =~= seq![0x8du8, 0x9b, 0xe5, 0xb8, 0xa7, 0x62, 0x86, 0x5f]);
    r
}

} // verus!
