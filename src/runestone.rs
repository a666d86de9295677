//! Runestone scripts.

use vstd::prelude::*;

use crate::tx::push_data;

verus! {

/// LEB128 encoding of `n`: seven bits per byte, low bits first, the high
/// bit set on every byte but the last.
pub open spec fn leb128(n: nat) -> Seq<u8>
    decreases n,
{
    if n < 128 {
        seq![n as u8]
    } else {
        seq![((n % 128) + 128) as u8] + leb128(n / 128)
    }
}

/// Payload of a runestone whose only content is one edict: the body tag,
/// then the rune id (as a delta from `0:0`), the amount and the output.
pub open spec fn runestone_payload(block: u64, tx: u32, amount: u128, output: u32) -> Seq<u8> {
    leb128(0) + leb128(block as nat) + leb128(tx as nat) + leb128(amount as nat) + leb128(output as nat)
}

/// Script of a runestone whose only content is one edict sending `amount`
/// of rune `block:tx` to output `output`: OP_RETURN, the runestone marker
/// OP_13, and one push of the payload.
pub open spec fn runestone_script_of(block: u64, tx: u32, amount: u128, output: u32) -> Seq<u8> {
    seq![0x6au8, 0x5du8] + push_data(runestone_payload(block, tx, amount, output))
}

/// Relies on ordinals::Runestone::encipher: with one edict and no etching,
/// mint or pointer, the script is OP_RETURN, OP_13 and one push of the body
/// tag and the edict's fields, each LEB128-encoded.
#[verifier::external_body]
fn encipher_edict(block: u64, tx: u32, amount: u128, output: u32) -> (r: Vec<u8>)
    ensures
        r@ == runestone_script_of(block, tx, amount, output),
{
    let edict = ordinals::Edict { id: ordinals::RuneId { block, tx }, amount, output };
    ordinals::Runestone { edicts: vec![edict], ..Default::default() }.encipher().into_bytes()
}

/// The OP_RETURN script that moves `amount` of rune `block:tx` to output
/// `output`, leaving the rest of the rune to the first other output.
pub fn transfer_script(block: u64, tx: u32, amount: u128, output: u32) -> (r: Vec<u8>)
    ensures
        r@ == runestone_script_of(block, tx, amount, output),
        r@.len() >= 2,
        r@[0] == 0x6a,
        r@[1] == 0x5d,
{
    encipher_edict(block, tx, amount, output)
}

} // verus!
