//! What this library reads off a payment script. A script is held as its raw
//! bytes; cutting it into instructions is left to the `bitcoin` crate.

use vstd::prelude::*;

verus! {

/// The opcode that makes an output unspendable and free to carry data.
pub const OP_RETURN: u8 = 0x6a;

/// The script starts with `OP_RETURN`.
pub open spec fn is_op_return(script: Seq<u8>) -> bool {
    script.len() > 0 && script[0] == OP_RETURN
}

/// The bytes that the instruction at place `index` of `script` pushes, counting
/// instructions from 0 as `bitcoin::Script::iter` hands them out without
/// asking for minimal pushes; `None` where the script has no such instruction,
/// or where it is an opcode that pushes no data or one that cannot be read.
pub uninterp spec fn pushed_bytes(script: Seq<u8>, index: nat) -> Option<Seq<u8>>;

/// Calls `bitcoin::Script::is_op_return`, which says whether the script is not
/// empty and its first byte is `OP_RETURN`.
#[verifier::external_body]
pub(crate) fn script_is_op_return(script: &[u8]) -> (r: bool)
    ensures
        r == is_op_return(script@),
{
    bitcoin::Script::from(script.to_vec()).is_op_return()
}

/// Calls `bitcoin::Script::iter` and steps to the instruction at place `index`.
/// The contract names what comes back and claims nothing else of it.
///
/// The reader adds small constants to lengths of up to 32 bits that it finds
/// in the script, so it is only called where `usize` has 64 bits.
#[verifier::external_body]
pub(crate) fn script_pushed_bytes(script: &[u8], index: usize) -> (r: Option<Vec<u8>>)
    requires
        usize::BITS == 64,
    ensures
        match r {
            Some(bytes) => pushed_bytes(script@, index as nat) == Some(bytes@),
            None => pushed_bytes(script@, index as nat) is None,
        },
{
    match bitcoin::Script::from(script.to_vec()).iter(false).nth(index) {
        Some(bitcoin::blockdata::script::Instruction::PushBytes(bytes)) => Some(bytes.to_vec()),
        Some(bitcoin::blockdata::script::Instruction::Op(_)) => None,
        Some(bitcoin::blockdata::script::Instruction::Error(_)) => None,
        None => None,
    }
}

} // verus!
