//! Outbound instructions. A successful command returns the list of
//! requests that the host delivers to the token-custody and ledger
//! collaborators after the command commits; the core never assumes an
//! instruction it emitted has already taken effect.

use vstd::prelude::*;

verus! {

/// A request to an external collaborator.
#[derive(Debug)]
pub enum Instruction {
    /// Ask the token-custody collaborator to move the token to `to`.
    TransferCustody { collection: String, token_id: String, to: String },
    /// Ask the ledger collaborator to pay `amount` of `denom` to `to`.
    Pay { to: String, denom: String, amount: u128 },
}

/// Mathematical view of [`Instruction`].
pub enum InstrV {
    TransferCustody { collection: Seq<char>, token_id: Seq<char>, to: Seq<char> },
    Pay { to: Seq<char>, denom: Seq<char>, amount: int },
}

impl View for Instruction {
    type V = InstrV;

    open spec fn view(&self) -> InstrV {
        match self {
            Instruction::TransferCustody { collection, token_id, to } => InstrV::TransferCustody {
                collection: collection@,
                token_id: token_id@,
                to: to@,
            },
            Instruction::Pay { to, denom, amount } => InstrV::Pay {
                to: to@,
                denom: denom@,
                amount: *amount as int,
            },
        }
    }
}

/// The views of an emitted instruction list, in order.
pub open spec fn instr_views(v: Seq<Instruction>) -> Seq<InstrV> {
    v.map_values(|i: Instruction| i@)
}

} // verus!
