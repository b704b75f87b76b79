//! The runtime's clock, read through anchor_lang, which seeds the generator.
use vstd::prelude::*;
use anchor_lang::solana_program::program_error::ProgramError;

verus! {

/// The runtime's error type, carried through opaquely.
#[verifier::external_type_specification]
#[verifier::external_body]
pub struct ExProgramError(ProgramError);

/// Relies on `Clock::get` (solana_program's clock sysvar, re-exported by
/// anchor_lang): the current slot, or the runtime's error when the sysvar
/// cannot be read. The slot depends on when the call is made, so nothing is
/// promised of its value.
#[verifier::external_body]
pub(crate) fn current_slot() -> (r: Result<u64, ProgramError>) {
    <anchor_lang::solana_program::clock::Clock as anchor_lang::solana_program::sysvar::Sysvar>::get().map(
        |c| c.slot,
    )
}

} // verus!
