//! What the layers above the engine see of it: a narrow interface to look
//! up, execute and purge, and the observers of an invocation's life.

use vstd::prelude::*;
use crate::account::{AccountRecord, Instruction};
use crate::address::Address;
use crate::emulator::{
    committed_by_program, has_duplicates, is_failure_after_run, Emulator, Entrypoint,
};
use crate::error::Error;

verus! {

/// The operations that a backend offers to the layers above it.
pub trait Interface {
    /// The address on whose authority the backend acts.
    fn get_authority_pubkey(&self) -> Result<Address, Error>;

    /// Runs one instruction.
    fn execute(&mut self, instruction: &Instruction) -> Result<(), Error>;

    /// The record under `address`, if there is one.
    fn lookup(&self, address: &Address) -> Result<Option<AccountRecord>, Error>;

    /// The record under `address`, if this backend itself holds one.
    fn lookup_local(&self, address: &Address) -> Result<Option<AccountRecord>, Error>;

    /// The record under `address`, if the backend's source holds one.
    fn lookup_remote(&self, address: &Address) -> Result<Option<AccountRecord>, Error>;

    /// Drops the record under `address`.
    fn purge(&mut self, address: &Address) -> Result<(), Error>;
}

/// An instruction on its way through an invocation, with a name to tell it
/// by.
#[derive(Debug)]
pub struct Transaction {
    pub name: String,
    pub instruction: Instruction,
}

/// Is told of the stages that a transaction goes through.
pub trait Observer {
    fn transaction_created(&self, transaction: &Transaction);

    fn transaction_success(&self, transaction: &Transaction);

    fn transaction_timeout(&self, transaction: &Transaction);

    fn transaction_failure(&self, transaction: &Transaction);
}

/// An observer that takes note of nothing.
#[derive(Clone, Copy, Debug)]
pub struct BasicObserver {}

impl Observer for BasicObserver {
    fn transaction_created(&self, transaction: &Transaction) {
    }

    fn transaction_success(&self, transaction: &Transaction) {
    }

    fn transaction_timeout(&self, transaction: &Transaction) {
    }

    fn transaction_failure(&self, transaction: &Transaction) {
    }
}

/// A backend that runs everything on a local engine.
pub struct Transport<E> {
    pub emulator: Emulator<E>,
    pub authority: Address,
}

impl<E: Entrypoint> Transport<E> {
    /// A backend on `emulator` that acts on the authority of `authority`.
    pub fn new(emulator: Emulator<E>, authority: Address) -> (t: Transport<E>)
        ensures
            t.emulator == emulator,
            t.authority == authority,
    {
        Transport { emulator, authority }
    }
}

impl<E: Entrypoint> Interface for Transport<E> {
    fn get_authority_pubkey(&self) -> (r: Result<Address, Error>)
        ensures
            r == Ok::<Address, Error>(self.authority),
    {
        Ok(self.authority)
    }

    /// Runs one instruction on the engine and reports its failure as an
    /// error.
    fn execute(&mut self, instruction: &Instruction) -> (r: Result<(), Error>)
        ensures
            final(self).authority == old(self).authority,
            has_duplicates(instruction.accounts@) ==> r == Err::<(), Error>(
                Error::DuplicateAccount,
            ),
            !has_duplicates(instruction.accounts@) && !old(self).emulator.runs(
                instruction.program_id,
            ) ==> r == Err::<(), Error>(Error::EntrypointNotFound),
            r == Err::<(), Error>(Error::DuplicateAccount) ==> has_duplicates(
                instruction.accounts@,
            ),
            r == Err::<(), Error>(Error::EntrypointNotFound) ==> !old(self).emulator.runs(
                instruction.program_id,
            ),
            !has_duplicates(instruction.accounts@) && old(self).emulator.runs(
                instruction.program_id,
            ) ==> (r matches Err(e) ==> is_failure_after_run(e)),
            r is Err ==> final(self).emulator@ == old(self).emulator@,
            r is Ok ==> committed_by_program(
                old(self).emulator@,
                instruction.program_id,
                instruction.accounts@,
                final(self).emulator@,
            ),
    {
        self.emulator.execute_impl(instruction)
    }

    fn lookup(&self, address: &Address) -> (r: Result<Option<AccountRecord>, Error>)
        ensures
            r matches Ok(found) && (match found {
                Some(record) => self.emulator@.contains_key(*address) && record@
                    == self.emulator@[*address],
                None => !self.emulator@.contains_key(*address),
            }),
    {
        Ok(self.emulator.lookup(address))
    }

    /// The engine holds every record itself.
    fn lookup_local(&self, address: &Address) -> (r: Result<Option<AccountRecord>, Error>)
        ensures
            r matches Ok(found) && (match found {
                Some(record) => self.emulator@.contains_key(*address) && record@
                    == self.emulator@[*address],
                None => !self.emulator@.contains_key(*address),
            }),
    {
        Ok(self.emulator.lookup(address))
    }

    /// The engine is its own source.
    fn lookup_remote(&self, address: &Address) -> (r: Result<Option<AccountRecord>, Error>)
        ensures
            r matches Ok(found) && (match found {
                Some(record) => self.emulator@.contains_key(*address) && record@
                    == self.emulator@[*address],
                None => !self.emulator@.contains_key(*address),
            }),
    {
        Ok(self.emulator.lookup(address))
    }

    fn purge(&mut self, address: &Address) -> (r: Result<(), Error>)
        ensures
            r is Ok,
            final(self).authority == old(self).authority,
            final(self).emulator@ == old(self).emulator@.remove(*address),
    {
        self.emulator.purge(address);
        Ok(())
    }
}

} // verus!