//! The request side of the engine: one operation per request.

use vstd::prelude::*;
use crate::account::{AccountRecord, AccountView, Instruction};
use crate::address::Address;
use crate::emulator::{
    committed_by_program, fund_spec, has_duplicates, is_failure_after_run, Emulator, Entrypoint,
    ExecutionResponse, Registry, INITIAL_SYSTEM_BALANCE,
};
use crate::error::Error;
use crate::store::AccountStore;

verus! {

/// The operations that a request can ask for.
#[derive(Clone, Copy, Debug, PartialEq, Eq, Structural)]
pub enum EmulatorOps {
    Lookup,
    Execute,
    Fund,
}

/// A request, with what its operation needs.
#[derive(Debug)]
pub enum Request {
    Lookup { pubkey: Address },
    Execute { instruction: Instruction },
    Fund { key: Address, owner: Address, lamports: u64 },
}

/// The answer to a request.
#[derive(Debug)]
pub enum Response {
    Lookup { account_data: Option<AccountRecord> },
    Execute { response: ExecutionResponse },
    Fund,
}

impl Request {
    /// The operation that the request asks for.
    pub open spec fn spec_op(&self) -> EmulatorOps {
        match self {
            Request::Lookup { .. } => EmulatorOps::Lookup,
            Request::Execute { .. } => EmulatorOps::Execute,
            Request::Fund { .. } => EmulatorOps::Fund,
        }
    }

    /// The operation that the request asks for.
    pub fn op(&self) -> (op: EmulatorOps)
        ensures
            op == self.spec_op(),
    {
        match self {
            Request::Lookup { .. } => EmulatorOps::Lookup,
            Request::Execute { .. } => EmulatorOps::Execute,
            Request::Fund { .. } => EmulatorOps::Fund,
        }
    }
}

/// Serves requests on an engine of its own.
pub struct Server<E> {
    pub emulator: Emulator<E>,
}

impl<E: Entrypoint> Server<E> {
    /// A server on an engine with an empty store that runs the programs in
    /// `registry`.
    pub fn try_new(registry: Registry<E>) -> (r: Result<Server<E>, Error>)
        ensures
            r matches Ok(server) && server.emulator@ == Map::<Address, AccountView>::empty()
                && server.emulator.program_ids() == registry.ids(),
    {
        Ok(Server { emulator: Emulator::new(AccountStore::new(), registry) })
    }

    /// Opens the system account with its initial balance.
    pub fn init(&mut self) -> (r: Result<(), Error>)
        ensures
            r is Ok,
            final(self).emulator@ == old(self).emulator@.insert(
                Address::system(),
                AccountView {
                    balance: INITIAL_SYSTEM_BALANCE,
                    ..AccountView::template(Address::system(), Address::system())
                },
            ),
            final(self).emulator.program_ids() == old(self).emulator.program_ids(),
    {
        self.emulator.init();
        Ok(())
    }

    /// Serves one request: a lookup answers with the record that the store
    /// holds, an execution with the response of the engine, a funding with
    /// nothing, or with the reason why there was no transfer.
    pub fn handle_request(&mut self, request: Request) -> (r: Result<Response, Error>)
        ensures
            final(self).emulator.program_ids() == old(self).emulator.program_ids(),
            match request {
                Request::Lookup { pubkey } => {
                    &&& final(self).emulator@ == old(self).emulator@
                    &&& r matches Ok(Response::Lookup { account_data })
                    &&& match account_data {
                        Some(record) => old(self).emulator@.contains_key(pubkey) && record@ == old(
                            self,
                        ).emulator@[pubkey],
                        None => !old(self).emulator@.contains_key(pubkey),
                    }
                },
                Request::Execute { instruction } => {
                    &&& r matches Ok(Response::Execute { response })
                    &&& has_duplicates(instruction.accounts@) ==> response.failed_with(
                        Error::DuplicateAccount,
                    )
                    &&& !has_duplicates(instruction.accounts@) && !old(self).emulator.runs(
                        instruction.program_id,
                    ) ==> response.failed_with(Error::EntrypointNotFound)
                    &&& response.failed_with(Error::DuplicateAccount) ==> has_duplicates(
                        instruction.accounts@,
                    )
                    &&& response.failed_with(Error::EntrypointNotFound) ==> !old(
                        self,
                    ).emulator.runs(instruction.program_id)
                    &&& !has_duplicates(instruction.accounts@) && old(self).emulator.runs(
                        instruction.program_id,
                    ) ==> response.succeeded() || (exists|e: Error|
                        #[trigger] response.failed_with(e) && is_failure_after_run(e))
                    &&& has_duplicates(instruction.accounts@) || !old(self).emulator.runs(
                        instruction.program_id,
                    ) ==> response.logs@.len() == 0
                    &&& !response.succeeded() ==> final(self).emulator@ == old(self).emulator@
                    &&& response.succeeded() ==> committed_by_program(
                        old(self).emulator@,
                        instruction.program_id,
                        instruction.accounts@,
                        final(self).emulator@,
                    )
                },
                Request::Fund { key, owner, lamports } => match fund_spec(
                    old(self).emulator@,
                    key,
                    owner,
                    lamports,
                ) {
                    Ok(funded) => r matches Ok(Response::Fund) && final(self).emulator@ == funded,
                    Err(e) => r matches Err(f) && f == e && final(self).emulator@ == old(
                        self,
                    ).emulator@,
                },
            },
    {
        match request {
            Request::Lookup { pubkey } => {
                let account_data = self.emulator.lookup(&pubkey);
                Ok(Response::Lookup { account_data })
            },
            Request::Execute { instruction } => {
                let response = self.emulator.execute(&instruction);
                Ok(Response::Execute { response })
            },
            Request::Fund { key, owner, lamports } => {
                match self.emulator.fund(&key, &owner, lamports) {
                    Ok(_) => Ok(Response::Fund),
                    Err(e) => Err(e),
                }
            },
        }
    }
}

} // verus!
