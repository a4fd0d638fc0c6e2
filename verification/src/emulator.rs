//! The execution engine: one invocation loads the accounts that an
//! instruction names, runs the program on working copies, validates what the
//! program hands back and commits it to the store, all or nothing.

use vstd::prelude::*;
use ahash::AHashSet;
use crate::account::{copy_bytes, views, AccountMeta, AccountRecord, AccountView, Instruction};
use crate::address::{lemma_address_ext, Address};
use crate::error::{lemma_message_tells_failure, Error};
use crate::keyset::{held_keys, keyset_contains, keyset_insert, keyset_new};
use crate::policy::{
    commit_all, commit_spec, disposition, loaded_data, minimum_balance, spec_disposition,
    spec_minimum_balance, unwritable_unchanged, Disposition, MAX_RENT_DATA_LEN,
};
use crate::store::{keyed_by_address, AccountStore};

verus! {

/// Balance that the system account is opened with.
pub const INITIAL_SYSTEM_BALANCE: u64 = 500_000_000_000_000_000;

/// Some address is named twice.
pub open spec fn has_duplicates(metas: Seq<AccountMeta>) -> bool {
    exists|i: int, j: int| 0 <= i < j < metas.len() && metas[i].address == metas[j].address
}

/// The working copy that a load makes for one descriptor: what the store
/// holds under the address, or else an empty record owned by the program,
/// with the flags that the descriptor grants.
pub open spec fn loaded_account(
    store: Map<Address, AccountView>,
    program_id: Address,
    meta: AccountMeta,
) -> AccountView {
    if store.contains_key(meta.address) {
        store[meta.address].with_flags(meta.is_signer, meta.is_writable)
    } else {
        AccountView::template(meta.address, program_id).with_flags(
            meta.is_signer,
            meta.is_writable,
        )
    }
}

/// The working set of an instruction, in the order of its descriptors.
pub open spec fn loaded_accounts(
    store: Map<Address, AccountView>,
    program_id: Address,
    metas: Seq<AccountMeta>,
) -> Seq<AccountView> {
    Seq::new(metas.len(), |i: int| loaded_account(store, program_id, metas[i]))
}

/// Whether two byte vectors hold the same bytes.
pub fn bytes_equal(a: &Vec<u8>, b: &Vec<u8>) -> (r: bool)
    ensures
        r == (a@ == b@),
{
    if a.len() != b.len() {
        return false;
    }
    let mut i: usize = 0;
    while i < a.len()
        invariant
            i <= a.len(),
            a.len() == b.len(),
            forall|j: int| 0 <= j < i ==> a@[j] == b@[j],
        decreases a.len() - i,
    {
        if a[i] != b[i] {
            return false;
        }
        i += 1;
    }
    assert(a@ =~= b@);
    true
}

/// The store after a transfer of `amount` from the system account to `key`,
/// or why there is none. An account that is missing at `key` is opened with
/// `owner`. A transfer from the system account to itself changes nothing.
pub open spec fn fund_spec(
    store: Map<Address, AccountView>,
    key: Address,
    owner: Address,
    amount: u64,
) -> Result<Map<Address, AccountView>, Error> {
    let system = Address::system();
    if !store.contains_key(system) {
        Err(Error::NotFound)
    } else if store[system].balance < amount {
        Err(Error::InsufficientBalance)
    } else if key == system {
        Ok(store)
    } else {
        let source = store[system];
        let target = if store.contains_key(key) {
            store[key]
        } else {
            AccountView::template(key, owner)
        };
        let credited = if target.balance + amount > u64::MAX {
            u64::MAX
        } else {
            (target.balance + amount) as u64
        };
        Ok(
            store.insert(
                system,
                AccountView { balance: (source.balance - amount) as u64, ..source },
            ).insert(key, AccountView { balance: credited, ..target }),
        )
    }
}

/// Collects the diagnostic lines of one invocation. The sink takes lines only
/// while it is armed.
pub struct LogSink {
    logs: Option<Vec<String>>,
}

impl LogSink {
    /// Whether the sink takes lines.
    pub closed spec fn armed(&self) -> bool {
        self.logs is Some
    }

    /// The lines collected since the sink was armed.
    pub closed spec fn lines(&self) -> Seq<String> {
        match self.logs {
            Some(lines) => lines@,
            None => Seq::empty(),
        }
    }

    /// A sink that is not armed.
    pub fn new() -> (sink: LogSink)
        ensures
            !sink.armed(),
            sink.lines() == Seq::<String>::empty(),
    {
        LogSink { logs: None }
    }

    /// Arms the sink and drops what it held.
    pub fn init(&mut self)
        ensures
            final(self).armed(),
            final(self).lines() == Seq::<String>::empty(),
    {
        self.logs = Some(Vec::new());
    }

    /// Whether the sink takes lines.
    pub fn is_armed(&self) -> (b: bool)
        ensures
            b == self.armed(),
    {
        self.logs.is_some()
    }

    /// Hands out the collected lines and disarms the sink.
    pub fn take(&mut self) -> (lines: Vec<String>)
        requires
            old(self).armed(),
        ensures
            lines@ == old(self).lines(),
            !final(self).armed(),
            final(self).lines() == Seq::<String>::empty(),
    {
        let mut taken: Option<Vec<String>> = None;
        core::mem::swap(&mut self.logs, &mut taken);
        match taken {
            Some(lines) => lines,
            None => Vec::new(),
        }
    }

    /// Appends a line if the sink is armed. The result is always `false`: the
    /// line is not consumed, other sinks may take it too.
    pub fn write(&mut self, text: String) -> (consumed: bool)
        ensures
            !consumed,
            final(self).armed() == old(self).armed(),
            final(self).lines() == if old(self).armed() {
                old(self).lines().push(text)
            } else {
                old(self).lines()
            },
    {
        let mut taken: Option<Vec<String>> = None;
        core::mem::swap(&mut self.logs, &mut taken);
        match taken {
            Some(mut lines) => {
                lines.push(text);
                self.logs = Some(lines);
            },
            None => {},
        }
        false
    }
}

/// What an invocation reports: the description of the failure, if it failed,
/// and the diagnostic lines, which are handed back either way.
#[derive(Debug)]
pub struct ExecutionResponse {
    pub error: Option<String>,
    pub logs: Vec<String>,
}

impl ExecutionResponse {
    /// The response reports no failure.
    pub open spec fn succeeded(&self) -> bool {
        self.error is None
    }

    /// The response reports the failure `e`.
    pub open spec fn failed_with(&self, e: Error) -> bool {
        self.error matches Some(text) && text@ == e.spec_message()
    }

    /// A response with the given failure, if any, and diagnostic lines.
    pub fn new(error: Option<String>, logs: Vec<String>) -> (r: ExecutionResponse)
        ensures
            r.error == error,
            r.logs == logs,
    {
        ExecutionResponse { error, logs }
    }

    /// The response to an invocation that ended in `result`.
    pub fn from_result(result: Result<(), Error>, logs: Vec<String>) -> (r: ExecutionResponse)
        ensures
            r.logs == logs,
            match result {
                Ok(_) => r.succeeded(),
                Err(e) => r.failed_with(e),
            },
    {
        match result {
            Ok(_) => ExecutionResponse::new(None, logs),
            Err(e) => ExecutionResponse::new(Some(e.message()), logs),
        }
    }
}

/// The logic of a program, as the engine calls it. The program works on the
/// working copies in `accounts`, writes its diagnostics to `log` and returns
/// its error code if it fails. Nothing is assumed of what it does.
pub trait Entrypoint {
    fn process_instruction(
        &self,
        program_id: &Address,
        accounts: &mut Vec<AccountRecord>,
        instruction_data: &Vec<u8>,
        log: &mut LogSink,
    ) -> Result<(), u64>;
}

/// An entrypoint with the address of its program.
pub struct RegisteredProgram<E> {
    pub program_id: Address,
    pub entrypoint: E,
}

/// The programs that the engine can run, by address.
pub struct Registry<E> {
    programs: Vec<RegisteredProgram<E>>,
}

impl<E> Registry<E> {
    /// The addresses of the registered programs, in the order of registration.
    pub closed spec fn ids(&self) -> Seq<Address> {
        Seq::new(self.programs@.len(), |i: int| self.programs@[i].program_id)
    }

    /// The registered entrypoints, in the order of registration.
    pub closed spec fn entrypoints(&self) -> Seq<E> {
        Seq::new(self.programs@.len(), |i: int| self.programs@[i].entrypoint)
    }

    /// Whether a program is registered under `program_id`.
    pub open spec fn is_registered(&self, program_id: Address) -> bool {
        self.ids().contains(program_id)
    }

    /// Whether `position` is the first under which `program_id` is
    /// registered.
    pub open spec fn is_first_under(&self, program_id: Address, position: int) -> bool {
        &&& 0 <= position < self.ids().len()
        &&& self.ids()[position] == program_id
        &&& forall|k: int| 0 <= k < position ==> self.ids()[k] != program_id
    }

    /// A registry without programs.
    pub fn new() -> (r: Registry<E>)
        ensures
            r.ids() == Seq::<Address>::empty(),
            r.entrypoints() == Seq::<E>::empty(),
    {
        let r = Registry { programs: Vec::new() };
        assert(r.ids() =~= Seq::<Address>::empty());
        assert(r.entrypoints() =~= Seq::<E>::empty());
        r
    }

    /// Registers `entrypoint` under `program_id`. Of two programs under one
    /// address the one registered first is found.
    pub fn register(&mut self, program_id: Address, entrypoint: E)
        ensures
            final(self).ids() == old(self).ids().push(program_id),
            final(self).entrypoints() == old(self).entrypoints().push(entrypoint),
    {
        self.programs.push(RegisteredProgram { program_id, entrypoint });
        assert(self.ids() =~= old(self).ids().push(program_id));
        assert(self.entrypoints() =~= old(self).entrypoints().push(entrypoint));
    }

    /// The entrypoint registered under `program_id`, if there is one.
    pub fn lookup(&self, program_id: &Address) -> (r: Option<&E>)
        ensures
            r is Some <==> self.is_registered(*program_id),
            r matches Some(entrypoint) ==> exists|position: int|
                #[trigger] self.is_first_under(*program_id, position) && *entrypoint
                    == self.entrypoints()[position],
            self.ids().len() == self.entrypoints().len(),
    {
        let mut i: usize = 0;
        while i < self.programs.len()
            invariant
                i <= self.programs.len(),
                forall|k: int| 0 <= k < i ==> self.programs@[k].program_id != *program_id,
            decreases self.programs.len() - i,
        {
            if self.programs[i].program_id == *program_id {
                assert(self.ids()[i as int] == *program_id);
                assert(self.is_first_under(*program_id, i as int));
                assert(self.entrypoints()[i as int] == self.programs@[i as int].entrypoint);
                return Some(&self.programs[i].entrypoint);
            }
            i += 1;
        }
        assert(!self.ids().contains(*program_id)) by {
            if self.ids().contains(*program_id) {
                let k = choose|k: int| 0 <= k < self.ids().len() && self.ids()[k] == *program_id;
                assert(self.programs@[k].program_id == *program_id);
            }
        }
        None
    }
}

/// What the engine takes from the records that a program hands back: owner,
/// data and balance, position by position. Address and flags stay as they
/// were loaded, and so does a record for which nothing is handed back.
pub open spec fn reconciled(loaded: Seq<AccountView>, touched: Seq<AccountView>) -> Seq<AccountView> {
    Seq::new(
        loaded.len(),
        |i: int|
            if i < touched.len() {
                AccountView {
                    owner: touched[i].owner,
                    data: touched[i].data,
                    balance: touched[i].balance,
                    ..loaded[i]
                }
            } else {
                loaded[i]
            },
    )
}

/// Takes over owner, data and balance from the records that a program hands
/// back, keeping address and flags as they were loaded.
pub fn reconcile(loaded: &Vec<AccountRecord>, touched: &Vec<AccountRecord>) -> (r: Vec<AccountRecord>)
    ensures
        views(r@) == reconciled(views(loaded@), views(touched@)),
{
    let mut r: Vec<AccountRecord> = Vec::new();
    let mut i: usize = 0;
    while i < loaded.len()
        invariant
            i <= loaded.len(),
            r.len() == i,
            forall|k: int|
                0 <= k < i ==> (#[trigger] r@[k])@ == reconciled(views(loaded@), views(touched@))[k],
        decreases loaded.len() - i,
    {
        let record = if i < touched.len() {
            AccountRecord {
                address: loaded[i].address,
                owner: touched[i].owner,
                data: copy_bytes(&touched[i].data),
                balance: touched[i].balance,
                is_signer: loaded[i].is_signer,
                is_writable: loaded[i].is_writable,
            }
        } else {
            loaded[i].clone()
        };
        r.push(record);
        i += 1;
    }
    assert(views(r@) =~= reconciled(views(loaded@), views(touched@)));
    r
}

/// What the engine makes of the result that an entrypoint returned: success
/// stays success, and an error code becomes the failure that carries it.
pub open spec fn spec_program_outcome(returned: Result<(), u64>) -> Result<(), Error> {
    match returned {
        Ok(_) => Ok(()),
        Err(code) => Err(Error::ProgramFailed(code)),
    }
}

/// Turns the result that an entrypoint returned into the outcome of the
/// program.
pub fn program_outcome(returned: Result<(), u64>) -> (r: Result<(), Error>)
    ensures
        r == spec_program_outcome(returned),
{
    match returned {
        Ok(_) => Ok(()),
        Err(code) => Err(Error::ProgramFailed(code)),
    }
}

/// The failures that an invocation can end in once its program has run: the
/// failure of the program itself, and the two refusals of the commit.
pub open spec fn is_failure_after_run(e: Error) -> bool {
    e is ProgramFailed || e == Error::NonMutableAccountChange || e == Error::AccountDataTooLarge
}

/// What an invocation makes of the store, given the records and the outcome
/// that the program handed back: a failed program changes nothing; after a
/// successful one the reconciled records are validated and committed.
pub open spec fn settle_spec(
    store: Map<Address, AccountView>,
    loaded: Seq<AccountView>,
    touched: Seq<AccountView>,
    outcome: Result<(), Error>,
) -> Result<Map<Address, AccountView>, Error> {
    match outcome {
        Err(e) => Err(e),
        Ok(_) => commit_spec(store, reconciled(loaded, touched)),
    }
}

/// Copies a list of records.
pub fn copy_records(accounts: &Vec<AccountRecord>) -> (r: Vec<AccountRecord>)
    ensures
        views(r@) == views(accounts@),
{
    let mut r: Vec<AccountRecord> = Vec::new();
    let mut i: usize = 0;
    while i < accounts.len()
        invariant
            i <= accounts.len(),
            r.len() == i,
            forall|k: int| 0 <= k < i ==> (#[trigger] r@[k])@ == accounts@[k]@,
        decreases accounts.len() - i,
    {
        r.push(accounts[i].clone());
        i += 1;
    }
    assert(views(r@) =~= views(accounts@));
    r
}

/// `after` is what a commit makes of `store` for some records that a program
/// may have handed back for the working set of the instruction.
pub open spec fn committed_by_program(
    store: Map<Address, AccountView>,
    program_id: Address,
    metas: Seq<AccountMeta>,
    after: Map<Address, AccountView>,
) -> bool {
    exists|touched: Seq<AccountView>|
        commit_spec(
            store,
            #[trigger] reconciled(loaded_accounts(store, program_id, metas), touched),
        ) == Ok::<Map<Address, AccountView>, Error>(after)
}

/// The engine's state: the account store, the programs it can run and the
/// sink that collects the diagnostics of the invocation at hand.
pub struct Emulator<E> {
    store: AccountStore,
    registry: Registry<E>,
    log_sink: LogSink,
}

impl<E> View for Emulator<E> {
    type V = Map<Address, AccountView>;

    closed spec fn view(&self) -> Map<Address, AccountView> {
        self.store@
    }
}

impl<E: Entrypoint> Emulator<E> {
    /// The addresses of the programs that the engine can run.
    pub closed spec fn program_ids(&self) -> Seq<Address> {
        self.registry.ids()
    }

    /// Whether a program is registered under `program_id`.
    pub open spec fn runs(&self, program_id: Address) -> bool {
        self.program_ids().contains(program_id)
    }

    /// The diagnostic lines that the sink holds.
    pub closed spec fn log_lines(&self) -> Seq<String> {
        self.log_sink.lines()
    }

    /// Whether the sink takes lines.
    pub closed spec fn log_armed(&self) -> bool {
        self.log_sink.armed()
    }

    /// An engine on top of `store` that runs the programs in `registry`.
    pub fn new(store: AccountStore, registry: Registry<E>) -> (e: Emulator<E>)
        ensures
            e@ == store@,
            e.program_ids() == registry.ids(),
            !e.log_armed(),
    {
        Emulator { store, registry, log_sink: LogSink::new() }
    }

    /// The account store.
    pub fn store(&self) -> (store: &AccountStore)
        ensures
            store@ == self@,
    {
        &self.store
    }

    /// Opens the system account with its initial balance.
    pub fn init(&mut self)
        ensures
            final(self)@ == old(self)@.insert(
                Address::system(),
                AccountView {
                    balance: INITIAL_SYSTEM_BALANCE,
                    ..AccountView::template(Address::system(), Address::system())
                },
            ),
            final(self).program_ids() == old(self).program_ids(),
    {
        let mut system = AccountRecord::new_static(Address::system(), Address::system());
        system.balance = INITIAL_SYSTEM_BALANCE;
        self.store.store(&system);
    }

    /// The record that the store holds under `address`, if any.
    pub fn lookup(&self, address: &Address) -> (r: Option<AccountRecord>)
        ensures
            match r {
                Some(record) => self@.contains_key(*address) && record@ == self@[*address],
                None => !self@.contains_key(*address),
            },
            keyed_by_address(self@),
    {
        self.store.lookup(address)
    }

    /// Removes what the store holds under `address`.
    pub fn purge(&mut self, address: &Address)
        ensures
            final(self)@ == old(self)@.remove(*address),
            final(self).program_ids() == old(self).program_ids(),
    {
        self.store.purge(address);
    }

    /// Loads the working set of an instruction: one working copy for each
    /// descriptor, in order. An address that is named twice is refused.
    pub fn program_local_load(&self, program_id: &Address, accounts: &Vec<AccountMeta>) -> (r: Result<
        Vec<AccountRecord>,
        Error,
    >)
        ensures
            match r {
                Ok(loaded) => !has_duplicates(accounts@) && views(loaded@) == loaded_accounts(
                    self@,
                    *program_id,
                    accounts@,
                ),
                Err(e) => has_duplicates(accounts@) && e == Error::DuplicateAccount,
            },
    {
        let mut keyset: AHashSet<[u8; 32]> = keyset_new();
        let mut loaded: Vec<AccountRecord> = Vec::new();
        let mut i: usize = 0;
        while i < accounts.len()
            invariant
                i <= accounts.len(),
                loaded.len() == i,
                forall|k: int|
                    0 <= k < i ==> (#[trigger] loaded@[k])@ == loaded_account(
                        self@,
                        *program_id,
                        accounts@[k],
                    ),
                forall|s: Seq<u8>|
                    held_keys(keyset).contains(s) <==> exists|k: int|
                        0 <= k < i && (#[trigger] accounts@[k]).address@ == s,
                forall|p: int, q: int|
                    0 <= p < q < i ==> accounts@[p].address != accounts@[q].address,
            decreases accounts.len() - i,
        {
            let meta = accounts[i];
            if keyset_contains(&keyset, &meta.address) {
                proof {
                    let k = choose|k: int|
                        0 <= k < i && (#[trigger] accounts@[k]).address@ == meta.address@;
                    lemma_address_ext(accounts@[k].address, meta.address);
                    assert(accounts@[k].address == accounts@[i as int].address);
                }
                return Err(Error::DuplicateAccount);
            }
            let ghost held = held_keys(keyset);
            keyset_insert(&mut keyset, &meta.address);
            let mut record = match self.store.lookup(&meta.address) {
                Some(found) => found.clone_for_program(),
                None => AccountRecord::new_template_for_program(meta.address, *program_id),
            };
            record.is_signer = meta.is_signer;
            record.is_writable = meta.is_writable;
            loaded.push(record);
            proof {
                assert forall|p: int, q: int| 0 <= p < q < i + 1 implies accounts@[p].address
                    != accounts@[q].address by {
                    if q == i && accounts@[p].address == accounts@[q].address {
                        assert(accounts@[p].address@ == meta.address@);
                        assert(held.contains(meta.address@));
                    }
                }
                assert forall|s: Seq<u8>|
                    held_keys(keyset).contains(s) <==> exists|k: int|
                        0 <= k < i + 1 && (#[trigger] accounts@[k]).address@ == s by {
                    if held_keys(keyset).contains(s) {
                        if s == meta.address@ {
                            assert(accounts@[i as int].address@ == s);
                        } else {
                            assert(held.contains(s));
                            let k = choose|k: int|
                                0 <= k < i && (#[trigger] accounts@[k]).address@ == s;
                            assert(0 <= k < i + 1 && accounts@[k].address@ == s);
                        }
                    }
                    if exists|k: int| 0 <= k < i + 1 && (#[trigger] accounts@[k]).address@ == s {
                        let k = choose|k: int|
                            0 <= k < i + 1 && (#[trigger] accounts@[k]).address@ == s;
                        if k < i {
                            assert(held.contains(s));
                        }
                    }
                }
            }
            i += 1;
        }
        proof {
            assert(views(loaded@) =~= loaded_accounts(self@, *program_id, accounts@));
        }
        Ok(loaded)
    }

    /// Whether every record that is not writable still has the data that the
    /// store holds under its address, or no data where the store holds none.
    pub fn check_unwritable(&self, accounts: &Vec<AccountRecord>) -> (b: bool)
        ensures
            b == unwritable_unchanged(self@, views(accounts@)),
    {
        let mut i: usize = 0;
        while i < accounts.len()
            invariant
                i <= accounts.len(),
                forall|k: int|
                    0 <= k < i && !(#[trigger] views(accounts@)[k]).is_writable ==> views(
                        accounts@,
                    )[k].data == loaded_data(self@, views(accounts@)[k].address),
            decreases accounts.len() - i,
        {
            let account = &accounts[i];
            if !account.is_writable {
                let same = match self.store.lookup(&account.address) {
                    Some(existing) => bytes_equal(&account.data, &existing.data),
                    None => account.data.len() == 0,
                };
                proof {
                    assert(views(accounts@)[i as int] == account@);
                    if account@.data.len() == 0 {
                        assert(account@.data =~= Seq::<u8>::empty());
                    }
                }
                if !same {
                    return false;
                }
            }
            i += 1;
        }
        true
    }

    /// Validates and commits the records that an invocation hands back.
    ///
    /// Nothing is persisted unless every record passes: a record that is not
    /// writable must have the data that the store holds for it, and no data
    /// may be longer than the minimum-balance policy covers. Then each record
    /// in turn is purged or stored as the lifecycle rule decides.
    pub fn program_local_store(&mut self, accounts: Vec<AccountRecord>) -> (r: Result<(), Error>)
        ensures
            match commit_spec(old(self)@, views(accounts@)) {
                Ok(committed) => r is Ok && final(self)@ == committed,
                Err(e) => r == Err::<(), Error>(e) && final(self)@ == old(self)@,
            },
            final(self).program_ids() == old(self).program_ids(),
            final(self).log_lines() == old(self).log_lines(),
            final(self).log_armed() == old(self).log_armed(),
    {
        if !self.check_unwritable(&accounts) {
            return Err(Error::NonMutableAccountChange);
        }
        let ghost before = self@;
        let ghost entry = *self;
        let mut minimums: Vec<u64> = Vec::new();
        let mut i: usize = 0;
        while i < accounts.len()
            invariant
                i <= accounts.len(),
                minimums.len() == i,
                *self == entry,
                self@ == before,
                unwritable_unchanged(before, views(accounts@)),
                forall|k: int|
                    0 <= k < i ==> (#[trigger] views(accounts@)[k]).data.len()
                        <= MAX_RENT_DATA_LEN,
                forall|k: int|
                    0 <= k < i ==> (#[trigger] minimums@[k]) == spec_minimum_balance(
                        accounts@[k]@.data.len(),
                    ),
            decreases accounts.len() - i,
        {
            match minimum_balance(accounts[i].data.len()) {
                Some(minimum) => {
                    minimums.push(minimum);
                },
                None => {
                    assert(views(accounts@)[i as int].data.len() > MAX_RENT_DATA_LEN);
                    return Err(Error::AccountDataTooLarge);
                },
            }
            i += 1;
        }
        let ghost all = views(accounts@);
        let mut j: usize = 0;
        while j < accounts.len()
            invariant
                j <= accounts.len(),
                minimums.len() == accounts.len(),
                all == views(accounts@),
                forall|k: int|
                    0 <= k < accounts.len() ==> (#[trigger] minimums@[k]) == spec_minimum_balance(
                        accounts@[k]@.data.len(),
                    ),
                self@ == commit_all(before, all.take(j as int)),
                self.program_ids() == entry.program_ids(),
                self.log_lines() == entry.log_lines(),
                self.log_armed() == entry.log_armed(),
            decreases accounts.len() - j,
        {
            let account = &accounts[j];
            let decision = disposition(account, minimums[j]);
            proof {
                assert(all.take(j + 1).drop_last() == all.take(j as int));
                assert(all.take(j + 1).last() == account@);
                assert(decision == spec_disposition(account@));
            }
            match decision {
                Disposition::Purge => {
                    self.store.purge(&account.address);
                },
                Disposition::Store => {
                    self.store.store(account);
                },
            }
            j += 1;
        }
        proof {
            assert(all.take(accounts.len() as int) == all);
        }
        Ok(())
    }

    /// Moves `amount` from the system account to the account at `key`, which
    /// is opened with `owner` if the store does not hold it.
    pub fn fund(&mut self, key: &Address, owner: &Address, amount: u64) -> (r: Result<(), Error>)
        ensures
            match fund_spec(old(self)@, *key, *owner, amount) {
                Ok(funded) => r is Ok && final(self)@ == funded,
                Err(e) => r == Err::<(), Error>(e) && final(self)@ == old(self)@,
            },
            final(self).program_ids() == old(self).program_ids(),
    {
        let system = Address::system();
        let mut from = match self.store.lookup(&system) {
            Some(from) => from,
            None => {
                return Err(Error::NotFound);
            },
        };
        if from.balance < amount {
            return Err(Error::InsufficientBalance);
        }
        if *key == system {
            proof {
                assert(self@.insert(system, from@.durable()) =~= self@);
            }
            self.store.store(&from);
            return Ok(());
        }
        let mut to = match self.store.lookup(key) {
            Some(to) => to,
            None => AccountRecord::new_static(*key, *owner),
        };
        from.balance = from.balance - amount;
        to.balance = to.balance.saturating_add(amount);
        self.store.store(&from);
        self.store.store(&to);
        Ok(())
    }

    /// Calls the entrypoint once on the working copies and reports what it
    /// returned as `program_outcome` has it. What the program does to the
    /// working copies and to the sink, and whether it fails, is the
    /// program's own affair: nothing is promised of it.
    pub fn execute_entrypoing_impl(
        program_id: &Address,
        accounts: &mut Vec<AccountRecord>,
        instruction_data: &Vec<u8>,
        entrypoint: &E,
        log: &mut LogSink,
    ) -> (r: Result<(), Error>)
        ensures
            r matches Err(e) ==> e is ProgramFailed,
    {
        program_outcome(
            entrypoint.process_instruction(program_id, accounts, instruction_data, log),
        )
    }

    /// Ends an invocation, given the working set as it was loaded, the
    /// records that the program handed back and the outcome of the program.
    pub fn settle(
        &mut self,
        loaded: &Vec<AccountRecord>,
        touched: &Vec<AccountRecord>,
        outcome: Result<(), Error>,
    ) -> (r: Result<(), Error>)
        ensures
            match settle_spec(old(self)@, views(loaded@), views(touched@), outcome) {
                Ok(committed) => r is Ok && final(self)@ == committed,
                Err(e) => r == Err::<(), Error>(e) && final(self)@ == old(self)@,
            },
            final(self).program_ids() == old(self).program_ids(),
            final(self).log_lines() == old(self).log_lines(),
            final(self).log_armed() == old(self).log_armed(),
    {
        match outcome {
            Err(e) => Err(e),
            Ok(_) => self.program_local_store(reconcile(loaded, touched)),
        }
    }

    /// Runs `handler` on the working set of `instruction` and reports its
    /// outcome. Nothing is committed.
    pub fn execute_handler<H: Entrypoint>(&mut self, instruction: &Instruction, handler: &H) -> (r:
        Result<(), Error>)
        ensures
            final(self)@ == old(self)@,
            final(self).program_ids() == old(self).program_ids(),
            has_duplicates(instruction.accounts@) ==> r == Err::<(), Error>(
                Error::DuplicateAccount,
            ),
            r matches Err(e) ==> e == Error::DuplicateAccount && has_duplicates(
                instruction.accounts@,
            ) || e is ProgramFailed,
    {
        let mut working = match self.program_local_load(
            &instruction.program_id,
            &instruction.accounts,
        ) {
            Ok(loaded) => loaded,
            Err(e) => {
                return Err(e);
            },
        };
        program_outcome(
            handler.process_instruction(
                &instruction.program_id,
                &mut working,
                &instruction.data,
                &mut self.log_sink,
            ),
        )
    }

    /// One invocation: load, run, validate, commit. Diagnostic lines go to
    /// the engine's sink if it is armed.
    pub fn execute_impl(&mut self, instruction: &Instruction) -> (r: Result<(), Error>)
        ensures
            has_duplicates(instruction.accounts@) ==> r == Err::<(), Error>(
                Error::DuplicateAccount,
            ),
            !has_duplicates(instruction.accounts@) && !old(self).runs(instruction.program_id) ==> r
                == Err::<(), Error>(Error::EntrypointNotFound),
            r == Err::<(), Error>(Error::DuplicateAccount) ==> has_duplicates(
                instruction.accounts@,
            ),
            r == Err::<(), Error>(Error::EntrypointNotFound) ==> !old(self).runs(
                instruction.program_id,
            ),
            !has_duplicates(instruction.accounts@) && old(self).runs(instruction.program_id) ==> (r
                matches Err(e) ==> is_failure_after_run(e)),
            has_duplicates(instruction.accounts@) || !old(self).runs(instruction.program_id) ==> {
                &&& final(self).log_lines() == old(self).log_lines()
                &&& final(self).log_armed() == old(self).log_armed()
            },
            r is Err ==> final(self)@ == old(self)@,
            r is Ok ==> committed_by_program(
                old(self)@,
                instruction.program_id,
                instruction.accounts@,
                final(self)@,
            ),
            final(self).program_ids() == old(self).program_ids(),
    {
        let loaded = match self.program_local_load(&instruction.program_id, &instruction.accounts) {
            Ok(loaded) => loaded,
            Err(e) => {
                return Err(e);
            },
        };
        let mut working = copy_records(&loaded);
        let outcome = match self.registry.lookup(&instruction.program_id) {
            Some(entrypoint) => Self::execute_entrypoing_impl(
                &instruction.program_id,
                &mut working,
                &instruction.data,
                entrypoint,
                &mut self.log_sink,
            ),
            None => {
                return Err(Error::EntrypointNotFound);
            },
        };
        let ghost before = self@;
        let r = self.settle(&loaded, &working, outcome);
        proof {
            if r is Ok {
                let touched = views(working@);
                assert(commit_spec(
                    before,
                    reconciled(
                        loaded_accounts(before, instruction.program_id, instruction.accounts@),
                        touched,
                    ),
                ) == Ok::<Map<Address, AccountView>, Error>(self@));
            }
        }
        r
    }

    /// Ends the capture of diagnostics and builds the response to an
    /// invocation that ended in `result`. The response holds the lines that
    /// the sink collected, in the order in which they were written, and the
    /// sink is left disarmed and empty.
    pub fn respond(&mut self, result: Result<(), Error>) -> (response: ExecutionResponse)
        ensures
            response.logs@ == old(self).log_lines(),
            match result {
                Ok(_) => response.succeeded(),
                Err(e) => response.failed_with(e),
            },
            !final(self).log_armed(),
            final(self).log_lines() == Seq::<String>::empty(),
            final(self)@ == old(self)@,
            final(self).program_ids() == old(self).program_ids(),
    {
        let logs = if self.log_sink.is_armed() {
            self.log_sink.take()
        } else {
            Vec::new()
        };
        ExecutionResponse::from_result(result, logs)
    }

    /// Runs the program that `instruction` names on the accounts that it
    /// names and reports how that ended. A failure is reported in the
    /// response, with the store as it was before. The sink is armed afresh
    /// before the program runs and drained by `respond` after the commit,
    /// so the response holds the lines of this invocation and no others.
    pub fn execute(&mut self, instruction: &Instruction) -> (response: ExecutionResponse)
        ensures
            has_duplicates(instruction.accounts@) ==> response.failed_with(Error::DuplicateAccount)
                && response.logs@.len() == 0,
            !has_duplicates(instruction.accounts@) && !old(self).runs(instruction.program_id)
                ==> response.failed_with(Error::EntrypointNotFound) && response.logs@.len() == 0,
            response.failed_with(Error::DuplicateAccount) ==> has_duplicates(
                instruction.accounts@,
            ),
            response.failed_with(Error::EntrypointNotFound) ==> !old(self).runs(
                instruction.program_id,
            ),
            !has_duplicates(instruction.accounts@) && old(self).runs(instruction.program_id)
                ==> response.succeeded() || (exists|e: Error|
                #[trigger] response.failed_with(e) && is_failure_after_run(e)),
            !response.succeeded() ==> final(self)@ == old(self)@,
            response.succeeded() ==> committed_by_program(
                old(self)@,
                instruction.program_id,
                instruction.accounts@,
                final(self)@,
            ),
            final(self).program_ids() == old(self).program_ids(),
            !final(self).log_armed(),
            final(self).log_lines() == Seq::<String>::empty(),
    {
        self.log_sink.init();
        let result = self.execute_impl(instruction);
        let response = self.respond(result);
        proof {
            if let Err(e) = result {
                assert(response.failed_with(e));
                if response.failed_with(Error::DuplicateAccount) {
                    lemma_message_tells_failure(e, Error::DuplicateAccount);
                }
                if response.failed_with(Error::EntrypointNotFound) {
                    lemma_message_tells_failure(e, Error::EntrypointNotFound);
                }
            }
        }
        response
    }
}

/// The working set of an instruction passes validation as it was loaded: a
/// program that changes nothing is never refused for a change.
pub proof fn lemma_loaded_is_unchanged(
    store: Map<Address, AccountView>,
    program_id: Address,
    metas: Seq<AccountMeta>,
)
    requires
        keyed_by_address(store),
    ensures
        unwritable_unchanged(store, loaded_accounts(store, program_id, metas)),
        unwritable_unchanged(
            store,
            reconciled(
                loaded_accounts(store, program_id, metas),
                loaded_accounts(store, program_id, metas),
            ),
        ),
{
    let loaded = loaded_accounts(store, program_id, metas);
    assert(reconciled(loaded, loaded) =~= loaded);
    assert forall|i: int| 0 <= i < loaded.len() && !(#[trigger] loaded[i]).is_writable implies loaded[i].data
        == loaded_data(store, loaded[i].address) by {
        let meta = metas[i];
        if store.contains_key(meta.address) {
            assert(store[meta.address].address == meta.address);
        }
    }
}

/// The working set of an instruction that names no address twice holds no
/// address twice, whatever the program hands back.
pub proof fn lemma_working_set_distinct(
    store: Map<Address, AccountView>,
    program_id: Address,
    metas: Seq<AccountMeta>,
    touched: Seq<AccountView>,
)
    requires
        keyed_by_address(store),
        !has_duplicates(metas),
    ensures
        crate::policy::distinct_accounts(
            reconciled(loaded_accounts(store, program_id, metas), touched),
        ),
{
    let merged = reconciled(loaded_accounts(store, program_id, metas), touched);
    assert forall|i: int, j: int| 0 <= i < j < merged.len() implies merged[i].address
        != merged[j].address by {
        if store.contains_key(metas[i].address) {
            assert(store[metas[i].address].address == metas[i].address);
        }
        if store.contains_key(metas[j].address) {
            assert(store[metas[j].address].address == metas[j].address);
        }
        assert(merged[i].address == metas[i].address);
        assert(merged[j].address == metas[j].address);
    }
}

/// An invocation is all or nothing: where the program hands back other data
/// for an account that the instruction does not mark writable, the
/// invocation fails with `NonMutableAccountChange`, whatever the program did
/// to the other accounts, and the store stays as it was.
pub proof fn lemma_unwritable_change_fails_invocation(
    store: Map<Address, AccountView>,
    program_id: Address,
    metas: Seq<AccountMeta>,
    touched: Seq<AccountView>,
    i: int,
)
    requires
        keyed_by_address(store),
        0 <= i < metas.len(),
        i < touched.len(),
        !metas[i].is_writable,
        touched[i].data != loaded_accounts(store, program_id, metas)[i].data,
    ensures
        settle_spec(
            store,
            loaded_accounts(store, program_id, metas),
            touched,
            Ok::<(), Error>(()),
        ) == Err::<Map<Address, AccountView>, Error>(Error::NonMutableAccountChange),
{
    let loaded = loaded_accounts(store, program_id, metas);
    let merged = reconciled(loaded, touched);
    let meta = metas[i];
    if store.contains_key(meta.address) {
        assert(store[meta.address].address == meta.address);
    }
    assert(merged[i].address == meta.address);
    assert(!merged[i].is_writable);
    assert(merged[i].data == touched[i].data);
    assert(loaded[i].data == loaded_data(store, meta.address));
    crate::policy::lemma_commit_refuses_unwritable_change(store, merged, i);
}

/// Funding moves the amount: the system account holds that much less and the
/// funded account that much more, where the sum fits, and every other
/// account is as it was.
pub proof fn lemma_fund_moves_balance(
    store: Map<Address, AccountView>,
    key: Address,
    owner: Address,
    amount: u64,
)
    requires
        store.contains_key(Address::system()),
        store[Address::system()].balance >= amount,
        key != Address::system(),
    ensures
        fund_spec(store, key, owner, amount) matches Ok(funded) && {
            &&& funded.contains_key(Address::system())
            &&& funded.contains_key(key)
            &&& funded[Address::system()].balance == store[Address::system()].balance - amount
            &&& store.contains_key(key) && store[key].balance + amount <= u64::MAX
                ==> funded[key].balance == store[key].balance + amount
            &&& !store.contains_key(key) ==> funded[key].balance == amount && funded[key].owner
                == owner
            &&& forall|a: Address|
                a != key && a != Address::system() ==> funded.contains_key(a) == store.contains_key(
                    a,
                ) && (store.contains_key(a) ==> funded[a] == store[a])
        },
{
}

/// Funding with more than the system account holds is refused.
pub proof fn lemma_fund_needs_balance(
    store: Map<Address, AccountView>,
    key: Address,
    owner: Address,
    amount: u64,
)
    requires
        store.contains_key(Address::system()),
        store[Address::system()].balance < amount,
    ensures
        fund_spec(store, key, owner, amount) == Err::<Map<Address, AccountView>, Error>(
            Error::InsufficientBalance,
        ),
{
}

/// An invocation leaves every account that the instruction does not name as
/// it was.
pub proof fn lemma_invocation_keeps_others(
    store: Map<Address, AccountView>,
    program_id: Address,
    metas: Seq<AccountMeta>,
    after: Map<Address, AccountView>,
    other: Address,
)
    requires
        keyed_by_address(store),
        committed_by_program(store, program_id, metas, after),
        forall|i: int| 0 <= i < metas.len() ==> metas[i].address != other,
    ensures
        after.contains_key(other) == store.contains_key(other),
        store.contains_key(other) ==> after[other] == store[other],
{
    let loaded = loaded_accounts(store, program_id, metas);
    let touched = choose|touched: Seq<AccountView>|
        commit_spec(store, #[trigger] reconciled(loaded, touched)) == Ok::<
            Map<Address, AccountView>,
            Error,
        >(after);
    let merged = reconciled(loaded, touched);
    assert forall|i: int| 0 <= i < merged.len() implies merged[i].address != other by {
        if store.contains_key(metas[i].address) {
            assert(store[metas[i].address].address == metas[i].address);
        }
        assert(merged[i].address == metas[i].address);
    }
    crate::policy::lemma_commit_all_keeps_others(store, merged, other);
}

} // verus!