//! Account records and the instructions that name them.

use vstd::prelude::*;
use vstd::bytes::{spec_u32_from_le_bytes, u32_from_le_bytes};
use vstd::slice::slice_subrange;
use crate::address::Address;

verus! {

/// The unit of ledger state: who holds it, who may change it, what it stores
/// and how much value it carries. The two flags are the authorisation that the
/// instruction at hand grants; they are not part of the durable state.
#[derive(Debug)]
pub struct AccountRecord {
    pub address: Address,
    pub owner: Address,
    pub data: Vec<u8>,
    pub balance: u64,
    pub is_signer: bool,
    pub is_writable: bool,
}

/// The mathematical value of an [`AccountRecord`].
pub ghost struct AccountView {
    pub address: Address,
    pub owner: Address,
    pub data: Seq<u8>,
    pub balance: u64,
    pub is_signer: bool,
    pub is_writable: bool,
}

impl View for AccountRecord {
    type V = AccountView;

    open spec fn view(&self) -> AccountView {
        AccountView {
            address: self.address,
            owner: self.owner,
            data: self.data@,
            balance: self.balance,
            is_signer: self.is_signer,
            is_writable: self.is_writable,
        }
    }
}

impl AccountView {
    /// An account that stores nothing and holds nothing.
    pub open spec fn template(address: Address, owner: Address) -> AccountView {
        AccountView {
            address,
            owner,
            data: Seq::empty(),
            balance: 0,
            is_signer: false,
            is_writable: false,
        }
    }

    /// The same account with both authorisation flags cleared.
    pub open spec fn durable(self) -> AccountView {
        AccountView { is_signer: false, is_writable: false, ..self }
    }

    /// The same account with the flags that an instruction grants.
    pub open spec fn with_flags(self, is_signer: bool, is_writable: bool) -> AccountView {
        AccountView { is_signer, is_writable, ..self }
    }

    /// An account without data and without balance counts as absent.
    pub open spec fn is_vacant(self) -> bool {
        self.data.len() == 0 && self.balance == 0
    }

    /// The schema tag: the first four bytes of the data, little-endian.
    pub open spec fn container_type(self) -> Option<u32> {
        if self.data.len() >= 4 {
            Some(spec_u32_from_le_bytes(self.data.subrange(0, 4)))
        } else {
            None
        }
    }
}

/// The values of a list of records.
pub open spec fn views(accounts: Seq<AccountRecord>) -> Seq<AccountView> {
    Seq::new(accounts.len(), |i: int| accounts[i]@)
}

/// Copies a byte vector.
pub fn copy_bytes(bytes: &Vec<u8>) -> (r: Vec<u8>)
    ensures
        r@ == bytes@,
{
    let mut r: Vec<u8> = Vec::new();
    let mut i: usize = 0;
    while i < bytes.len()
        invariant
            i <= bytes.len(),
            r@ == bytes@.subrange(0, i as int),
        decreases bytes.len() - i,
    {
        r.push(bytes[i]);
        assert(r@ == bytes@.subrange(0, i + 1));
        i += 1;
    }
    assert(bytes@.subrange(0, bytes.len() as int) == bytes@);
    r
}

impl Clone for AccountRecord {
    fn clone(&self) -> (r: AccountRecord)
        ensures
            r@ == self@,
    {
        AccountRecord {
            address: self.address,
            owner: self.owner,
            data: copy_bytes(&self.data),
            balance: self.balance,
            is_signer: self.is_signer,
            is_writable: self.is_writable,
        }
    }
}

impl AccountRecord {
    /// An empty record at `address`, owned by `program_id`, for a program to
    /// fill in.
    pub fn new_template_for_program(address: Address, program_id: Address) -> (r: AccountRecord)
        ensures
            r@ == AccountView::template(address, program_id),
    {
        AccountRecord {
            address,
            owner: program_id,
            data: Vec::new(),
            balance: 0,
            is_signer: false,
            is_writable: false,
        }
    }

    /// An empty record at `address` with the given owner.
    pub fn new_static(address: Address, owner: Address) -> (r: AccountRecord)
        ensures
            r@ == AccountView::template(address, owner),
    {
        AccountRecord::new_template_for_program(address, owner)
    }

    /// Number of data bytes.
    pub fn data_len(&self) -> (n: usize)
        ensures
            n == self@.data.len(),
    {
        self.data.len()
    }

    /// The schema tag of the data, if the data is long enough to carry one.
    pub fn container_type(&self) -> (t: Option<u32>)
        ensures
            t == self@.container_type(),
    {
        if self.data.len() >= 4 {
            let head = slice_subrange(self.data.as_slice(), 0, 4);
            Some(u32_from_le_bytes(head))
        } else {
            None
        }
    }

    /// A working copy for a program: the flags are kept.
    pub fn clone_for_program(&self) -> (r: AccountRecord)
        ensures
            r@ == self@,
    {
        self.clone()
    }

    /// The durable form: the same state with both flags cleared.
    pub fn clone_for_storage(&self) -> (r: AccountRecord)
        ensures
            r@ == self@.durable(),
    {
        AccountRecord {
            address: self.address,
            owner: self.owner,
            data: copy_bytes(&self.data),
            balance: self.balance,
            is_signer: false,
            is_writable: false,
        }
    }
}

/// One account named by an instruction, with the authorisation it is given.
#[derive(Clone, Copy, Debug)]
pub struct AccountMeta {
    pub address: Address,
    pub is_signer: bool,
    pub is_writable: bool,
}

/// A request to run one program on a list of accounts.
#[derive(Debug)]
pub struct Instruction {
    pub program_id: Address,
    pub accounts: Vec<AccountMeta>,
    pub data: Vec<u8>,
}

} // verus!
