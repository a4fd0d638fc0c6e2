//! Reference collections: an append-only, index-addressable list of pointers
//! to account records. Each slot is a proxy record at an address derived from
//! the collection's domain, its seed and the slot's index.

use vstd::prelude::*;
use vstd::bytes::{
    lemma_auto_spec_u32_to_from_le_bytes, lemma_auto_spec_u64_to_from_le_bytes,
    spec_u32_from_le_bytes, spec_u32_to_le_bytes, spec_u64_from_le_bytes, spec_u64_to_le_bytes,
    u32_from_le_bytes, u32_to_le_bytes, u64_from_le_bytes, u64_to_le_bytes,
};
use vstd::slice::slice_subrange;
use crate::account::{copy_bytes, views, AccountRecord, AccountView};
use crate::address::{
    address_of, derive_address, derive_spec, find_collision_free, find_spec, lemma_address_ext,
    lemma_address_of_view, seed_views, seeds_within_limits, with_bump, Address, MAX_SEED_LEN,
};
use crate::error::Error;
use crate::store::AccountStore;

verus! {

/// Appends the bytes of `src` to `dst`.
pub fn append_bytes(dst: &mut Vec<u8>, src: &Vec<u8>)
    ensures
        final(dst)@ == old(dst)@ + src@,
{
    let mut i: usize = 0;
    while i < src.len()
        invariant
            i <= src.len(),
            dst@ == old(dst)@ + src@.subrange(0, i as int),
        decreases src.len() - i,
    {
        dst.push(src[i]);
        assert(dst@ == old(dst)@ + src@.subrange(0, i + 1));
        i += 1;
    }
    assert(src@.subrange(0, src.len() as int) == src@);
}

/// The bytes of an address as a vector.
pub fn address_bytes(address: &Address) -> (r: Vec<u8>)
    ensures
        r@ == address@,
{
    let mut r: Vec<u8> = Vec::new();
    let mut i: usize = 0;
    while i < 32
        invariant
            i <= 32,
            r@ == address@.subrange(0, i as int),
        decreases 32 - i,
    {
        r.push(address.bytes[i]);
        assert(r@ == address@.subrange(0, i + 1));
        i += 1;
    }
    assert(address@.subrange(0, 32) == address@);
    r
}

/// The address whose bytes are the thirty-two bytes of `data` from `start`.
pub fn address_from_bytes(data: &Vec<u8>, start: usize) -> (a: Address)
    requires
        start + 32 <= data.len(),
    ensures
        a@ == data@.subrange(start as int, start + 32),
        a == address_of(data@.subrange(start as int, start + 32)),
{
    let mut bytes = [0u8; 32];
    let mut i: usize = 0;
    while i < 32
        invariant
            i <= 32,
            start + 32 <= data.len(),
            forall|k: int| 0 <= k < i ==> bytes@[k] == data@[start + k],
        decreases 32 - i,
    {
        bytes[i] = data[start + i];
        i += 1;
    }
    let a = Address { bytes };
    proof {
        assert(a@ =~= data@.subrange(start as int, start + 32));
        lemma_address_of_view(a);
    }
    a
}

/// Schema tag of a proxy record.
pub const PROXY_CONTAINER_TYPE: u32 = 0xffff_0001;

/// Number of data bytes in a proxy record: the tag and the target address.
pub const PROXY_DATA_LEN: usize = 36;

/// The record behind one slot of a collection. It stores the address of the
/// record that the slot refers to, and nothing else.
#[derive(Clone, Copy, Debug)]
pub struct Proxy {
    pub reference: Address,
}

impl Proxy {
    /// The data of a proxy that refers to `reference`.
    pub open spec fn spec_data(reference: Address) -> Seq<u8> {
        spec_u32_to_le_bytes(PROXY_CONTAINER_TYPE) + reference@
    }

    /// The address that proxy data refers to, if the data is that of a proxy.
    pub open spec fn spec_reference(data: Seq<u8>) -> Option<Address> {
        if data.len() == PROXY_DATA_LEN && spec_u32_from_le_bytes(data.subrange(0, 4))
            == PROXY_CONTAINER_TYPE {
            Some(address_of(data.subrange(4, 36)))
        } else {
            None
        }
    }

    /// Number of data bytes in a proxy record.
    pub fn data_len() -> (n: usize)
        ensures
            n == PROXY_DATA_LEN,
    {
        PROXY_DATA_LEN
    }

    /// Turns `account` into the proxy that refers to `reference`.
    pub fn try_create(account: &mut AccountRecord, reference: &Address) -> (proxy: Proxy)
        ensures
            proxy.reference == *reference,
            final(account)@ == (AccountView { data: Proxy::spec_data(*reference), ..old(account)@ }),
    {
        let mut data = u32_to_le_bytes(PROXY_CONTAINER_TYPE);
        let target = address_bytes(reference);
        append_bytes(&mut data, &target);
        account.data = data;
        Proxy { reference: *reference }
    }

    /// Reads `account` as a proxy.
    pub fn try_load(account: &AccountRecord) -> (r: Option<Proxy>)
        ensures
            match Proxy::spec_reference(account@.data) {
                Some(reference) => r matches Some(proxy) && proxy.reference == reference,
                None => r is None,
            },
    {
        if account.data.len() != PROXY_DATA_LEN {
            return None;
        }
        let tag = u32_from_le_bytes(slice_subrange(account.data.as_slice(), 0, 4));
        if tag != PROXY_CONTAINER_TYPE {
            return None;
        }
        Some(Proxy { reference: address_from_bytes(&account.data, 4) })
    }
}

/// The data of a proxy reads back as the address it was made for.
pub proof fn lemma_proxy_round_trip(reference: Address)
    ensures
        Proxy::spec_data(reference).len() == PROXY_DATA_LEN,
        Proxy::spec_reference(Proxy::spec_data(reference)) == Some(reference),
{
    lemma_auto_spec_u32_to_from_le_bytes();
    let data = Proxy::spec_data(reference);
    let tag = spec_u32_to_le_bytes(PROXY_CONTAINER_TYPE);
    assert(tag.len() == 4);
    assert(data.subrange(0, 4) =~= tag);
    assert(data.subrange(4, 36) =~= reference@);
    lemma_address_of_view(reference);
}

/// Number of bytes that an encoded header takes before the seed: the entry
/// count, a flag that tells whether a schema tag is set, and the tag.
pub const META_HEADER_LEN: usize = 13;

/// The header of a collection: how many entries it has, the seed that tells
/// it from other collections of the same domain, and the schema tag that
/// every member must carry, if one is set. The seed is at most
/// `MAX_SEED_LEN` bytes long.
#[derive(Debug)]
pub struct AccountCollectionMeta {
    len: u64,
    seed: Vec<u8>,
    container_type: Option<u32>,
}

/// The mathematical value of a header.
pub ghost struct MetaView {
    pub len: u64,
    pub seed: Seq<u8>,
    pub container_type: Option<u32>,
}

impl MetaView {
    /// The bytes that persist a header.
    pub open spec fn encode(self) -> Seq<u8> {
        spec_u64_to_le_bytes(self.len) + match self.container_type {
            Some(tag) => seq![1u8] + spec_u32_to_le_bytes(tag),
            None => seq![0u8] + spec_u32_to_le_bytes(0),
        } + self.seed
    }

    /// The header that bytes persist, if they persist one.
    pub open spec fn decode(bytes: Seq<u8>) -> Option<MetaView> {
        if bytes.len() < META_HEADER_LEN || bytes.len() > META_HEADER_LEN
            + MAX_SEED_LEN || bytes[8] > 1 {
            None
        } else {
            Some(
                MetaView {
                    len: spec_u64_from_le_bytes(bytes.subrange(0, 8)),
                    seed: bytes.subrange(13, bytes.len() as int),
                    container_type: if bytes[8] == 1 {
                        Some(spec_u32_from_le_bytes(bytes.subrange(9, 13)))
                    } else {
                        None
                    },
                },
            )
        }
    }
}

/// A header reads back from its bytes as it was written.
pub proof fn lemma_meta_round_trip(meta: MetaView)
    requires
        meta.seed.len() <= MAX_SEED_LEN,
    ensures
        meta.encode().len() == META_HEADER_LEN + meta.seed.len(),
        MetaView::decode(meta.encode()) == Some(meta),
{
    lemma_auto_spec_u32_to_from_le_bytes();
    lemma_auto_spec_u64_to_from_le_bytes();
    let bytes = meta.encode();
    let head = spec_u64_to_le_bytes(meta.len);
    assert(head.len() == 8);
    match meta.container_type {
        Some(tag) => {
            let t = spec_u32_to_le_bytes(tag);
            assert(t.len() == 4);
            assert(bytes =~= head + (seq![1u8] + t) + meta.seed);
            assert(bytes.subrange(0, 8) =~= head);
            assert(bytes[8] == 1u8);
            assert(bytes.subrange(9, 13) =~= t);
            assert(bytes.subrange(13, bytes.len() as int) =~= meta.seed);
        },
        None => {
            let t = spec_u32_to_le_bytes(0);
            assert(t.len() == 4);
            assert(bytes =~= head + (seq![0u8] + t) + meta.seed);
            assert(bytes.subrange(0, 8) =~= head);
            assert(bytes[8] == 0u8);
            assert(bytes.subrange(13, bytes.len() as int) =~= meta.seed);
        },
    }
}

impl View for AccountCollectionMeta {
    type V = MetaView;

    closed spec fn view(&self) -> MetaView {
        MetaView { len: self.len, seed: self.seed@, container_type: self.container_type }
    }
}

impl AccountCollectionMeta {
    #[verifier::type_invariant]
    closed spec fn seed_fits(self) -> bool {
        self.seed@.len() <= MAX_SEED_LEN
    }

    /// Least number of bytes that persist a header.
    pub fn min_data_len() -> (n: usize)
        ensures
            n == META_HEADER_LEN,
    {
        META_HEADER_LEN
    }

    /// The header of a new collection, without entries. A seed of more than
    /// `MAX_SEED_LEN` bytes is refused: the header has no room for it.
    pub fn try_create(seed: &Vec<u8>, container_type: Option<u32>) -> (r: Result<
        AccountCollectionMeta,
        Error,
    >)
        ensures
            match r {
                Ok(meta) => seed@.len() <= MAX_SEED_LEN && meta@ == (MetaView {
                    len: 0,
                    seed: seed@,
                    container_type,
                }),
                Err(e) => seed@.len() > MAX_SEED_LEN && e
                    == Error::MaxSeedLengthExceeded,
            },
    {
        if seed.len() > MAX_SEED_LEN {
            return Err(Error::MaxSeedLengthExceeded);
        }
        Ok(AccountCollectionMeta { len: 0, seed: copy_bytes(seed), container_type })
    }

    /// Reads a header from the bytes that persist it. Bytes that persist no
    /// header are reported as `NotFound`.
    pub fn try_load(bytes: &Vec<u8>) -> (r: Result<AccountCollectionMeta, Error>)
        ensures
            match MetaView::decode(bytes@) {
                Some(meta) => r matches Ok(loaded) && loaded@ == meta,
                None => r matches Err(e) && e == Error::NotFound,
            },
    {
        if bytes.len() < META_HEADER_LEN || bytes.len() > META_HEADER_LEN
            + MAX_SEED_LEN || bytes[8] > 1 {
            return Err(Error::NotFound);
        }
        let len = u64_from_le_bytes(slice_subrange(bytes.as_slice(), 0, 8));
        let container_type = if bytes[8] == 1 {
            Some(u32_from_le_bytes(slice_subrange(bytes.as_slice(), 9, 13)))
        } else {
            None
        };
        let mut seed: Vec<u8> = Vec::new();
        let mut i: usize = META_HEADER_LEN;
        while i < bytes.len()
            invariant
                META_HEADER_LEN <= i <= bytes.len(),
                bytes.len() <= META_HEADER_LEN + MAX_SEED_LEN,
                seed@ == bytes@.subrange(13, i as int),
            decreases bytes.len() - i,
        {
            seed.push(bytes[i]);
            assert(seed@ == bytes@.subrange(13, i + 1));
            i += 1;
        }
        Ok(AccountCollectionMeta { len, seed, container_type })
    }

    /// The bytes that persist the header.
    pub fn to_bytes(&self) -> (bytes: Vec<u8>)
        ensures
            bytes@ == self@.encode(),
    {
        let mut bytes = u64_to_le_bytes(self.len);
        match self.container_type {
            Some(tag) => {
                bytes.push(1u8);
                let t = u32_to_le_bytes(tag);
                append_bytes(&mut bytes, &t);
            },
            None => {
                bytes.push(0u8);
                let t = u32_to_le_bytes(0);
                append_bytes(&mut bytes, &t);
            },
        }
        append_bytes(&mut bytes, &self.seed);
        assert(bytes@ =~= self@.encode());
        bytes
    }

    /// Number of entries.
    pub fn get_len(&self) -> (n: u64)
        ensures
            n == self@.len,
    {
        self.len
    }

    /// Sets the number of entries.
    pub fn set_len(&mut self, len: u64)
        ensures
            final(self)@ == (MetaView { len, ..old(self)@ }),
    {
        proof {
            use_type_invariant(&*self);
        }
        self.len = len;
    }

    /// The seed of the collection.
    pub fn get_seed(&self) -> (seed: Vec<u8>)
        ensures
            seed@ == self@.seed,
            seed@.len() <= MAX_SEED_LEN,
    {
        proof {
            use_type_invariant(self);
        }
        copy_bytes(&self.seed)
    }

    /// The schema tag that members must carry, if one is set.
    pub fn get_container_type(&self) -> (t: Option<u32>)
        ensures
            t == self@.container_type,
    {
        self.container_type
    }
}

/// The byte string that stands for slot `index` of a collection: the domain,
/// the collection's seed and the index in eight little-endian bytes.
pub open spec fn proxy_seed(domain: Address, seed: Seq<u8>, index: u64) -> Seq<u8> {
    domain@ + seed + spec_u64_to_le_bytes(index)
}

/// The seeds from which the address of slot `index` is derived: the domain,
/// the collection's seed and the index in eight little-endian bytes.
pub open spec fn proxy_seeds(domain: Address, seed: Seq<u8>, index: u64) -> Seq<Seq<u8>> {
    seq![domain@, seed, spec_u64_to_le_bytes(index)]
}

/// Two slots with the same byte string are the same slot of the same
/// collection: a change of the domain, of the seed or of the index changes
/// the bytes from which the slot's address is derived.
pub proof fn lemma_proxy_seed_injective(
    domain_a: Address,
    seed_a: Seq<u8>,
    index_a: u64,
    domain_b: Address,
    seed_b: Seq<u8>,
    index_b: u64,
)
    requires
        proxy_seed(domain_a, seed_a, index_a) == proxy_seed(domain_b, seed_b, index_b),
    ensures
        domain_a == domain_b,
        seed_a == seed_b,
        index_a == index_b,
{
    lemma_auto_spec_u64_to_from_le_bytes();
    let a = proxy_seed(domain_a, seed_a, index_a);
    let b = proxy_seed(domain_b, seed_b, index_b);
    let ia = spec_u64_to_le_bytes(index_a);
    let ib = spec_u64_to_le_bytes(index_b);
    assert(a.len() == 32 + seed_a.len() + 8);
    assert(b.len() == 32 + seed_b.len() + 8);
    assert(seed_a.len() == seed_b.len());
    assert(a.subrange(0, 32) =~= domain_a@);
    assert(b.subrange(0, 32) =~= domain_b@);
    lemma_address_ext(domain_a, domain_b);
    let mid = 32 + seed_a.len() as int;
    assert(a.subrange(32, mid) =~= seed_a);
    assert(b.subrange(32, mid) =~= seed_b);
    assert(a.subrange(mid, a.len() as int) =~= ia);
    assert(b.subrange(mid, b.len() as int) =~= ib);
    assert(spec_u64_from_le_bytes(ia) == index_a);
    assert(spec_u64_from_le_bytes(ib) == index_b);
}

/// Two slots with the same seeds are the same slot of the same collection.
pub proof fn lemma_proxy_seeds_injective(
    domain_a: Address,
    seed_a: Seq<u8>,
    index_a: u64,
    domain_b: Address,
    seed_b: Seq<u8>,
    index_b: u64,
)
    requires
        proxy_seeds(domain_a, seed_a, index_a) == proxy_seeds(domain_b, seed_b, index_b),
    ensures
        domain_a == domain_b,
        seed_a == seed_b,
        index_a == index_b,
{
    lemma_auto_spec_u64_to_from_le_bytes();
    let a = proxy_seeds(domain_a, seed_a, index_a);
    let b = proxy_seeds(domain_b, seed_b, index_b);
    assert(a[0] == b[0]);
    assert(a[1] == b[1]);
    assert(a[2] == b[2]);
    lemma_address_ext(domain_a, domain_b);
    assert(spec_u64_from_le_bytes(spec_u64_to_le_bytes(index_a)) == index_a);
    assert(spec_u64_from_le_bytes(spec_u64_to_le_bytes(index_b)) == index_b);
}

/// What a program works on: its own address and the working copies of the
/// accounts that the instruction names.
#[derive(Debug)]
pub struct Context {
    pub program_id: Address,
    pub accounts: Vec<AccountRecord>,
}

/// Whether `position` is the first at which `address` stands.
pub open spec fn is_first_position(accounts: Seq<AccountView>, address: Address, position: int) -> bool {
    &&& 0 <= position < accounts.len()
    &&& accounts[position].address == address
    &&& forall|k: int| 0 <= k < position ==> accounts[k].address != address
}

/// Whether an account stands at `address`.
pub open spec fn names(accounts: Seq<AccountView>, address: Address) -> bool {
    exists|k: int| 0 <= k < accounts.len() && accounts[k].address == address
}

/// The first position at which `address` stands.
pub open spec fn first_position(accounts: Seq<AccountView>, address: Address) -> int {
    choose|position: int| is_first_position(accounts, address, position)
}

impl Context {
    /// Where the working copy of `address` stands, if the context holds one.
    pub fn locate_index_account(&self, address: &Address) -> (r: Option<usize>)
        ensures
            match r {
                Some(position) => is_first_position(views(self.accounts@), *address, position as int)
                    && position as int == first_position(views(self.accounts@), *address),
                None => !names(views(self.accounts@), *address),
            },
    {
        let mut i: usize = 0;
        while i < self.accounts.len()
            invariant
                i <= self.accounts.len(),
                forall|k: int| 0 <= k < i ==> views(self.accounts@)[k].address != *address,
            decreases self.accounts.len() - i,
        {
            if self.accounts[i].address == *address {
                proof {
                    let all = views(self.accounts@);
                    assert(is_first_position(all, *address, i as int));
                    let p = first_position(all, *address);
                    assert(is_first_position(all, *address, p));
                    if p < i {
                        assert(all[p].address != *address);
                    } else if i < p {
                        assert(all[i as int].address != *address);
                    }
                }
                return Some(i);
            }
            i += 1;
        }
        None
    }
}

/// What an insertion makes of the working copies, or why it is refused.
///
/// The member must carry the schema tag that the collection is bound to, if
/// it is bound to one. The slot is the one after the last: its address is
/// derived from the collection's seeds for that index and the bump. The
/// context must hold a working copy at that address, and that copy becomes
/// the proxy of the member.
pub open spec fn insert_spec(
    meta: MetaView,
    domain: Address,
    program_id: Address,
    accounts: Seq<AccountView>,
    bump: u8,
    member: AccountView,
) -> Result<Seq<AccountView>, Error> {
    if meta.container_type is Some && member.container_type() != meta.container_type {
        Err(Error::ContainerTypeMismatch)
    } else if meta.len == u64::MAX {
        Err(Error::CollectionFull)
    } else {
        match derive_spec(
            with_bump(proxy_seeds(domain, meta.seed, (meta.len + 1) as u64), bump),
            program_id,
        ) {
            Err(e) => Err(e),
            Ok(slot) => if !names(accounts, slot) {
                Err(Error::CollectionSlotNotFound)
            } else {
                let position = first_position(accounts, slot);
                Ok(
                    accounts.update(
                        position,
                        AccountView {
                            data: Proxy::spec_data(member.address),
                            ..accounts[position]
                        },
                    ),
                )
            },
        }
    }
}

/// What resolving a slot yields: nothing, if the store holds no proxy at the
/// slot's address; else the record that the proxy refers to, if the store
/// holds it with the expected schema tag.
pub open spec fn resolve_spec(
    store: Map<Address, AccountView>,
    slot: Address,
    container_type: u32,
) -> Result<Option<AccountView>, Error> {
    if !store.contains_key(slot) {
        Ok(None)
    } else {
        match Proxy::spec_reference(store[slot].data) {
            None => Err(Error::ProxyNotFound),
            Some(target) => if store.contains_key(target) && store[target].container_type()
                == Some(container_type) {
                Ok(Some(store[target]))
            } else {
                Err(Error::ProxyNotFound)
            },
        }
    }
}

/// What loading an entry yields, given what the search for the slot's
/// address came to.
pub open spec fn entry_spec(
    store: Map<Address, AccountView>,
    found: Result<(Address, u8), Error>,
    container_type: u32,
) -> Result<Option<AccountView>, Error> {
    match found {
        Err(e) => Err(e),
        Ok((slot, _)) => resolve_spec(store, slot, container_type),
    }
}

/// Whether a loaded entry has the given value.
pub open spec fn same_entry(
    entry: Result<Option<AccountRecord>, Error>,
    value: Result<Option<AccountView>, Error>,
) -> bool {
    match (entry, value) {
        (Ok(Some(record)), Ok(Some(account))) => record@ == account,
        (Ok(None), Ok(None)) => true,
        (Err(e), Err(f)) => e == f,
        _ => false,
    }
}

/// Whether `entry` is what loading slot `index` yields.
pub open spec fn is_entry_at(
    store: Map<Address, AccountView>,
    domain: Address,
    seed: Seq<u8>,
    program_id: Address,
    index: u64,
    container_type: u32,
    entry: Result<Option<AccountRecord>, Error>,
) -> bool {
    exists|found: Result<(Address, u8), Error>|
        #[trigger] find_spec(proxy_seeds(domain, seed, index), program_id, found) && same_entry(
            entry,
            entry_spec(store, found, container_type),
        )
}

/// Resolves the slot at `slot`: follows its proxy to the record that it
/// refers to.
pub fn resolve(store: &AccountStore, slot: &Address, container_type: u32) -> (r: Result<
    Option<AccountRecord>,
    Error,
>)
    ensures
        same_entry(r, resolve_spec(store@, *slot, container_type)),
{
    let proxy_record = match store.lookup(slot) {
        Some(record) => record,
        None => {
            return Ok(None);
        },
    };
    let proxy = match Proxy::try_load(&proxy_record) {
        Some(proxy) => proxy,
        None => {
            return Err(Error::ProxyNotFound);
        },
    };
    match store.lookup(&proxy.reference) {
        Some(target) => {
            match target.container_type() {
                Some(tag) => {
                    if tag == container_type {
                        Ok(Some(target))
                    } else {
                        Err(Error::ProxyNotFound)
                    }
                },
                None => Err(Error::ProxyNotFound),
            }
        },
        None => Err(Error::ProxyNotFound),
    }
}

/// The outcome of a search that found `slot` with `bump`.
pub open spec fn found_with(slot: Address, bump: u8) -> Result<(Address, u8), Error> {
    Ok((slot, bump))
}

/// Whether `r` is the address that the search for a bump seed finds for
/// `seeds`, or the reason why it finds none.
pub open spec fn is_slot_address(seeds: Seq<Seq<u8>>, program: Address, r: Result<Address, Error>) -> bool {
    match r {
        Ok(slot) => exists|bump: u8| find_spec(seeds, program, #[trigger] found_with(slot, bump)),
        Err(e) => find_spec(seeds, program, Err(e)),
    }
}

/// An append-only list of references to account records.
pub struct AccountReferenceCollection {
    domain: Address,
    meta: AccountCollectionMeta,
}

impl AccountReferenceCollection {
    /// The header of the collection.
    pub closed spec fn meta_view(&self) -> MetaView {
        self.meta@
    }

    /// The address that tells the collections of one owner from those of
    /// another.
    pub closed spec fn spec_domain(&self) -> Address {
        self.domain
    }

    /// The address that tells the collections of one owner from those of
    /// another.
    pub fn domain(&self) -> (d: Address)
        ensures
            d == self.spec_domain(),
    {
        self.domain
    }

    /// Number of entries.
    pub open spec fn spec_len(&self) -> u64 {
        self.meta_view().len
    }

    fn try_create(domain: &Address, seed: &Vec<u8>, container_type: Option<u32>) -> (r: Result<
        AccountReferenceCollection,
        Error,
    >)
        ensures
            match r {
                Ok(c) => seed@.len() <= MAX_SEED_LEN && c.spec_domain() == *domain
                    && c.meta_view() == (MetaView { len: 0, seed: seed@, container_type }),
                Err(e) => seed@.len() > MAX_SEED_LEN && e
                    == Error::MaxSeedLengthExceeded,
            },
    {
        match AccountCollectionMeta::try_create(seed, container_type) {
            Ok(meta) => Ok(AccountReferenceCollection { domain: *domain, meta }),
            Err(e) => Err(e),
        }
    }

    fn try_load(domain: &Address, meta: AccountCollectionMeta) -> (r: Result<
        AccountReferenceCollection,
        Error,
    >)
        ensures
            r matches Ok(c) && c.spec_domain() == *domain && c.meta_view() == meta@,
    {
        Ok(AccountReferenceCollection { domain: *domain, meta })
    }

    /// Least number of bytes that persist the header of a collection.
    pub fn data_len_min() -> (n: usize)
        ensures
            n == META_HEADER_LEN,
    {
        AccountCollectionMeta::min_data_len()
    }

    /// A new collection under `domain`, without entries. A seed of more than
    /// `MAX_SEED_LEN` bytes is refused.
    pub fn try_create_from_meta(domain: &Address, seed: &Vec<u8>, container_type: Option<u32>) -> (r:
        Result<AccountReferenceCollection, Error>)
        ensures
            match r {
                Ok(c) => seed@.len() <= MAX_SEED_LEN && c.spec_domain() == *domain
                    && c.meta_view() == (MetaView { len: 0, seed: seed@, container_type }),
                Err(e) => seed@.len() > MAX_SEED_LEN && e
                    == Error::MaxSeedLengthExceeded,
            },
    {
        AccountReferenceCollection::try_create(domain, seed, container_type)
    }

    /// The collection under `domain` that has the header `meta`.
    pub fn try_load_from_meta(domain: &Address, meta: AccountCollectionMeta) -> (r: Result<
        AccountReferenceCollection,
        Error,
    >)
        ensures
            r matches Ok(c) && c.spec_domain() == *domain && c.meta_view() == meta@,
    {
        AccountReferenceCollection::try_load(domain, meta)
    }

    /// A new collection under `domain`, without entries, whose header is
    /// written to `segment` in place of what the segment held. A seed of
    /// more than `MAX_SEED_LEN` bytes is refused, and the segment is then
    /// left as it was.
    pub fn try_create_from_segment(
        domain: &Address,
        segment: &mut Vec<u8>,
        seed: &Vec<u8>,
        container_type: Option<u32>,
    ) -> (r: Result<AccountReferenceCollection, Error>)
        ensures
            match r {
                Ok(c) => {
                    &&& seed@.len() <= MAX_SEED_LEN
                    &&& c.spec_domain() == *domain
                    &&& c.meta_view() == (MetaView { len: 0, seed: seed@, container_type })
                    &&& final(segment)@ == c.meta_view().encode()
                },
                Err(e) => {
                    &&& seed@.len() > MAX_SEED_LEN
                    &&& e == Error::MaxSeedLengthExceeded
                    &&& final(segment)@ == old(segment)@
                },
            },
    {
        match AccountReferenceCollection::try_create(domain, seed, container_type) {
            Ok(c) => {
                *segment = c.meta.to_bytes();
                Ok(c)
            },
            Err(e) => Err(e),
        }
    }

    /// The collection under `domain` whose header `segment` persists. A
    /// segment that persists no header is reported as `NotFound`.
    pub fn try_load_from_segment(domain: &Address, segment: &Vec<u8>) -> (r: Result<
        AccountReferenceCollection,
        Error,
    >)
        ensures
            match MetaView::decode(segment@) {
                Some(meta) => r matches Ok(c) && c.spec_domain() == *domain && c.meta_view() == meta,
                None => r matches Err(e) && e == Error::NotFound,
            },
    {
        match AccountCollectionMeta::try_load(segment) {
            Ok(meta) => AccountReferenceCollection::try_load(domain, meta),
            Err(e) => Err(e),
        }
    }

    /// Writes the header to `segment` in place of what the segment held.
    pub fn save_to_segment(&self, segment: &mut Vec<u8>)
        ensures
            final(segment)@ == self.meta_view().encode(),
    {
        *segment = self.meta.to_bytes();
    }

    /// Number of entries.
    pub fn len(&self) -> (n: u64)
        ensures
            n == self.spec_len(),
    {
        self.meta.get_len()
    }

    /// The byte string that stands for slot `idx`.
    pub fn get_proxy_seed_at(&self, idx: u64) -> (bytes: Vec<u8>)
        ensures
            bytes@ == proxy_seed(self.spec_domain(), self.meta_view().seed, idx),
    {
        let mut bytes = address_bytes(&self.domain);
        let seed = self.meta.get_seed();
        append_bytes(&mut bytes, &seed);
        let index_bytes = u64_to_le_bytes(idx);
        append_bytes(&mut bytes, &index_bytes);
        bytes
    }

    /// The seeds from which the address of slot `idx` is derived. With one
    /// more seed for a bump they keep to the limits of a derivation.
    pub fn get_proxy_seeds_at(&self, idx: u64) -> (seeds: Vec<Vec<u8>>)
        ensures
            seed_views(seeds@) == proxy_seeds(self.spec_domain(), self.meta_view().seed, idx),
            forall|bump: u8|
                seeds_within_limits(
                    #[trigger] with_bump(seed_views(seeds@), bump),
                ),
    {
        let mut seeds: Vec<Vec<u8>> = Vec::new();
        seeds.push(address_bytes(&self.domain));
        seeds.push(self.meta.get_seed());
        seeds.push(u64_to_le_bytes(idx));
        proof {
            assert(seed_views(seeds@) =~= proxy_seeds(self.spec_domain(), self.meta_view().seed, idx));
            assert forall|bump: u8|
                seeds_within_limits(
                    #[trigger] with_bump(seed_views(seeds@), bump),
                ) by {
                let all = with_bump(seed_views(seeds@), bump);
                assert(all.len() == 4);
                assert(all[0].len() == 32);
                assert(all[1].len() <= 32);
                assert(all[2].len() == 8);
                assert(all[3].len() == 1);
            }
        }
        seeds
    }

    /// The address of slot `idx` with the bump that yields it.
    pub fn get_proxy_pda_at(&self, program_id: &Address, idx: u64) -> (r: Result<(Address, u8), Error>)
        ensures
            find_spec(proxy_seeds(self.spec_domain(), self.meta_view().seed, idx), *program_id, r),
            r matches Err(e) ==> e == Error::AddressSpaceExhausted,
    {
        let seeds = self.get_proxy_seeds_at(idx);
        assert(seeds_within_limits(with_bump(seed_views(seeds@), 0)));
        find_collision_free(&seeds, program_id)
    }

    /// The address of slot `idx`.
    pub fn get_proxy_pubkey_at(&self, program_id: &Address, idx: u64) -> (r: Result<Address, Error>)
        ensures
            is_slot_address(
                proxy_seeds(self.spec_domain(), self.meta_view().seed, idx),
                *program_id,
                r,
            ),
            r matches Err(e) ==> e == Error::AddressSpaceExhausted,
    {
        match self.get_proxy_pda_at(program_id, idx) {
            Ok((slot, bump)) => {
                assert(find_spec(
                    proxy_seeds(self.spec_domain(), self.meta_view().seed, idx),
                    *program_id,
                    found_with(slot, bump),
                ));
                Ok(slot)
            },
            Err(e) => Err(e),
        }
    }

    /// Appends a reference to `container`: the working copy at the address
    /// of the next slot becomes the proxy of `container`, and the entry
    /// count goes up by one. A refused insertion changes nothing.
    ///
    /// Slots are numbered from one: the first entry stands in slot one, and
    /// slot zero is never filled.
    pub fn try_insert_reference(&mut self, ctx: &mut Context, bump: u8, container: &AccountRecord) -> (r:
        Result<(), Error>)
        ensures
            final(self).spec_domain() == old(self).spec_domain(),
            final(ctx).program_id == old(ctx).program_id,
            r is Ok ==> final(self).spec_len() == old(self).spec_len() + 1,
            r is Err ==> final(self).spec_len() == old(self).spec_len(),
            old(self).meta_view().container_type is Some && container@.container_type() != old(
                self,
            ).meta_view().container_type ==> r == Err::<(), Error>(Error::ContainerTypeMismatch),
            match insert_spec(
                old(self).meta_view(),
                old(self).spec_domain(),
                old(ctx).program_id,
                views(old(ctx).accounts@),
                bump,
                container@,
            ) {
                Ok(accounts) => {
                    &&& r is Ok
                    &&& views(final(ctx).accounts@) == accounts
                    &&& final(self).meta_view() == (MetaView {
                        len: (old(self).spec_len() + 1) as u64,
                        ..old(self).meta_view()
                    })
                },
                Err(e) => {
                    &&& r == Err::<(), Error>(e)
                    &&& views(final(ctx).accounts@) == views(old(ctx).accounts@)
                    &&& final(self).meta_view() == old(self).meta_view()
                },
            },
    {
        match self.meta.get_container_type() {
            Some(container_type) => {
                let matches_type = match container.container_type() {
                    Some(tag) => tag == container_type,
                    None => false,
                };
                if !matches_type {
                    return Err(Error::ContainerTypeMismatch);
                }
            },
            None => {},
        }
        let len = self.meta.get_len();
        if len == u64::MAX {
            return Err(Error::CollectionFull);
        }
        let next_index = len + 1;
        let mut seeds = self.get_proxy_seeds_at(next_index);
        let mut bump_seed: Vec<u8> = Vec::new();
        bump_seed.push(bump);
        let ghost without = seed_views(seeds@);
        seeds.push(bump_seed);
        assert(seed_views(seeds@) =~= with_bump(without, bump));
        let slot = match derive_address(&seeds, &ctx.program_id) {
            Ok(slot) => slot,
            Err(e) => {
                return Err(e);
            },
        };
        let position = match ctx.locate_index_account(&slot) {
            Some(position) => position,
            None => {
                return Err(Error::CollectionSlotNotFound);
            },
        };
        let ghost before = views(ctx.accounts@);
        let mut accounts: Vec<AccountRecord> = Vec::new();
        core::mem::swap(&mut ctx.accounts, &mut accounts);
        let mut slot_account = accounts[position].clone();
        Proxy::try_create(&mut slot_account, &container.address);
        accounts.set(position, slot_account);
        ctx.accounts = accounts;
        assert(views(ctx.accounts@) =~= before.update(
            position as int,
            AccountView { data: Proxy::spec_data(container.address), ..before[position as int] },
        ));
        self.meta.set_len(next_index);
        Ok(())
    }

    /// Loads the record that slot `idx` refers to: `None` if the store holds
    /// no proxy at the slot's address, `ProxyNotFound` if the proxy does not
    /// lead to a record with the schema tag `container_type`.
    pub fn load_container_at(
        &self,
        program_id: &Address,
        idx: u64,
        store: &AccountStore,
        container_type: u32,
    ) -> (r: Result<Option<AccountRecord>, Error>)
        ensures
            is_entry_at(
                store@,
                self.spec_domain(),
                self.meta_view().seed,
                *program_id,
                idx,
                container_type,
                r,
            ),
    {
        let found = self.get_proxy_pda_at(program_id, idx);
        let r = match found {
            Ok((slot, bump)) => resolve(store, &slot, container_type),
            Err(e) => Err(e),
        };
        proof {
            assert(find_spec(proxy_seeds(self.spec_domain(), self.meta_view().seed, idx), *program_id, found));
            assert(same_entry(r, entry_spec(store@, found, container_type)));
        }
        r
    }

    /// Loads the records that the slots from `start` up to, not including,
    /// `end` refer to. The results stand in the order of the slots.
    pub fn load_container_range(
        &self,
        program_id: &Address,
        start: u64,
        end: u64,
        store: &AccountStore,
        container_type: u32,
    ) -> (r: Vec<Result<Option<AccountRecord>, Error>>)
        requires
            end - start <= usize::MAX,
        ensures
            r@.len() == if start <= end {
                end - start
            } else {
                0
            },
            forall|k: int|
                0 <= k < r@.len() ==> is_entry_at(
                    store@,
                    self.spec_domain(),
                    self.meta_view().seed,
                    *program_id,
                    (start + k) as u64,
                    container_type,
                    #[trigger] r@[k],
                ),
    {
        let mut r: Vec<Result<Option<AccountRecord>, Error>> = Vec::new();
        let mut idx: u64 = start;
        while idx < end
            invariant
                start <= idx <= end || (end < start && idx == start),
                end - start <= usize::MAX,
                r@.len() == idx - start,
                forall|k: int|
                    0 <= k < r@.len() ==> is_entry_at(
                        store@,
                        self.spec_domain(),
                        self.meta_view().seed,
                        *program_id,
                        (start + k) as u64,
                        container_type,
                        #[trigger] r@[k],
                    ),
            decreases end - idx,
        {
            let entry = self.load_container_at(program_id, idx, store, container_type);
            r.push(entry);
            idx += 1;
        }
        r
    }
}

/// An entry that was inserted is found again. Where the search for the next
/// slot finds `slot` with `bump`, an insertion with that bump turns the
/// working copy at `slot` into the proxy of the member; and in every store
/// that holds this proxy at `slot` and the member under its own address, the
/// slot resolves to the member, if the member carries the expected tag.
pub proof fn lemma_inserted_entry_resolves(
    meta: MetaView,
    domain: Address,
    program_id: Address,
    accounts: Seq<AccountView>,
    slot: Address,
    bump: u8,
    member: AccountView,
    store: Map<Address, AccountView>,
    container_type: u32,
)
    requires
        meta.len < u64::MAX,
        meta.container_type is Some ==> member.container_type() == meta.container_type,
        find_spec(
            proxy_seeds(domain, meta.seed, (meta.len + 1) as u64),
            program_id,
            found_with(slot, bump),
        ),
        names(accounts, slot),
        store.contains_key(slot),
        store[slot].data == Proxy::spec_data(member.address),
        store.contains_key(member.address),
        store[member.address].container_type() == Some(container_type),
    ensures
        insert_spec(meta, domain, program_id, accounts, bump, member) matches Ok(inserted) && {
            &&& inserted.len() == accounts.len()
            &&& inserted[first_position(accounts, slot)].address == slot
            &&& inserted[first_position(accounts, slot)].data == Proxy::spec_data(member.address)
        },
        entry_spec(store, found_with(slot, bump), container_type) == Ok::<
            Option<AccountView>,
            Error,
        >(Some(store[member.address])),
{
    lemma_proxy_round_trip(member.address);
    let position = first_position(accounts, slot);
    let k = choose|k: int| 0 <= k < accounts.len() && accounts[k].address == slot;
    lemma_first_position_exists(accounts, slot, k);
    assert(is_first_position(accounts, slot, position));
}

/// Where an address stands at some position, it has a first position.
pub proof fn lemma_first_position_exists(accounts: Seq<AccountView>, address: Address, k: int)
    requires
        0 <= k < accounts.len(),
        accounts[k].address == address,
    ensures
        is_first_position(accounts, address, first_position(accounts, address)),
    decreases k,
{
    if exists|j: int| 0 <= j < k && accounts[j].address == address {
        let j = choose|j: int| 0 <= j < k && accounts[j].address == address;
        lemma_first_position_exists(accounts, address, j);
    } else {
        assert(is_first_position(accounts, address, k));
    }
}

} // verus!