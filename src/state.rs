//! The global record: which slot holds each owner's access list, and its
//! byte layout (a little-endian u32 count, then each owner and slot key).
use crate::codec::{same_identity, Identity};
use crate::error::DecodeError;
use vstd::prelude::*;

verus! {

/// One registration: an owner and the slot that holds the owner's list.
pub type StateEntry = (Identity, Identity);

/// The four little-endian bytes of a count.
#[verifier::opaque]
pub open spec fn le32(n: nat) -> Seq<u8> {
    seq![
        (n % 256) as u8,
        ((n / 256) % 256) as u8,
        ((n / 65536) % 256) as u8,
        ((n / 16777216) % 256) as u8,
    ]
}

/// The count that the first four bytes of `b` hold, little-endian.
pub open spec fn le32_value(b: Seq<u8>) -> nat {
    (b[0] + 256 * b[1] + 65536 * b[2] + 16777216 * b[3]) as nat
}

/// Each entry's owner bytes, then its slot bytes, in order.
pub open spec fn entries_bytes(e: Seq<StateEntry>) -> Seq<u8>
    decreases e.len(),
{
    if e.len() == 0 {
        Seq::empty()
    } else {
        entries_bytes(e.drop_last()) + e.last().0@ + e.last().1@
    }
}

/// The bytes of a global record with the entries `e`.
pub open spec fn state_bytes(e: Seq<StateEntry>) -> Seq<u8> {
    le32(e.len()) + entries_bytes(e)
}

/// No owner is registered twice.
pub open spec fn owners_unique(e: Seq<StateEntry>) -> bool {
    forall|i: int, j: int| 0 <= i < j < e.len() ==> e[i].0 != e[j].0
}

/// `e` is a well-formed record whose bytes are `b`.
pub open spec fn is_state_image(e: Seq<StateEntry>, b: Seq<u8>) -> bool {
    &&& e.len() <= u32::MAX
    &&& owners_unique(e)
    &&& state_bytes(e) == b
}

/// The entries that the bytes `b` hold, if `b` is a well-formed record.
pub open spec fn state_of(b: Seq<u8>) -> Option<Seq<StateEntry>> {
    if exists|e: Seq<StateEntry>| is_state_image(e, b) {
        Some(choose|e: Seq<StateEntry>| is_state_image(e, b))
    } else {
        None
    }
}

/// Reading back the four bytes of a count gives the count.
pub proof fn lemma_le32_round_trip(n: nat)
    requires
        n <= u32::MAX,
    ensures
        le32(n).len() == 4,
        le32_value(le32(n)) == n,
{
    reveal(le32);
    assert(n == (n % 256) + 256 * ((n / 256) % 256) + 65536 * ((n / 65536) % 256) + 16777216 * ((n
        / 16777216) % 256)) by (nonlinear_arith)
        requires
            n <= u32::MAX,
    ;
}

/// A count takes four bytes.
pub proof fn lemma_le32_len(n: nat)
    ensures
        le32(n).len() == 4,
{
    reveal(le32);
}

/// Each entry takes 64 bytes.
pub proof fn lemma_entries_bytes_len(e: Seq<StateEntry>)
    ensures
        entries_bytes(e).len() == 64 * e.len(),
    decreases e.len(),
{
    if e.len() > 0 {
        lemma_entries_bytes_len(e.drop_last());
    }
}

/// Two entry sequences with the same bytes are the same.
pub proof fn lemma_entries_bytes_injective(a: Seq<StateEntry>, b: Seq<StateEntry>)
    requires
        entries_bytes(a) == entries_bytes(b),
    ensures
        a == b,
    decreases a.len(),
{
    lemma_entries_bytes_len(a);
    lemma_entries_bytes_len(b);
    if a.len() > 0 {
        let ba = entries_bytes(a);
        let bb = entries_bytes(b);
        let n = ba.len() as int;
        lemma_entries_bytes_len(a.drop_last());
        lemma_entries_bytes_len(b.drop_last());
        assert(entries_bytes(a.drop_last()) =~= ba.subrange(0, n - 64));
        assert(entries_bytes(b.drop_last()) =~= bb.subrange(0, n - 64));
        assert(a.last().0@ =~= ba.subrange(n - 64, n - 32));
        assert(b.last().0@ =~= bb.subrange(n - 64, n - 32));
        assert(a.last().1@ =~= ba.subrange(n - 32, n));
        assert(b.last().1@ =~= bb.subrange(n - 32, n));
        crate::codec::lemma_identity_ext(a.last().0, b.last().0);
        crate::codec::lemma_identity_ext(a.last().1, b.last().1);
        lemma_entries_bytes_injective(a.drop_last(), b.drop_last());
        assert(a =~= a.drop_last().push(a.last()));
        assert(b =~= b.drop_last().push(b.last()));
    } else {
        assert(a =~= b);
    }
}

/// Two records with the same bytes hold the same entries: decoding the
/// bytes of a record gives the record back.
pub proof fn lemma_state_bytes_injective(a: Seq<StateEntry>, b: Seq<StateEntry>)
    requires
        state_bytes(a) == state_bytes(b),
    ensures
        a == b,
{
    lemma_entries_bytes_len(a);
    lemma_entries_bytes_len(b);
    lemma_le32_len(a.len());
    lemma_le32_len(b.len());
    assert(state_bytes(a).len() == 4 + 64 * a.len());
    assert(state_bytes(b).len() == 4 + 64 * b.len());
    assert(a.len() == b.len());
    assert(entries_bytes(a) =~= state_bytes(a).subrange(4, state_bytes(a).len() as int));
    assert(entries_bytes(b) =~= state_bytes(b).subrange(4, state_bytes(b).len() as int));
    lemma_entries_bytes_injective(a, b);
}

/// A record's bytes decode to exactly its entries.
pub proof fn lemma_state_round_trip(e: Seq<StateEntry>)
    requires
        e.len() <= u32::MAX,
        owners_unique(e),
    ensures
        state_of(state_bytes(e)) == Some(e),
{
    let b = state_bytes(e);
    assert(is_state_image(e, b));
    let c = choose|c: Seq<StateEntry>| is_state_image(c, b);
    lemma_state_bytes_injective(c, e);
}

/// Relies on borsh's serialization of a `Vec` of key pairs (`borsh::to_vec`):
/// the count as a little-endian u32, then each pair's 32 + 32 bytes; it fails
/// only when the count does not fit in a u32.
#[verifier::external_body]
fn borsh_encode_entries(entries: &Vec<StateEntry>) -> (r: Option<Vec<u8>>)
    ensures
        r is Some <==> entries@.len() <= u32::MAX,
        r is Some ==> r->Some_0@ == state_bytes(entries@),
{
    borsh::to_vec(entries).ok()
}

/// Relies on borsh's deserialization of a `Vec` of key pairs
/// (`BorshDeserialize::try_from_slice`): a little-endian u32 count, then that
/// many pairs of 32 + 32 bytes, and no byte after them.
#[verifier::external_body]
fn borsh_decode_entries(bytes: &[u8]) -> (r: Option<Vec<StateEntry>>)
    ensures
        r is Some <==> (bytes@.len() >= 4 && bytes@.len() == 4 + 64 * le32_value(bytes@)),
        r is Some ==> state_bytes(r->Some_0@) == bytes@,
{
    <Vec<StateEntry> as borsh::BorshDeserialize>::try_from_slice(bytes).ok()
}

/// `i` is the position of the entry whose owner is `k`.
pub open spec fn owner_index(e: Seq<StateEntry>, k: Identity, i: int) -> bool {
    0 <= i < e.len() && e[i].0 == k
}

/// The slot registered for `owner`, if any.
pub open spec fn registered_slot(e: Seq<StateEntry>, owner: Identity) -> Option<Identity> {
    if exists|i: int| owner_index(e, owner, i) {
        Some(e[choose|i: int| owner_index(e, owner, i)].1)
    } else {
        None
    }
}

/// `slot` is registered to some owner other than `owner`.
pub open spec fn slot_held_by_other(e: Seq<StateEntry>, owner: Identity, slot: Identity) -> bool {
    exists|i: int| 0 <= i < e.len() && e[i].1 == slot && e[i].0 != owner
}

/// The owner-to-slot map that the entries describe.
pub open spec fn entries_map(e: Seq<StateEntry>) -> Map<Identity, Identity> {
    Map::new(|k: Identity| registered_slot(e, k) is Some, |k: Identity| registered_slot(e, k)->Some_0)
}

/// The entries after registering `slot` for `owner`: an entry of `owner`
/// gets the new slot in place, otherwise a new entry goes at the end.
pub open spec fn entries_update(e: Seq<StateEntry>, owner: Identity, slot: Identity) -> Seq<
    StateEntry,
> {
    if exists|i: int| owner_index(e, owner, i) {
        e.update(choose|i: int| owner_index(e, owner, i), (owner, slot))
    } else {
        e.push((owner, slot))
    }
}

proof fn lemma_owner_index_unique(e: Seq<StateEntry>, k: Identity, i: int, j: int)
    requires
        owners_unique(e),
        owner_index(e, k, i),
        owner_index(e, k, j),
    ensures
        i == j,
{
    if i < j {
        assert(e[i].0 != e[j].0);
    } else if j < i {
        assert(e[j].0 != e[i].0);
    }
}

/// Registering a slot keeps the owners unique and replaces the owner's
/// mapping without touching the others.
pub proof fn lemma_entries_update(e: Seq<StateEntry>, owner: Identity, slot: Identity)
    requires
        owners_unique(e),
    ensures
        owners_unique(entries_update(e, owner, slot)),
        entries_map(entries_update(e, owner, slot)) == entries_map(e).insert(owner, slot),
{
    let u = entries_update(e, owner, slot);
    if exists|i: int| owner_index(e, owner, i) {
        let p = choose|i: int| owner_index(e, owner, i);
        assert forall|i: int, j: int| 0 <= i < j < u.len() implies u[i].0 != u[j].0 by {
            assert(e[i].0 != e[j].0);
        }
        assert forall|k: Identity| #[trigger] registered_slot(u, k) == (if k == owner {
            Some(slot)
        } else {
            registered_slot(e, k)
        }) by {
            if k == owner {
                assert(owner_index(u, k, p));
                let q = choose|i: int| owner_index(u, k, i);
                lemma_owner_index_unique(u, k, p, q);
            } else if exists|i: int| owner_index(e, k, i) {
                let q = choose|i: int| owner_index(e, k, i);
                assert(owner_index(u, k, q));
                let q2 = choose|i: int| owner_index(u, k, i);
                lemma_owner_index_unique(u, k, q, q2);
            } else {
                if exists|i: int| owner_index(u, k, i) {
                    let q = choose|i: int| owner_index(u, k, i);
                    assert(owner_index(e, k, q));
                }
            }
        }
    } else {
        assert forall|i: int, j: int| 0 <= i < j < u.len() implies u[i].0 != u[j].0 by {
            if j == e.len() as int {
                assert(!owner_index(e, owner, i));
            } else {
                assert(e[i].0 != e[j].0);
            }
        }
        assert forall|k: Identity| #[trigger] registered_slot(u, k) == (if k == owner {
            Some(slot)
        } else {
            registered_slot(e, k)
        }) by {
            if k == owner {
                assert(owner_index(u, k, e.len() as int));
                let q = choose|i: int| owner_index(u, k, i);
                lemma_owner_index_unique(u, k, e.len() as int, q);
            } else if exists|i: int| owner_index(e, k, i) {
                let q = choose|i: int| owner_index(e, k, i);
                assert(owner_index(u, k, q));
                let q2 = choose|i: int| owner_index(u, k, i);
                lemma_owner_index_unique(u, k, q, q2);
            } else {
                if exists|i: int| owner_index(u, k, i) {
                    let q = choose|i: int| owner_index(u, k, i);
                    assert(owner_index(e, k, q));
                }
            }
        }
    }
    assert(entries_map(u) =~= entries_map(e).insert(owner, slot));
}

/// The global record: for each owner, the slot that holds its access list.
pub struct ProgramData {
    pub user_access_map: Vec<StateEntry>,
}

impl ProgramData {
    /// No owner is registered twice.
    pub open spec fn wf(&self) -> bool {
        owners_unique(self.user_access_map@)
    }

    /// The owner-to-slot map of this record.
    pub open spec fn access_map(&self) -> Map<Identity, Identity> {
        entries_map(self.user_access_map@)
    }

    /// A record with no registration.
    pub fn init() -> (r: Self)
        ensures
            r.wf(),
            r.user_access_map@ == Seq::<StateEntry>::empty(),
            r.access_map() == Map::<Identity, Identity>::empty(),
    {
        let r = ProgramData { user_access_map: Vec::new() };
        assert(r.access_map() =~= Map::<Identity, Identity>::empty());
        r
    }

    /// Registers `new_access_list_account` as the slot of `user`, replacing
    /// an earlier registration of `user`.
    pub fn update(&mut self, user: &Identity, new_access_list_account: &Identity)
        requires
            old(self).wf(),
        ensures
            final(self).wf(),
            final(self).user_access_map@ == entries_update(
                old(self).user_access_map@,
                *user,
                *new_access_list_account,
            ),
            final(self).access_map() == old(self).access_map().insert(
                *user,
                *new_access_list_account,
            ),
    {
        let ghost before = self.user_access_map@;
        proof {
            lemma_entries_update(before, *user, *new_access_list_account);
        }
        let mut i: usize = 0;
        while i < self.user_access_map.len()
            invariant
                self.user_access_map@ == old(self).user_access_map@,
                owners_unique(self.user_access_map@),
                i <= self.user_access_map@.len(),
                forall|j: int| 0 <= j < i ==> self.user_access_map@[j].0 != *user,
            decreases self.user_access_map@.len() - i,
        {
            if same_identity(&self.user_access_map[i].0, user) {
                proof {
                    let e = self.user_access_map@;
                    assert(owner_index(e, *user, i as int));
                    let c = choose|t: int| owner_index(e, *user, t);
                    lemma_owner_index_unique(e, *user, i as int, c);
                    lemma_entries_update(e, *user, *new_access_list_account);
                }
                self.user_access_map.set(i, (*user, *new_access_list_account));
                return;
            }
            i = i + 1;
        }
        self.user_access_map.push((*user, *new_access_list_account));
    }

    /// The bytes of this record, or `None` when its entries are too many for
    /// the u32 count.
    pub fn pack(&self) -> (r: Option<Vec<u8>>)
        ensures
            r is Some <==> self.user_access_map@.len() <= u32::MAX,
            r is Some ==> r->Some_0@ == state_bytes(self.user_access_map@),
    {
        borsh_encode_entries(&self.user_access_map)
    }

    /// Reads a record from its bytes; fails on bytes that are not the
    /// layout of a well-formed record.
    pub fn unpack(bytes: &[u8]) -> (r: Result<ProgramData, DecodeError>)
        ensures
            r is Ok <==> state_of(bytes@) is Some,
            r is Ok ==> r->Ok_0.wf() && r->Ok_0.user_access_map@ == state_of(bytes@)->Some_0,
            r is Err ==> r == Err::<ProgramData, DecodeError>(
                DecodeError::MalformedState,
            ),
    {
        match borsh_decode_entries(bytes) {
            None => {
                proof {
                    if exists|e: Seq<StateEntry>| is_state_image(e, bytes@) {
                        let e = choose|e: Seq<StateEntry>| is_state_image(e, bytes@);
                        lemma_le32_len(e.len());
                        lemma_le32_round_trip(e.len());
                        lemma_entries_bytes_len(e);
                        assert(bytes@.subrange(0, 4) == le32(e.len()));
                        assert(le32_value(bytes@) == le32_value(le32(e.len())));
                    }
                }
                Err(DecodeError::MalformedState)
            },
            Some(entries) => {
                let mut i: usize = 0;
                while i < entries.len()
                    invariant
                        state_bytes(entries@) == bytes@,
                        i <= entries@.len(),
                        forall|a: int, b: int| 0 <= a < b < i ==> entries@[a].0 != entries@[b].0,
                    decreases entries@.len() - i,
                {
                    let mut j: usize = 0;
                    while j < i
                        invariant
                            state_bytes(entries@) == bytes@,
                            i < entries@.len(),
                            j <= i,
                            forall|a: int| 0 <= a < j ==> entries@[a].0 != entries@[i as int].0,
                        decreases i - j,
                    {
                        if same_identity(&entries[j].0, &entries[i].0) {
                            proof {
                                if exists|e: Seq<StateEntry>| is_state_image(e, bytes@) {
                                    let e = choose|e: Seq<StateEntry>| is_state_image(e, bytes@);
                                    lemma_state_bytes_injective(e, entries@);
                                    assert(e[j as int].0 != e[i as int].0);
                                }
                            }
                            return Err(DecodeError::MalformedState);
                        }
                        j = j + 1;
                    }
                    i = i + 1;
                }
                proof {
                    lemma_entries_bytes_len(entries@);
                    lemma_le32_len(entries@.len());
                    assert(is_state_image(entries@, bytes@));
                    let e = choose|e: Seq<StateEntry>| is_state_image(e, bytes@);
                    lemma_state_bytes_injective(e, entries@);
                }
                Ok(ProgramData { user_access_map: entries })
            },
        }
    }
}

/// The slot registered for `address`, if any.
pub fn get_user_access_list_pk(address: &Identity, program_data: &ProgramData) -> (r: Option<
    Identity,
>)
    requires
        program_data.wf(),
    ensures
        r == registered_slot(program_data.user_access_map@, *address),
{
    let e = &program_data.user_access_map;
    let mut i: usize = 0;
    while i < e.len()
        invariant
            e@ == program_data.user_access_map@,
            owners_unique(e@),
            i <= e@.len(),
            forall|j: int| 0 <= j < i ==> e@[j].0 != *address,
        decreases e@.len() - i,
    {
        if same_identity(&e[i].0, address) {
            proof {
                assert(owner_index(e@, *address, i as int));
                let c = choose|t: int| owner_index(e@, *address, t);
                lemma_owner_index_unique(e@, *address, i as int, c);
                assert(registered_slot(e@, *address) == Some(e@[i as int].1));
            }
            return Some(e[i].1);
        }
        i = i + 1;
    }
    None
}

/// Whether `slot` is registered to an owner other than `owner`.
pub fn slot_registered_to_other(slot: &Identity, owner: &Identity, program_data: &ProgramData) -> (r:
    bool)
    ensures
        r == slot_held_by_other(program_data.user_access_map@, *owner, *slot),
{
    let e = &program_data.user_access_map;
    let mut i: usize = 0;
    while i < e.len()
        invariant
            e@ == program_data.user_access_map@,
            i <= e@.len(),
            forall|j: int| 0 <= j < i ==> !(e@[j].1 == *slot && e@[j].0 != *owner),
        decreases e@.len() - i,
    {
        if same_identity(&e[i].1, slot) && !same_identity(&e[i].0, owner) {
            return true;
        }
        i = i + 1;
    }
    false
}

/// Whether `access_list` is the slot registered for `user`.
pub fn user_matches_access_list(
    access_list: &Identity,
    user: &Identity,
    program_data: &ProgramData,
) -> (r: bool)
    requires
        program_data.wf(),
    ensures
        r == (registered_slot(program_data.user_access_map@, *user) == Some(*access_list)),
{
    match get_user_access_list_pk(user, program_data) {
        Some(slot) => same_identity(access_list, &slot),
        None => false,
    }
}

} // verus!
