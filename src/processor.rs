//! The dispatcher: decodes an instruction, authorizes it against the
//! caller's signature and the global record, runs the list operation on a
//! copy and writes the new bytes back only once every step has succeeded.
//!
//! Accounts: the global record first, then the access-list slot, then the
//! caller. The host must not run two dispatches on overlapping accounts at
//! once.
use crate::access_list::{list_add, list_remove, user_access_list_add_pk, user_access_list_remove_pk};
use crate::codec::{
    lemma_list_bytes_injective, list_bytes, pack_user_access_list, same_identity,
    unpack_user_access_list, Identity, UserAccessList,
};
use crate::error::{AuthorizationError, DecodeError, HostIOError, ProcessError};
use crate::instruction::{
    instruction_error, instruction_image, lemma_instruction_image_unique, ProgInstruction, OP_INIT,
};
use crate::state::{
    entries_map, entries_update, get_user_access_list_pk, lemma_entries_update,
    lemma_state_round_trip, registered_slot, slot_held_by_other,
    slot_registered_to_other, state_bytes, state_of, ProgramData, StateEntry,
};
use vstd::prelude::*;

verus! {

/// A buffer that the host hands to one dispatch: its key, whether the host
/// verified a signature for that key in this call, and its bytes.
pub struct AccountSlot {
    pub key: Identity,
    pub is_signer: bool,
    pub data: Vec<u8>,
}

/// What a dispatch sees of an account.
pub struct AccountView {
    pub key: Identity,
    pub is_signer: bool,
    pub data: Seq<u8>,
}

impl View for AccountSlot {
    type V = AccountView;

    open spec fn view(&self) -> AccountView {
        AccountView { key: self.key, is_signer: self.is_signer, data: self.data@ }
    }
}

/// Position of the global record among the accounts.
pub const STATE_ACCOUNT: usize = 0;
/// Position of the access-list slot.
pub const LIST_ACCOUNT: usize = 1;
/// Position of the caller, whose signature authorizes the call.
pub const CALLER_ACCOUNT: usize = 2;

pub open spec fn accounts_view(a: Seq<AccountSlot>) -> Seq<AccountView> {
    a.map_values(|s: AccountSlot| s@)
}

/// The accounts with the bytes of account `i` replaced by `d`.
pub open spec fn with_data(a: Seq<AccountView>, i: int, d: Seq<u8>) -> Seq<AccountView> {
    a.update(i, AccountView { key: a[i].key, is_signer: a[i].is_signer, data: d })
}

/// The list whose bytes are `b` (for `b` of a length that is a multiple of 32).
pub open spec fn list_of(b: Seq<u8>) -> Seq<Identity> {
    choose|l: Seq<Identity>| list_bytes(l) == b
}

/// The instruction that `input` reads as (for a well-formed `input`).
pub open spec fn instruction_of(input: Seq<u8>) -> ProgInstruction {
    choose|ins: ProgInstruction| instruction_image(ins, input)
}

/// The new bytes of a list slot holding `data` after adding (or removing)
/// the key `k`.
pub open spec fn change_outcome(data: Seq<u8>, k: Identity, add: bool) -> Result<
    Seq<u8>,
    ProcessError,
> {
    if data.len() % 32 != 0 {
        Err(ProcessError::Decode(DecodeError::MalformedLength))
    } else {
        let l = if add {
            list_add(list_of(data), k)
        } else {
            list_remove(list_of(data), k)
        };
        if 32 * l.len() > usize::MAX {
            Err(ProcessError::HostIO(HostIOError::AccountDataTooLarge))
        } else {
            Ok(list_bytes(l))
        }
    }
}

/// A list mutation by the caller of `a` against the record entries `e`:
/// allowed only on the slot registered for the caller.
pub open spec fn mutation_outcome(
    a: Seq<AccountView>,
    e: Seq<StateEntry>,
    k: Identity,
    add: bool,
) -> Result<Seq<AccountView>, ProcessError> {
    match registered_slot(e, a[CALLER_ACCOUNT as int].key) {
        None => Err(ProcessError::NotFound),
        Some(s) => if s != a[LIST_ACCOUNT as int].key {
            Err(ProcessError::Authorization(AuthorizationError::SlotMismatch))
        } else {
            match change_outcome(a[LIST_ACCOUNT as int].data, k, add) {
                Err(x) => Err(x),
                Ok(d) => Ok(with_data(a, LIST_ACCOUNT as int, d)),
            }
        },
    }
}

/// The accounts after one dispatch of `input` on `a`, or its failure.
pub open spec fn dispatch(a: Seq<AccountView>, input: Seq<u8>) -> Result<
    Seq<AccountView>,
    ProcessError,
> {
    if a.len() == 0 {
        Err(ProcessError::HostIO(HostIOError::NotEnoughAccountKeys))
    } else if instruction_error(input) is Some {
        Err(ProcessError::Decode(instruction_error(input)->Some_0))
    } else if instruction_of(input) == ProgInstruction::Init {
        Ok(with_data(a, STATE_ACCOUNT as int, state_bytes(Seq::empty())))
    } else if state_of(a[STATE_ACCOUNT as int].data) is None {
        Err(ProcessError::Decode(DecodeError::MalformedState))
    } else if a.len() <= CALLER_ACCOUNT {
        Err(ProcessError::HostIO(HostIOError::NotEnoughAccountKeys))
    } else if !a[CALLER_ACCOUNT as int].is_signer {
        Err(ProcessError::Authorization(AuthorizationError::MissingRequiredSignature))
    } else {
        let e = state_of(a[STATE_ACCOUNT as int].data)->Some_0;
        match instruction_of(input) {
            ProgInstruction::AddPKToAccessListAccount(k) => mutation_outcome(a, e, k, true),
            ProgInstruction::RemovePKToAccessListAccount(k) => mutation_outcome(a, e, k, false),
            _ => {
                let e2 = entries_update(
                    e,
                    a[CALLER_ACCOUNT as int].key,
                    a[LIST_ACCOUNT as int].key,
                );
                if slot_held_by_other(e, a[CALLER_ACCOUNT as int].key, a[LIST_ACCOUNT as int].key) {
                    Err(ProcessError::Authorization(AuthorizationError::SlotTaken))
                } else if e2.len() > u32::MAX {
                    Err(ProcessError::HostIO(HostIOError::AccountDataTooLarge))
                } else {
                    Ok(
                        with_data(
                            with_data(a, LIST_ACCOUNT as int, Seq::empty()),
                            STATE_ACCOUNT as int,
                            state_bytes(e2),
                        ),
                    )
                }
            },
        }
    }
}

/// A caller who signed but presents a slot other than the one registered
/// for them is refused with an authorization error, whichever list mutation
/// the instruction asks for; `process_instruction` then leaves every account
/// as it was.
pub proof fn lemma_foreign_slot_rejected(a: Seq<AccountView>, input: Seq<u8>, ins: ProgInstruction)
    requires
        a.len() > CALLER_ACCOUNT,
        a[CALLER_ACCOUNT as int].is_signer,
        instruction_image(ins, input),
        ins is AddPKToAccessListAccount || ins is RemovePKToAccessListAccount,
        state_of(a[STATE_ACCOUNT as int].data) is Some,
        registered_slot(state_of(a[STATE_ACCOUNT as int].data)->Some_0, a[CALLER_ACCOUNT as int].key)
            is Some,
        registered_slot(
            state_of(a[STATE_ACCOUNT as int].data)->Some_0,
            a[CALLER_ACCOUNT as int].key,
        )->Some_0 != a[LIST_ACCOUNT as int].key,
    ensures
        dispatch(a, input) == Err::<Seq<AccountView>, ProcessError>(
            ProcessError::Authorization(AuthorizationError::SlotMismatch),
        ),
{
    let c = choose|i: ProgInstruction| instruction_image(i, input);
    lemma_instruction_image_unique(c, ins, input);
}

/// A caller who signed but presents, for registration, a slot that is
/// registered to another owner is refused with an authorization error, so no
/// signer can wipe or take over another owner's list; `process_instruction`
/// then leaves every account as it was.
pub proof fn lemma_taken_slot_rejected(a: Seq<AccountView>, input: Seq<u8>)
    requires
        a.len() > CALLER_ACCOUNT,
        a[CALLER_ACCOUNT as int].is_signer,
        instruction_image(ProgInstruction::InitAccessList, input),
        state_of(a[STATE_ACCOUNT as int].data) is Some,
        slot_held_by_other(
            state_of(a[STATE_ACCOUNT as int].data)->Some_0,
            a[CALLER_ACCOUNT as int].key,
            a[LIST_ACCOUNT as int].key,
        ),
    ensures
        dispatch(a, input) == Err::<Seq<AccountView>, ProcessError>(
            ProcessError::Authorization(AuthorizationError::SlotTaken),
        ),
{
    let c = choose|i: ProgInstruction| instruction_image(i, input);
    lemma_instruction_image_unique(c, ProgInstruction::InitAccessList, input);
}

/// `Init` (the single byte 0) on any non-empty account list succeeds and
/// leaves in the first account a record that decodes to the empty map.
pub proof fn lemma_init_gives_empty_record(a: Seq<AccountView>)
    requires
        a.len() > 0,
    ensures
        dispatch(a, seq![OP_INIT]) is Ok,
        state_of(dispatch(a, seq![OP_INIT])->Ok_0[STATE_ACCOUNT as int].data) == Some(
            Seq::<StateEntry>::empty(),
        ),
        entries_map(Seq::<StateEntry>::empty()) == Map::<Identity, Identity>::empty(),
{
    let input = seq![OP_INIT];
    assert(instruction_image(ProgInstruction::Init, input));
    let c = choose|i: ProgInstruction| instruction_image(i, input);
    lemma_instruction_image_unique(c, ProgInstruction::Init, input);
    lemma_state_round_trip(Seq::<StateEntry>::empty());
    assert(entries_map(Seq::<StateEntry>::empty()) =~= Map::<Identity, Identity>::empty());
}

/// `InitAccessList` by a signed caller, on a slot that no other owner holds,
/// succeeds (below the u32 count limit): the slot then holds the empty list,
/// and the record decodes to the old map with the caller mapped to the slot.
pub proof fn lemma_init_access_list_registers(a: Seq<AccountView>, input: Seq<u8>)
    requires
        a.len() > CALLER_ACCOUNT,
        a[CALLER_ACCOUNT as int].is_signer,
        instruction_image(ProgInstruction::InitAccessList, input),
        state_of(a[STATE_ACCOUNT as int].data) is Some,
        state_of(a[STATE_ACCOUNT as int].data)->Some_0.len() < u32::MAX,
        !slot_held_by_other(
            state_of(a[STATE_ACCOUNT as int].data)->Some_0,
            a[CALLER_ACCOUNT as int].key,
            a[LIST_ACCOUNT as int].key,
        ),
    ensures
        dispatch(a, input) is Ok,
        dispatch(a, input)->Ok_0[LIST_ACCOUNT as int].data == list_bytes(Seq::empty()),
        state_of(dispatch(a, input)->Ok_0[STATE_ACCOUNT as int].data) is Some,
        entries_map(state_of(dispatch(a, input)->Ok_0[STATE_ACCOUNT as int].data)->Some_0)
            == entries_map(state_of(a[STATE_ACCOUNT as int].data)->Some_0).insert(
            a[CALLER_ACCOUNT as int].key,
            a[LIST_ACCOUNT as int].key,
        ),
{
    let c = choose|i: ProgInstruction| instruction_image(i, input);
    lemma_instruction_image_unique(c, ProgInstruction::InitAccessList, input);
    let e = state_of(a[STATE_ACCOUNT as int].data)->Some_0;
    let caller = a[CALLER_ACCOUNT as int].key;
    let slot = a[LIST_ACCOUNT as int].key;
    lemma_entries_update(e, caller, slot);
    let e2 = entries_update(e, caller, slot);
    assert(e2.len() <= e.len() + 1);
    lemma_state_round_trip(e2);
    assert(list_bytes(Seq::<Identity>::empty()) =~= Seq::<u8>::empty());
}

/// The bytes of an empty global record.
fn process_init() -> (r: Vec<u8>)
    ensures
        r@ == state_bytes(Seq::empty()),
{
    let data = ProgramData::init();
    // An empty record always fits the u32 count, so `pack` succeeds here.
    match data.pack() {
        Some(bytes) => bytes,
        None => Vec::new(),
    }
}

/// The bytes of the global record after registering `slot` for `signer`.
fn process_init_access_list(program_data: ProgramData, signer: &Identity, slot: &Identity) -> (r:
    Result<Vec<u8>, ProcessError>)
    requires
        program_data.wf(),
    ensures
        r is Ok <==> entries_update(program_data.user_access_map@, *signer, *slot).len()
            <= u32::MAX,
        r is Ok ==> r->Ok_0@ == state_bytes(
            entries_update(program_data.user_access_map@, *signer, *slot),
        ),
        r is Err ==> r->Err_0 == ProcessError::HostIO(HostIOError::AccountDataTooLarge),
{
    let mut program_data = program_data;
    program_data.update(signer, slot);
    match program_data.pack() {
        Some(bytes) => Ok(bytes),
        None => Err(ProcessError::HostIO(HostIOError::AccountDataTooLarge)),
    }
}

/// The new bytes of a list slot holding `data` after adding (`add`) or
/// removing the key `pk`.
fn process_change_access_list_account(data: &[u8], pk: Identity, add: bool) -> (r: Result<
    Vec<u8>,
    ProcessError,
>)
    ensures
        r is Ok <==> change_outcome(data@, pk, add) is Ok,
        r is Ok ==> r->Ok_0@ == change_outcome(data@, pk, add)->Ok_0,
        r is Err ==> r->Err_0 == change_outcome(data@, pk, add)->Err_0,
{
    let access_list: UserAccessList = match unpack_user_access_list(data) {
        Ok(l) => l,
        Err(e) => return Err(ProcessError::Decode(e)),
    };
    proof {
        let c = choose|l: Seq<Identity>| list_bytes(l) == data@;
        lemma_list_bytes_injective(c, access_list@);
    }
    let changed = if add {
        user_access_list_add_pk(access_list, pk)
    } else {
        user_access_list_remove_pk(access_list, pk)
    };
    if changed.len() > usize::MAX / 32 {
        return Err(ProcessError::HostIO(HostIOError::AccountDataTooLarge));
    }
    Ok(pack_user_access_list(changed))
}

/// Replaces the bytes of account `i`.
fn set_data(accounts: &mut Vec<AccountSlot>, i: usize, data: Vec<u8>)
    requires
        i < old(accounts)@.len(),
    ensures
        final(accounts)@.len() == old(accounts)@.len(),
        accounts_view(final(accounts)@) == with_data(accounts_view(old(accounts)@), i as int, data@),
{
    let key = accounts[i].key;
    let is_signer = accounts[i].is_signer;
    accounts.set(i, AccountSlot { key, is_signer, data });
    assert(accounts_view(accounts@) =~= with_data(accounts_view(old(accounts)@), i as int, data@));
}

/// Reads the global record and the caller for an instruction that needs
/// them: the record must decode, the caller must be present and must have
/// signed.
fn load_state(accounts: &Vec<AccountSlot>) -> (r: Result<ProgramData, ProcessError>)
    requires
        accounts@.len() > 0,
    ensures
        ({
            let a = accounts_view(accounts@);
            if state_of(a[STATE_ACCOUNT as int].data) is None {
                r == Err::<ProgramData, ProcessError>(
                    ProcessError::Decode(DecodeError::MalformedState),
                )
            } else if a.len() <= CALLER_ACCOUNT {
                r == Err::<ProgramData, ProcessError>(
                    ProcessError::HostIO(HostIOError::NotEnoughAccountKeys),
                )
            } else if !a[CALLER_ACCOUNT as int].is_signer {
                r == Err::<ProgramData, ProcessError>(
                    ProcessError::Authorization(AuthorizationError::MissingRequiredSignature),
                )
            } else {
                r is Ok && r->Ok_0.wf() && r->Ok_0.user_access_map@ == state_of(
                    a[STATE_ACCOUNT as int].data,
                )->Some_0
            }
        }),
{
    let program_data = match ProgramData::unpack(accounts[STATE_ACCOUNT].data.as_slice()) {
        Ok(d) => d,
        Err(e) => return Err(ProcessError::Decode(e)),
    };
    if accounts.len() <= CALLER_ACCOUNT {
        return Err(ProcessError::HostIO(HostIOError::NotEnoughAccountKeys));
    }
    if !accounts[CALLER_ACCOUNT].is_signer {
        return Err(ProcessError::Authorization(AuthorizationError::MissingRequiredSignature));
    }
    Ok(program_data)
}

/// Carries out one instruction on the accounts. On failure no account is
/// changed; on success exactly the accounts that `dispatch` names are
/// rewritten.
pub fn process_instruction(
    _program_id: &Identity,
    accounts: &mut Vec<AccountSlot>,
    input: &[u8],
) -> (r: Result<(), ProcessError>)
    ensures
        r is Ok <==> dispatch(accounts_view(old(accounts)@), input@) is Ok,
        r is Ok ==> accounts_view(final(accounts)@) == dispatch(
            accounts_view(old(accounts)@),
            input@,
        )->Ok_0,
        r is Err ==> r->Err_0 == dispatch(accounts_view(old(accounts)@), input@)->Err_0,
        r is Err ==> final(accounts)@ == old(accounts)@,
{
    if accounts.len() == 0 {
        return Err(ProcessError::HostIO(HostIOError::NotEnoughAccountKeys));
    }
    let instr = match ProgInstruction::unpack(input) {
        Ok(i) => i,
        Err(e) => return Err(ProcessError::Decode(e)),
    };
    proof {
        let c = choose|ins: ProgInstruction| instruction_image(ins, input@);
        lemma_instruction_image_unique(c, instr, input@);
    }
    match instr {
        ProgInstruction::Init => {
            let bytes = process_init();
            set_data(accounts, STATE_ACCOUNT, bytes);
            Ok(())
        },
        ProgInstruction::InitAccessList => {
            let program_data = match load_state(accounts) {
                Ok(d) => d,
                Err(e) => return Err(e),
            };
            let caller = accounts[CALLER_ACCOUNT].key;
            let slot = accounts[LIST_ACCOUNT].key;
            if slot_registered_to_other(&slot, &caller, &program_data) {
                return Err(ProcessError::Authorization(AuthorizationError::SlotTaken));
            }
            let state_data = match process_init_access_list(program_data, &caller, &slot) {
                Ok(b) => b,
                Err(e) => return Err(e),
            };
            let list_data = pack_user_access_list(Vec::new());
            assert(list_bytes(Seq::<Identity>::empty()) =~= Seq::<u8>::empty());
            set_data(accounts, LIST_ACCOUNT, list_data);
            set_data(accounts, STATE_ACCOUNT, state_data);
            Ok(())
        },
        ProgInstruction::AddPKToAccessListAccount(pk) => {
            change_registered_list(accounts, input, pk, true)
        },
        ProgInstruction::RemovePKToAccessListAccount(pk) => {
            change_registered_list(accounts, input, pk, false)
        },
    }
}

/// The list mutations: authorizes the caller against the presented slot,
/// then rewrites that slot.
fn change_registered_list(
    accounts: &mut Vec<AccountSlot>,
    input: &[u8],
    pk: Identity,
    add: bool,
) -> (r: Result<(), ProcessError>)
    requires
        old(accounts)@.len() > 0,
        instruction_error(input@) is None,
        instruction_of(input@) == (if add {
            ProgInstruction::AddPKToAccessListAccount(pk)
        } else {
            ProgInstruction::RemovePKToAccessListAccount(pk)
        }),
    ensures
        r is Ok <==> dispatch(accounts_view(old(accounts)@), input@) is Ok,
        r is Ok ==> accounts_view(final(accounts)@) == dispatch(
            accounts_view(old(accounts)@),
            input@,
        )->Ok_0,
        r is Err ==> r->Err_0 == dispatch(accounts_view(old(accounts)@), input@)->Err_0,
        r is Err ==> final(accounts)@ == old(accounts)@,
{
    let program_data = match load_state(accounts) {
        Ok(d) => d,
        Err(e) => return Err(e),
    };
    let caller = accounts[CALLER_ACCOUNT].key;
    let slot = accounts[LIST_ACCOUNT].key;
    let registered = match get_user_access_list_pk(&caller, &program_data) {
        Some(s) => s,
        None => return Err(ProcessError::NotFound),
    };
    if !same_identity(&registered, &slot) {
        return Err(ProcessError::Authorization(AuthorizationError::SlotMismatch));
    }
    let new_data = match process_change_access_list_account(
        accounts[LIST_ACCOUNT].data.as_slice(),
        pk,
        add,
    ) {
        Ok(d) => d,
        Err(e) => return Err(e),
    };
    set_data(accounts, LIST_ACCOUNT, new_data);
    Ok(())
}

} // verus!
