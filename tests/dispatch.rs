use solana_pam::{
    pack_user_access_list, process_instruction, AccountSlot, AuthorizationError, DecodeError,
    HostIOError, Identity, ProcessError, ProgramData,
};

const PROGRAM: Identity = [0u8; 32];
const STATE: Identity = [10u8; 32];
const ALICE: Identity = [1u8; 32];
const BOB: Identity = [2u8; 32];
const SLOT_A: Identity = [20u8; 32];
const SLOT_B: Identity = [21u8; 32];
const K: Identity = [7u8; 32];

fn slot(key: Identity, is_signer: bool, data: Vec<u8>) -> AccountSlot {
    AccountSlot { key, is_signer, data }
}

fn keyed(op: u8, k: Identity) -> Vec<u8> {
    let mut v = vec![op];
    v.extend_from_slice(&k);
    v
}

/// A global record, Alice's slot and Alice as a signed caller, after Init
/// and InitAccessList.
fn registered_alice() -> Vec<AccountSlot> {
    let mut accounts = vec![
        slot(STATE, false, Vec::new()),
        slot(SLOT_A, false, vec![1, 2, 3]),
        slot(ALICE, true, Vec::new()),
    ];
    assert_eq!(process_instruction(&PROGRAM, &mut accounts, &[0]), Ok(()));
    assert_eq!(process_instruction(&PROGRAM, &mut accounts, &[1]), Ok(()));
    accounts
}

#[test]
fn init_on_empty_slot_gives_empty_record() {
    let mut accounts = vec![slot(STATE, false, Vec::new())];
    assert_eq!(process_instruction(&PROGRAM, &mut accounts, &[0]), Ok(()));
    assert_eq!(accounts[0].data, vec![0, 0, 0, 0]);
    let data = ProgramData::unpack(&accounts[0].data).unwrap();
    assert!(data.user_access_map.is_empty());
}

#[test]
fn init_access_list_registers_caller_then_add_writes_key() {
    let mut accounts = registered_alice();
    assert!(accounts[1].data.is_empty());
    let data = ProgramData::unpack(&accounts[0].data).unwrap();
    assert_eq!(data.user_access_map, vec![(ALICE, SLOT_A)]);
    assert_eq!(process_instruction(&PROGRAM, &mut accounts, &keyed(2, K)), Ok(()));
    assert_eq!(accounts[1].data, pack_user_access_list(vec![K]));
}

#[test]
fn add_same_key_twice_keeps_one_copy() {
    let mut accounts = registered_alice();
    assert_eq!(process_instruction(&PROGRAM, &mut accounts, &keyed(2, K)), Ok(()));
    assert_eq!(process_instruction(&PROGRAM, &mut accounts, &keyed(2, K)), Ok(()));
    assert_eq!(accounts[1].data, K.to_vec());
}

#[test]
fn remove_twice_leaves_empty_list_without_error() {
    let mut accounts = registered_alice();
    assert_eq!(process_instruction(&PROGRAM, &mut accounts, &keyed(2, K)), Ok(()));
    assert_eq!(process_instruction(&PROGRAM, &mut accounts, &keyed(3, K)), Ok(()));
    assert!(accounts[1].data.is_empty());
    assert_eq!(process_instruction(&PROGRAM, &mut accounts, &keyed(3, K)), Ok(()));
    assert!(accounts[1].data.is_empty());
}

#[test]
fn add_on_foreign_slot_is_refused_and_slot_unchanged() {
    let mut accounts = registered_alice();
    let foreign = vec![5u8; 40];
    accounts[1] = slot(SLOT_B, false, foreign.clone());
    let state_before = accounts[0].data.clone();
    assert_eq!(
        process_instruction(&PROGRAM, &mut accounts, &keyed(2, K)),
        Err(ProcessError::Authorization(AuthorizationError::SlotMismatch))
    );
    assert_eq!(accounts[1].data, foreign);
    assert_eq!(accounts[0].data, state_before);
}

#[test]
fn remove_on_slot_of_another_owner_is_refused() {
    let mut accounts = registered_alice();
    accounts[1] = slot(SLOT_B, false, Vec::new());
    accounts[2] = slot(BOB, true, Vec::new());
    assert_eq!(process_instruction(&PROGRAM, &mut accounts, &[1]), Ok(()));
    let list = pack_user_access_list(vec![K]);
    accounts[1] = slot(SLOT_A, false, list.clone());
    assert_eq!(
        process_instruction(&PROGRAM, &mut accounts, &keyed(3, K)),
        Err(ProcessError::Authorization(AuthorizationError::SlotMismatch))
    );
    assert_eq!(accounts[1].data, list);
}

#[test]
fn unsigned_caller_is_refused() {
    let mut accounts = registered_alice();
    accounts[2] = slot(ALICE, false, Vec::new());
    assert_eq!(
        process_instruction(&PROGRAM, &mut accounts, &keyed(2, K)),
        Err(ProcessError::Authorization(AuthorizationError::MissingRequiredSignature))
    );
    assert!(accounts[1].data.is_empty());
}

#[test]
fn unregistered_caller_is_not_found() {
    let mut accounts = registered_alice();
    accounts[2] = slot(BOB, true, Vec::new());
    assert_eq!(
        process_instruction(&PROGRAM, &mut accounts, &keyed(2, K)),
        Err(ProcessError::NotFound)
    );
}

#[test]
fn reregistration_replaces_mapping() {
    let mut accounts = registered_alice();
    accounts[1] = slot(SLOT_B, false, vec![9]);
    assert_eq!(process_instruction(&PROGRAM, &mut accounts, &[1]), Ok(()));
    let data = ProgramData::unpack(&accounts[0].data).unwrap();
    assert_eq!(data.user_access_map, vec![(ALICE, SLOT_B)]);
    assert!(accounts[1].data.is_empty());
}

#[test]
fn missing_accounts_are_reported() {
    let mut none: Vec<AccountSlot> = Vec::new();
    assert_eq!(
        process_instruction(&PROGRAM, &mut none, &[0]),
        Err(ProcessError::HostIO(HostIOError::NotEnoughAccountKeys))
    );
    let mut accounts = registered_alice();
    accounts.truncate(2);
    assert_eq!(
        process_instruction(&PROGRAM, &mut accounts, &keyed(2, K)),
        Err(ProcessError::HostIO(HostIOError::NotEnoughAccountKeys))
    );
}

#[test]
fn malformed_instruction_is_refused() {
    let mut accounts = registered_alice();
    assert_eq!(
        process_instruction(&PROGRAM, &mut accounts, &[9]),
        Err(ProcessError::Decode(DecodeError::UnknownInstruction))
    );
    assert_eq!(
        process_instruction(&PROGRAM, &mut accounts, &[2, 1]),
        Err(ProcessError::Decode(DecodeError::InvalidPayloadLength))
    );
    assert_eq!(
        process_instruction(&PROGRAM, &mut accounts, &[]),
        Err(ProcessError::Decode(DecodeError::MissingOpcode))
    );
}

#[test]
fn malformed_record_is_refused() {
    let mut accounts = vec![
        slot(STATE, false, vec![1, 0]),
        slot(SLOT_A, false, Vec::new()),
        slot(ALICE, true, Vec::new()),
    ];
    assert_eq!(
        process_instruction(&PROGRAM, &mut accounts, &[1]),
        Err(ProcessError::Decode(DecodeError::MalformedState))
    );
    assert_eq!(accounts[0].data, vec![1, 0]);
}

#[test]
fn malformed_list_is_refused() {
    let mut accounts = registered_alice();
    accounts[1] = slot(SLOT_A, false, vec![1u8; 33]);
    assert_eq!(
        process_instruction(&PROGRAM, &mut accounts, &keyed(2, K)),
        Err(ProcessError::Decode(DecodeError::MalformedLength))
    );
    assert_eq!(accounts[1].data, vec![1u8; 33]);
}

#[test]
fn init_access_list_on_slot_of_another_owner_is_refused() {
    let mut accounts = registered_alice();
    assert_eq!(process_instruction(&PROGRAM, &mut accounts, &keyed(2, K)), Ok(()));
    let list = accounts[1].data.clone();
    let state_before = accounts[0].data.clone();
    accounts[2] = slot(BOB, true, Vec::new());
    assert_eq!(
        process_instruction(&PROGRAM, &mut accounts, &[1]),
        Err(ProcessError::Authorization(AuthorizationError::SlotTaken))
    );
    assert_eq!(accounts[1].data, list);
    assert_eq!(accounts[0].data, state_before);
}

#[test]
fn owner_may_register_own_slot_again() {
    let mut accounts = registered_alice();
    assert_eq!(process_instruction(&PROGRAM, &mut accounts, &keyed(2, K)), Ok(()));
    assert_eq!(process_instruction(&PROGRAM, &mut accounts, &[1]), Ok(()));
    assert!(accounts[1].data.is_empty());
    let data = ProgramData::unpack(&accounts[0].data).unwrap();
    assert_eq!(data.user_access_map, vec![(ALICE, SLOT_A)]);
}

#[test]
fn init_with_trailing_bytes_is_refused() {
    let mut accounts = vec![slot(STATE, false, vec![3, 3])];
    assert_eq!(
        process_instruction(&PROGRAM, &mut accounts, &[0, 0]),
        Err(ProcessError::Decode(DecodeError::InvalidPayloadLength))
    );
    assert_eq!(accounts[0].data, vec![3, 3]);
}
