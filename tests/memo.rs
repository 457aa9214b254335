use solana_pam::{process_instruction, AccountSlot, DecodeError, HostIOError, ProcessError};

fn unique_key(n: u8) -> [u8; 32] {
    let mut k = [0u8; 32];
    k[0] = n;
    k[31] = 0xA5;
    k
}

fn account(key: [u8; 32], is_signer: bool) -> AccountSlot {
    AccountSlot { key, is_signer, data: Vec::new() }
}

#[test]
fn test_utf8_memo() {
    let program_id = [0u8; 32];

    let string = b"letters and such";
    let mut none: Vec<AccountSlot> = Vec::new();
    assert_eq!(
        Err(ProcessError::HostIO(HostIOError::NotEnoughAccountKeys)),
        process_instruction(&program_id, &mut none, string)
    );

    let emoji = "🐆".as_bytes();
    let bytes = [0xF0, 0x9F, 0x90, 0x86];
    assert_eq!(emoji, bytes);
    assert_eq!(
        Err(ProcessError::HostIO(HostIOError::NotEnoughAccountKeys)),
        process_instruction(&program_id, &mut none, emoji)
    );

    let mut bad_utf8 = bytes;
    bad_utf8[3] = 0xFF;
    assert_eq!(
        Err(ProcessError::HostIO(HostIOError::NotEnoughAccountKeys)),
        process_instruction(&program_id, &mut none, &bad_utf8)
    );
}

#[test]
fn test_signers() {
    let program_id = [0u8; 32];
    let memo = "üêÜ".as_bytes();

    let pubkey0 = unique_key(1);
    let pubkey1 = unique_key(2);
    let pubkey2 = unique_key(3);

    let mut signed_account_infos =
        vec![account(pubkey0, true), account(pubkey1, true), account(pubkey2, true)];
    assert_eq!(
        Err(ProcessError::Decode(DecodeError::UnknownInstruction)),
        process_instruction(&program_id, &mut signed_account_infos, memo)
    );

    let mut none: Vec<AccountSlot> = Vec::new();
    assert_eq!(
        Err(ProcessError::HostIO(HostIOError::NotEnoughAccountKeys)),
        process_instruction(&program_id, &mut none, memo)
    );

    let mut unsigned_account_infos =
        vec![account(pubkey0, false), account(pubkey1, false), account(pubkey2, false)];
    assert_eq!(
        Err(ProcessError::Decode(DecodeError::UnknownInstruction)),
        process_instruction(&program_id, &mut unsigned_account_infos, memo)
    );

    let mut partially_signed_account_infos =
        vec![account(pubkey0, true), account(pubkey1, false), account(pubkey2, true)];
    assert_eq!(
        Err(ProcessError::Decode(DecodeError::UnknownInstruction)),
        process_instruction(&program_id, &mut partially_signed_account_infos, memo)
    );
    assert!(partially_signed_account_infos.iter().all(|a| a.data.is_empty()));
}
