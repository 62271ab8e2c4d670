use token_ledger::error::TokenError;
use token_ledger::instruction::TokenInstruction;
use token_ledger::processor::{mint_tokens, process_instruction, transfer_tokens, Account};
use token_ledger::state::{Key, Token, TOKEN_LEN};

fn key(b: u8) -> Key {
    Key::new_from_array([b; 32])
}

fn record_bytes(amount: u64, mint: u8, owner: u8, extra: usize) -> Vec<u8> {
    let mut v = Vec::new();
    v.extend_from_slice(&amount.to_le_bytes());
    v.extend_from_slice(&[mint; 32]);
    v.extend_from_slice(&[owner; 32]);
    v.extend(std::iter::repeat(0xEE).take(extra));
    v
}

fn account(k: u8, owner: Key, is_signer: bool, data: Vec<u8>) -> Account {
    Account { key: key(k), owner, is_signer, data }
}

fn payload(opcode: u8, amount: u64) -> Vec<u8> {
    let mut v = vec![opcode];
    v.extend_from_slice(&amount.to_le_bytes());
    v
}

fn amount_of(a: &Account) -> u64 {
    Token::unpack_from_slice(&a.data).unwrap().amount
}

#[test]
fn round_trip_keeps_record_and_tail() {
    let t = Token { mint: key(3), owner: key(4), amount: 0x0102_0304_0506_0708 };
    let mut buf = vec![0x55u8; 80];
    t.pack_into_slice(&mut buf);
    let back = Token::unpack_from_slice(&buf).unwrap();
    assert_eq!(back.amount, t.amount);
    assert_eq!(back.mint.to_bytes(), [3u8; 32]);
    assert_eq!(back.owner.to_bytes(), [4u8; 32]);
    assert_eq!(&buf[72..], &[0x55u8; 8]);
}

#[test]
fn encoding_layout_is_amount_mint_owner() {
    let t = Token { mint: key(0xAA), owner: key(0xBB), amount: 1000 };
    let mut buf = vec![0u8; TOKEN_LEN];
    assert_eq!(t.pack(&mut buf), Ok(()));
    assert_eq!(buf, record_bytes(1000, 0xAA, 0xBB, 0));
    assert_eq!(&buf[0..8], &[0xE8, 0x03, 0, 0, 0, 0, 0, 0]);
}

#[test]
fn zero_buffer_decodes_uninitialized() {
    let t = Token::unpack_from_slice(&[0u8; 72]).unwrap();
    assert_eq!(t.amount, 0);
    assert!(!t.is_initialized());
    assert_eq!(Token::unpack(&[0u8; 72]).err(), Some(TokenError::Uninitialized));
}

#[test]
fn short_buffers_are_malformed() {
    assert_eq!(Token::unpack_from_slice(&[0u8; 71]).err(), Some(TokenError::Malformed));
    assert_eq!(Token::unpack(&[1u8; 64]).err(), Some(TokenError::Malformed));
    let t = Token { mint: key(1), owner: key(1), amount: 5 };
    let mut buf = vec![9u8; 64];
    assert_eq!(t.pack(&mut buf), Err(TokenError::Malformed));
    assert_eq!(buf, vec![9u8; 64]);
}

#[test]
fn keys_compare_bytewise() {
    assert!(key(1).equals(&key(1)));
    let mut b = [1u8; 32];
    b[31] = 2;
    assert!(!key(1).equals(&Key::new_from_array(b)));
}

#[test]
fn instruction_decoding() {
    let mut p = payload(0, 1000);
    assert_eq!(TokenInstruction::unpack(&p), Ok(TokenInstruction::Mint { amount: 1000 }));
    p.push(7);
    assert_eq!(TokenInstruction::unpack(&p), Ok(TokenInstruction::Mint { amount: 1000 }));
    assert_eq!(
        TokenInstruction::unpack(&payload(1, u64::MAX)),
        Ok(TokenInstruction::Transfer { amount: u64::MAX })
    );
}

#[test]
fn short_or_unknown_payloads_are_invalid() {
    let program = key(9);
    for bad in [vec![], vec![0u8], vec![0u8; 8], vec![1u8; 8], payload(2, 5), payload(255, 0)] {
        let mut accounts = vec![
            account(1, program, true, vec![0u8; 72]),
            account(2, program, true, vec![0u8; 72]),
        ];
        assert_eq!(process_instruction(&program, &mut accounts, &bad), Err(TokenError::InvalidInstruction));
        assert_eq!(accounts[1].data, vec![0u8; 72]);
    }
}

#[test]
fn mint_on_empty_account() {
    let program = key(9);
    let mut accounts = vec![
        account(0xA1, program, false, vec![]),
        account(2, program, false, vec![0u8; 72]),
    ];
    assert_eq!(process_instruction(&program, &mut accounts, &payload(0, 1000)), Ok(()));
    assert_eq!(accounts[1].data, record_bytes(1000, 0xA1, 0xA1, 0));
    let t = Token::unpack(&accounts[1].data).unwrap();
    assert_eq!(t.amount, 1000);
    assert_eq!(t.mint.to_bytes(), [0xA1; 32]);
    assert_eq!(t.owner.to_bytes(), [0xA1; 32]);
    assert!(accounts[0].data.is_empty());
}

#[test]
fn mint_twice_is_refused() {
    let program = key(9);
    let mut accounts = vec![
        account(0xA1, program, false, vec![]),
        account(2, program, false, vec![0u8; 72]),
    ];
    assert_eq!(mint_tokens(&program, &mut accounts, 5), Ok(()));
    let before = accounts[1].data.clone();
    assert_eq!(mint_tokens(&program, &mut accounts, 7), Err(TokenError::AlreadyInitialized));
    assert_eq!(accounts[1].data, before);
}

#[test]
fn mint_checks_owner_length_and_accounts() {
    let program = key(9);
    let mut foreign = vec![account(1, program, false, vec![]), account(2, key(8), false, vec![0u8; 72])];
    assert_eq!(mint_tokens(&program, &mut foreign, 5), Err(TokenError::IncorrectOwner));
    assert_eq!(foreign[1].data, vec![0u8; 72]);
    let mut short = vec![account(1, program, false, vec![]), account(2, program, false, vec![0u8; 64])];
    assert_eq!(mint_tokens(&program, &mut short, 5), Err(TokenError::Malformed));
    let mut one = vec![account(1, program, false, vec![0u8; 72])];
    assert_eq!(mint_tokens(&program, &mut one, 5), Err(TokenError::NotEnoughAccounts));
}

#[test]
fn transfer_moves_balance() {
    let program = key(9);
    let mut accounts = vec![
        account(1, program, false, record_bytes(1000, 0xA1, 0xA1, 0)),
        account(2, program, false, vec![0u8; 72]),
        account(3, program, true, vec![]),
    ];
    assert_eq!(process_instruction(&program, &mut accounts, &payload(1, 300)), Ok(()));
    assert_eq!(amount_of(&accounts[0]), 700);
    assert_eq!(amount_of(&accounts[1]), 300);
    assert_eq!(accounts[0].data, record_bytes(700, 0xA1, 0xA1, 0));
    assert_eq!(accounts[1].data, record_bytes(300, 0, 0, 0));
}

#[test]
fn transfer_conserves_sum() {
    let program = key(9);
    let mut accounts = vec![
        account(1, program, false, record_bytes(5000, 1, 1, 4)),
        account(2, program, false, record_bytes(250, 2, 2, 0)),
        account(3, program, true, vec![]),
    ];
    assert_eq!(transfer_tokens(&program, &mut accounts, 5000), Ok(()));
    assert_eq!(amount_of(&accounts[0]), 0);
    assert_eq!(amount_of(&accounts[1]), 5250);
    assert_eq!(accounts[0].data, record_bytes(0, 1, 1, 4));
    assert_eq!(accounts[1].data, record_bytes(5250, 2, 2, 0));
}

#[test]
fn transfer_over_balance_is_refused() {
    let program = key(9);
    let src = record_bytes(1000, 0xA1, 0xA1, 0);
    let mut accounts = vec![
        account(1, program, false, src.clone()),
        account(2, program, false, vec![0u8; 72]),
        account(3, program, true, vec![]),
    ];
    assert_eq!(process_instruction(&program, &mut accounts, &payload(1, 1001)), Err(TokenError::InsufficientFunds));
    assert_eq!(accounts[0].data, src);
    assert_eq!(accounts[1].data, vec![0u8; 72]);
}

#[test]
fn transfer_needs_signature_first() {
    let program = key(9);
    let mut accounts = vec![
        account(1, program, false, vec![1u8; 3]),
        account(2, program, false, vec![]),
        account(3, program, false, vec![]),
    ];
    assert_eq!(transfer_tokens(&program, &mut accounts, 1), Err(TokenError::MissingSignature));
    assert_eq!(accounts[0].data, vec![1u8; 3]);
}

#[test]
fn transfer_other_refusals() {
    let program = key(9);
    let mut two = vec![account(1, program, true, vec![0u8; 72]), account(2, program, true, vec![0u8; 72])];
    assert_eq!(transfer_tokens(&program, &mut two, 1), Err(TokenError::NotEnoughAccounts));

    let mut empty_source = vec![
        account(1, program, false, vec![0u8; 72]),
        account(2, program, false, vec![0u8; 72]),
        account(3, program, true, vec![]),
    ];
    assert_eq!(transfer_tokens(&program, &mut empty_source, 0), Err(TokenError::Uninitialized));

    let mut short_dest = vec![
        account(1, program, false, record_bytes(10, 1, 1, 0)),
        account(2, program, false, vec![0u8; 71]),
        account(3, program, true, vec![]),
    ];
    assert_eq!(transfer_tokens(&program, &mut short_dest, 1), Err(TokenError::Malformed));
    assert_eq!(amount_of(&short_dest[0]), 10);

    let src = record_bytes(10, 1, 1, 0);
    let dst = record_bytes(u64::MAX - 5, 2, 2, 0);
    let mut full = vec![
        account(1, program, false, src.clone()),
        account(2, program, false, dst.clone()),
        account(3, program, true, vec![]),
    ];
    assert_eq!(transfer_tokens(&program, &mut full, 6), Err(TokenError::Overflow));
    assert_eq!(full[0].data, src);
    assert_eq!(full[1].data, dst);
    assert_eq!(transfer_tokens(&program, &mut full, 5), Ok(()));
    assert_eq!(amount_of(&full[1]), u64::MAX);
}
