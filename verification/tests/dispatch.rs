use solana_program::pubkey::Pubkey;
use student_intro::addr::{derive_ata, Address, SYSTEM_PROGRAM_ID, TOKEN_PROGRAM_ID};
use student_intro::codec::{decode_reply_counter, decode_student_info};
use student_intro::ledger::Ledger;
use student_intro::processor::{
    initialize_token_mint, process_instruction, unpack, IntroInstruction, SuppliedAccount,
};
use student_intro::records::IntroError;
use student_intro::token::Bank;

fn derive(seeds: &[&[u8]], program: &Address) -> Address {
    let p = Pubkey::new_from_array(program.0);
    let (a, _bump) = Pubkey::find_program_address(seeds, &p);
    Address(a.to_bytes())
}

fn with_len_prefix(b: &[u8]) -> Vec<u8> {
    let mut v = (b.len() as u32).to_le_bytes().to_vec();
    v.extend_from_slice(b);
    v
}

fn init_payload(tag: u8, name: &[u8], message: &[u8]) -> Vec<u8> {
    let mut v = vec![tag];
    v.extend(with_len_prefix(name));
    v.extend(with_len_prefix(message));
    v
}

fn signer(a: Address) -> SuppliedAccount {
    SuppliedAccount { address: a, is_signer: true }
}

fn plain(a: Address) -> SuppliedAccount {
    SuppliedAccount { address: a, is_signer: false }
}

#[test]
fn unpack_reads_the_four_operations() {
    match unpack(&init_payload(0, b"Ada", b"Hello")) {
        Some(IntroInstruction::InitUserInput { name, message }) => {
            assert_eq!(name, b"Ada".to_vec());
            assert_eq!(message, b"Hello".to_vec());
        }
        other => panic!("unexpected decode: {:?}", other.is_some()),
    }
    match unpack(&init_payload(1, b"Ada", b"Bye")) {
        Some(IntroInstruction::UpdateStudentIntro { name, message }) => {
            assert_eq!(name, b"Ada".to_vec());
            assert_eq!(message, b"Bye".to_vec());
        }
        other => panic!("unexpected decode: {:?}", other.is_some()),
    }
    let mut reply = vec![2u8];
    reply.extend(with_len_prefix(b"nice!"));
    match unpack(&reply) {
        Some(IntroInstruction::AddReply { reply }) => assert_eq!(reply, b"nice!".to_vec()),
        other => panic!("unexpected decode: {:?}", other.is_some()),
    }
    match unpack(&vec![3u8]) {
        Some(IntroInstruction::InitializeMint) => {}
        other => panic!("unexpected decode: {:?}", other.is_some()),
    }
}

#[test]
fn unpack_rejects_malformed_payloads() {
    assert!(unpack(&Vec::new()).is_none());
    assert!(unpack(&vec![9u8]).is_none());
    // Truncated length prefix.
    assert!(unpack(&vec![0u8, 3, 0, 0]).is_none());
    // Trailing garbage after a complete payload.
    let mut p = init_payload(0, b"Ada", b"Hello");
    p.push(0);
    assert!(unpack(&p).is_none());
    let mut q = vec![3u8];
    q.push(0);
    assert!(unpack(&q).is_none());
}

#[test]
fn dispatch_runs_the_whole_lifecycle() {
    let program = Address([7u8; 32]);
    let author = Address([1u8; 32]);
    let mut ledger = Ledger::new();
    let mut bank = Bank::new();
    ledger.fund(&author, 1_000_000_000_000);
    let mint = derive(&[b"token_mint"], &program);
    let auth = derive(&[b"token_auth"], &program);
    let system = Address(SYSTEM_PROGRAM_ID);
    let token = Address(TOKEN_PROGRAM_ID);
    let rent = Address(student_intro::addr::RENT_SYSVAR_ID);

    let accounts = vec![signer(author), plain(mint), plain(auth), plain(system), plain(token), plain(rent)];
    let r = process_instruction(&mut ledger, &mut bank, &program, &accounts, &vec![3u8]);
    assert_eq!(r, Ok(()));

    let intro = derive(&[&author.0], &program);
    let counter = derive(&[&intro.0, b"reply"], &program);
    let ata = derive_ata(&author, &mint).unwrap();
    let accounts = vec![
        signer(author),
        plain(intro),
        plain(counter),
        plain(mint),
        plain(auth),
        plain(ata),
        plain(system),
        plain(token),
    ];
    let r = process_instruction(
        &mut ledger,
        &mut bank,
        &program,
        &accounts,
        &init_payload(0, b"Ada", b"Hello"),
    );
    assert_eq!(r, Ok(()));
    let rec = decode_student_info(&ledger.account_data(&intro).unwrap()).unwrap();
    assert_eq!(rec.name, b"Ada".to_vec());
    assert_eq!(rec.msg, b"Hello".to_vec());

    let accounts = vec![signer(author), plain(intro)];
    let r = process_instruction(
        &mut ledger,
        &mut bank,
        &program,
        &accounts,
        &init_payload(1, b"Ada", b"Hello again"),
    );
    assert_eq!(r, Ok(()));
    let rec = decode_student_info(&ledger.account_data(&intro).unwrap()).unwrap();
    assert_eq!(rec.name, b"Ada".to_vec());
    assert_eq!(rec.msg, b"Hello again".to_vec());

    let replier = Address([8u8; 32]);
    ledger.fund(&replier, 1_000_000_000_000);
    let reply0 = derive(&[&intro.0, &0u8.to_be_bytes()], &program);
    let mut payload = vec![2u8];
    payload.extend(with_len_prefix(b"nice!"));
    let accounts = vec![signer(replier), plain(intro), plain(counter), plain(reply0), plain(system)];
    let r = process_instruction(&mut ledger, &mut bank, &program, &accounts, &payload);
    assert_eq!(r, Ok(()));
    let crec = decode_reply_counter(&ledger.account_data(&counter).unwrap()).unwrap();
    assert_eq!(crec.counter, 1);
}

#[test]
fn dispatch_refuses_garbage_and_short_account_lists() {
    let program = Address([7u8; 32]);
    let mut ledger = Ledger::new();
    let mut bank = Bank::new();
    let r = process_instruction(&mut ledger, &mut bank, &program, &Vec::new(), &vec![9u8]);
    assert_eq!(r, Err(IntroError::InvalidInstruction));
    let r = process_instruction(
        &mut ledger,
        &mut bank,
        &program,
        &Vec::new(),
        &init_payload(0, b"Ada", b"Hello"),
    );
    assert_eq!(r, Err(IntroError::NotEnoughAccounts));
    let r = process_instruction(&mut ledger, &mut bank, &program, &Vec::new(), &vec![3u8]);
    assert_eq!(r, Err(IntroError::NotEnoughAccounts));
}

#[test]
fn dispatch_mint_setup_twice_fails_at_provisioning() {
    let program = Address([7u8; 32]);
    let payer = Address([1u8; 32]);
    let mut ledger = Ledger::new();
    let mut bank = Bank::new();
    ledger.fund(&payer, 1_000_000_000_000);
    let mint = derive(&[b"token_mint"], &program);
    let auth = derive(&[b"token_auth"], &program);
    let r = initialize_token_mint(
        &mut ledger,
        &mut bank,
        &program,
        &payer,
        &mint,
        &auth,
        &Address(TOKEN_PROGRAM_ID),
        &Address(SYSTEM_PROGRAM_ID),
        &Address(student_intro::addr::RENT_SYSVAR_ID),
    );
    assert_eq!(r, Ok(()));
    let accounts = vec![
        signer(payer),
        plain(mint),
        plain(auth),
        plain(Address(SYSTEM_PROGRAM_ID)),
        plain(Address(TOKEN_PROGRAM_ID)),
        plain(Address(student_intro::addr::RENT_SYSVAR_ID)),
    ];
    let r = process_instruction(&mut ledger, &mut bank, &program, &accounts, &vec![3u8]);
    assert_eq!(r, Err(IntroError::AddressAlreadyInUse));
}
