use solana_program::pubkey::Pubkey;
use student_intro::addr::{derive_ata, Address, ATA_PROGRAM_ID, SYSTEM_PROGRAM_ID, TOKEN_PROGRAM_ID};
use student_intro::codec::{
    decode_reply, decode_reply_counter, decode_student_info, encode_reply, encode_reply_counter,
    encode_student_info,
};
use student_intro::ledger::{rent_exempt_minimum, AccountModel, Entry, Ledger};
use student_intro::processor::{
    add_reply, add_student_intro, initialize_token_mint, update_student_intro, REWARD_AMOUNT,
};
use student_intro::records::{IntroError, Reply, ReplyCounter, StudentInfo};
use student_intro::token::{mint_reward, Bank};

fn pid() -> Address {
    Address([7u8; 32])
}

fn derive(seeds: &[&[u8]], program: &Address) -> Address {
    let p = Pubkey::new_from_array(program.0);
    let (a, _bump) = Pubkey::find_program_address(seeds, &p);
    Address(a.to_bytes())
}

fn ata_for(wallet: &Address, mint: &Address) -> Address {
    derive_ata(wallet, mint).expect("associated token address")
}

struct World {
    ledger: Ledger,
    bank: Bank,
    program: Address,
    author: Address,
    intro: Address,
    counter: Address,
    mint: Address,
    auth: Address,
    ata: Address,
}

/// A funded author, the mint set up, and every derived address in hand.
fn world() -> World {
    let program = pid();
    let author = Address([1u8; 32]);
    let mut ledger = Ledger::new();
    let mut bank = Bank::new();
    ledger.fund(&author, 1_000_000_000_000);
    let mint = derive(&[b"token_mint"], &program);
    let auth = derive(&[b"token_auth"], &program);
    let r = initialize_token_mint(
        &mut ledger,
        &mut bank,
        &program,
        &author,
        &mint,
        &auth,
        &Address(TOKEN_PROGRAM_ID),
        &Address(SYSTEM_PROGRAM_ID),
        &Address(student_intro::addr::RENT_SYSVAR_ID),
    );
    assert_eq!(r, Ok(()));
    let intro = derive(&[&author.0], &program);
    let counter = derive(&[&intro.0, b"reply"], &program);
    let ata = ata_for(&author, &mint);
    World { ledger, bank, program, author, intro, counter, mint, auth, ata }
}

fn create_ada(w: &mut World) {
    let r = add_student_intro(
        &mut w.ledger,
        &mut w.bank,
        &w.program,
        &w.author,
        true,
        &w.intro,
        &w.counter,
        &w.mint,
        &w.auth,
        &w.ata,
        b"Ada".to_vec(),
        b"Hello".to_vec(),
    );
    assert_eq!(r, Ok(()));
}

#[test]
fn well_known_ids_match_collaborators() {
    assert_eq!(TOKEN_PROGRAM_ID, spl_token::ID.to_bytes());
    assert_eq!(ATA_PROGRAM_ID, spl_associated_token_account::ID.to_bytes());
    assert_eq!(SYSTEM_PROGRAM_ID, [0u8; 32]);
}

#[test]
fn rent_schedule_matches_oracle() {
    let oracle = solana_program::rent::Rent::default();
    assert_eq!(rent_exempt_minimum(1000), oracle.minimum_balance(1000));
    assert_eq!(rent_exempt_minimum(13), oracle.minimum_balance(13));
    assert_eq!(rent_exempt_minimum(82), oracle.minimum_balance(82));
    assert_eq!(rent_exempt_minimum(0), oracle.minimum_balance(0));
}

#[test]
fn ata_derivation_matches_collaborator() {
    let wallet = Pubkey::new_from_array([3u8; 32]);
    let mint = Pubkey::new_from_array([4u8; 32]);
    let expected = spl_associated_token_account::get_associated_token_address(&wallet, &mint);
    let got = ata_for(&Address(wallet.to_bytes()), &Address(mint.to_bytes()));
    assert_eq!(got.0, expected.to_bytes());
}

#[test]
fn codec_matches_borsh_layouts() {
    let rec = StudentInfo {
        discriminator: b"studentinfo".to_vec(),
        is_initialized: true,
        name: b"Ada".to_vec(),
        msg: b"Hello".to_vec(),
    };
    let ours = encode_student_info(&rec);
    let reference = borsh::to_vec(&(
        "studentinfo".to_string(),
        true,
        "Ada".to_string(),
        "Hello".to_string(),
    ))
    .unwrap();
    assert_eq!(ours, reference);

    let crec = ReplyCounter {
        discriminator: b"counter".to_vec(),
        is_initialized: true,
        counter: 3,
    };
    let ours = encode_reply_counter(&crec);
    let reference = borsh::to_vec(&("counter".to_string(), true, 3u8)).unwrap();
    assert_eq!(ours, reference);

    let back = [9u8; 32];
    let rrec = Reply {
        discriminator: b"reply".to_vec(),
        is_initialized: true,
        studentinfo: back.to_vec(),
        reply: b"nice!".to_vec(),
    };
    let ours = encode_reply(&rrec);
    let reference = borsh::to_vec(&("reply".to_string(), true, back, "nice!".to_string())).unwrap();
    assert_eq!(ours, reference);
}

#[test]
fn create_writes_record_counter_and_reward() {
    let mut w = world();
    create_ada(&mut w);
    let data = w.ledger.account_data(&w.intro).expect("introduction account");
    let rec = decode_student_info(&data).expect("decodes");
    assert_eq!(rec.discriminator, b"studentinfo".to_vec());
    assert!(rec.is_initialized);
    assert_eq!(rec.name, b"Ada".to_vec());
    assert_eq!(rec.msg, b"Hello".to_vec());
    let cdata = w.ledger.account_data(&w.counter).expect("counter account");
    let crec = decode_reply_counter(&cdata).expect("decodes");
    assert!(crec.is_initialized);
    assert_eq!(crec.counter, 0);
    assert_eq!(w.bank.balance_of(&w.ata), 10_000_000_000);
    assert_eq!(REWARD_AMOUNT, 10 * solana_program::native_token::LAMPORTS_PER_SOL);
}

#[test]
fn create_twice_fails_with_address_in_use() {
    let mut w = world();
    create_ada(&mut w);
    let r = add_student_intro(
        &mut w.ledger,
        &mut w.bank,
        &w.program,
        &w.author,
        true,
        &w.intro,
        &w.counter,
        &w.mint,
        &w.auth,
        &w.ata,
        b"Ada".to_vec(),
        b"Hello again".to_vec(),
    );
    assert_eq!(r, Err(IntroError::AddressAlreadyInUse));
}

#[test]
fn create_without_signature_is_refused() {
    let mut w = world();
    let r = add_student_intro(
        &mut w.ledger,
        &mut w.bank,
        &w.program,
        &w.author,
        false,
        &w.intro,
        &w.counter,
        &w.mint,
        &w.auth,
        &w.ata,
        b"Ada".to_vec(),
        b"Hello".to_vec(),
    );
    assert_eq!(r, Err(IntroError::MissingAuthorization));
}

#[test]
fn create_with_foreign_address_is_refused() {
    let mut w = world();
    // The author's own wallet address is not the derived record address.
    let claimed = w.author;
    let r = add_student_intro(
        &mut w.ledger,
        &mut w.bank,
        &w.program,
        &w.author,
        true,
        &claimed,
        &w.counter,
        &w.mint,
        &w.auth,
        &w.ata,
        b"Ada".to_vec(),
        b"Hello".to_vec(),
    );
    assert_eq!(r, Err(IntroError::InvalidDerivedAddress));
}

#[test]
fn create_with_wrong_collaborators_is_refused() {
    let mut w = world();
    let wrong = Address([42u8; 32]);
    let r = add_student_intro(
        &mut w.ledger,
        &mut w.bank,
        &w.program,
        &w.author,
        true,
        &w.intro,
        &w.counter,
        &wrong,
        &w.auth,
        &w.ata,
        b"Ada".to_vec(),
        b"Hello".to_vec(),
    );
    assert_eq!(r, Err(IntroError::IncorrectCollaboratorAccount));
    let r = add_student_intro(
        &mut w.ledger,
        &mut w.bank,
        &w.program,
        &w.author,
        true,
        &w.intro,
        &w.counter,
        &w.mint,
        &w.auth,
        &wrong,
        b"Ada".to_vec(),
        b"Hello".to_vec(),
    );
    assert_eq!(r, Err(IntroError::IncorrectCollaboratorAccount));
}

#[test]
fn create_with_poor_author_is_refused() {
    let mut w = world();
    let poor = Address([2u8; 32]);
    w.ledger.fund(&poor, 100);
    let intro = derive(&[&poor.0], &w.program);
    let counter = derive(&[&intro.0, b"reply"], &w.program);
    let ata = ata_for(&poor, &w.mint);
    let r = add_student_intro(
        &mut w.ledger,
        &mut w.bank,
        &w.program,
        &poor,
        true,
        &intro,
        &counter,
        &w.mint,
        &w.auth,
        &ata,
        b"Ada".to_vec(),
        b"Hello".to_vec(),
    );
    assert_eq!(r, Err(IntroError::InsufficientFunds));
}

#[test]
fn boundary_record_of_exactly_1000_bytes() {
    let mut w = world();
    // Total serialized size is 24 + name + message.
    let name = vec![b'n'; 3];
    let message = vec![b'm'; 973];
    let r = add_student_intro(
        &mut w.ledger,
        &mut w.bank,
        &w.program,
        &w.author,
        true,
        &w.intro,
        &w.counter,
        &w.mint,
        &w.auth,
        &w.ata,
        name,
        message,
    );
    assert_eq!(r, Ok(()));
}

#[test]
fn boundary_record_of_1001_bytes_is_refused() {
    let mut w = world();
    let name = vec![b'n'; 3];
    let message = vec![b'm'; 974];
    let r = add_student_intro(
        &mut w.ledger,
        &mut w.bank,
        &w.program,
        &w.author,
        true,
        &w.intro,
        &w.counter,
        &w.mint,
        &w.auth,
        &w.ata,
        name,
        message,
    );
    assert_eq!(r, Err(IntroError::RecordTooLarge));
}

#[test]
fn update_changes_message_and_keeps_name() {
    let mut w = world();
    create_ada(&mut w);
    let before = decode_student_info(&w.ledger.account_data(&w.intro).unwrap()).unwrap();
    let r = update_student_intro(
        &mut w.ledger,
        &w.program,
        &w.author,
        &w.intro,
        b"Hello again, world".to_vec(),
    );
    assert_eq!(r, Ok(()));
    let after = decode_student_info(&w.ledger.account_data(&w.intro).unwrap()).unwrap();
    assert_eq!(after.name, before.name);
    assert_eq!(after.msg, b"Hello again, world".to_vec());
    assert!(after.is_initialized);
}

#[test]
fn update_by_third_party_is_refused() {
    let mut w = world();
    create_ada(&mut w);
    let stranger = Address([5u8; 32]);
    w.ledger.fund(&stranger, 1_000_000_000);
    let r = update_student_intro(
        &mut w.ledger,
        &w.program,
        &stranger,
        &w.intro,
        b"defaced".to_vec(),
    );
    assert_eq!(r, Err(IntroError::InvalidDerivedAddress));
    let after = decode_student_info(&w.ledger.account_data(&w.intro).unwrap()).unwrap();
    assert_eq!(after.msg, b"Hello".to_vec());
}

#[test]
fn update_of_missing_record_is_refused() {
    let mut w = world();
    let r = update_student_intro(
        &mut w.ledger,
        &w.program,
        &w.author,
        &w.intro,
        b"anything".to_vec(),
    );
    assert_eq!(r, Err(IntroError::UninitializedAccount));
}

#[test]
fn update_of_foreign_owned_record_is_refused() {
    let mut w = world();
    // A record at the right derived address but owned by the system program.
    let rec = StudentInfo {
        discriminator: b"studentinfo".to_vec(),
        is_initialized: true,
        name: b"Ada".to_vec(),
        msg: b"Hello".to_vec(),
    };
    let data = encode_student_info(&rec);
    w.ledger.accounts.push(Entry {
        key: w.intro,
        acct: AccountModel { owner: Address(SYSTEM_PROGRAM_ID), lamports: 1, data },
    });
    let r = update_student_intro(
        &mut w.ledger,
        &w.program,
        &w.author,
        &w.intro,
        b"new".to_vec(),
    );
    assert_eq!(r, Err(IntroError::IllegalOwner));
}

#[test]
fn update_that_outgrows_the_region_is_refused() {
    let mut w = world();
    let rec = StudentInfo {
        discriminator: b"studentinfo".to_vec(),
        is_initialized: true,
        name: b"Ada".to_vec(),
        msg: b"Hi".to_vec(),
    };
    let data = encode_student_info(&rec);
    w.ledger.accounts.push(Entry {
        key: w.intro,
        acct: AccountModel { owner: w.program, lamports: 1, data },
    });
    let r = update_student_intro(
        &mut w.ledger,
        &w.program,
        &w.author,
        &w.intro,
        b"a message longer than the tiny region".to_vec(),
    );
    assert_eq!(r, Err(IntroError::SerializationOverflow));
}

#[test]
fn add_reply_writes_record_and_advances_counter() {
    let mut w = world();
    create_ada(&mut w);
    let replier = Address([8u8; 32]);
    w.ledger.fund(&replier, 1_000_000_000_000);
    let reply0 = derive(&[&w.intro.0, &0u8.to_be_bytes()], &w.program);
    let r = add_reply(
        &mut w.ledger,
        &w.program,
        &replier,
        &w.intro,
        &w.counter,
        &reply0,
        b"nice!".to_vec(),
    );
    assert_eq!(r, Ok(()));
    let rdata = w.ledger.account_data(&reply0).expect("reply account");
    let rrec = decode_reply(&rdata).expect("decodes");
    assert_eq!(rrec.discriminator, b"reply".to_vec());
    assert!(rrec.is_initialized);
    assert_eq!(rrec.studentinfo, w.intro.0.to_vec());
    assert_eq!(rrec.reply, b"nice!".to_vec());
    let crec = decode_reply_counter(&w.ledger.account_data(&w.counter).unwrap()).unwrap();
    assert_eq!(crec.counter, 1);
}

#[test]
fn sequential_replies_count_and_derive_in_order() {
    let mut w = world();
    create_ada(&mut w);
    let replier = Address([8u8; 32]);
    w.ledger.fund(&replier, 1_000_000_000_000);
    for k in 0u8..3 {
        let reply_k = derive(&[&w.intro.0, &k.to_be_bytes()], &w.program);
        let r = add_reply(
            &mut w.ledger,
            &w.program,
            &replier,
            &w.intro,
            &w.counter,
            &reply_k,
            vec![b'r', k],
        );
        assert_eq!(r, Ok(()));
        let crec = decode_reply_counter(&w.ledger.account_data(&w.counter).unwrap()).unwrap();
        assert_eq!(crec.counter, k + 1);
    }
}

#[test]
fn reply_with_stale_counter_address_is_refused() {
    let mut w = world();
    create_ada(&mut w);
    let replier = Address([8u8; 32]);
    w.ledger.fund(&replier, 1_000_000_000_000);
    let reply0 = derive(&[&w.intro.0, &0u8.to_be_bytes()], &w.program);
    assert_eq!(
        add_reply(
            &mut w.ledger,
            &w.program,
            &replier,
            &w.intro,
            &w.counter,
            &reply0,
            b"first".to_vec(),
        ),
        Ok(())
    );
    // Reusing the address derived from the consumed count must fail.
    let r = add_reply(
        &mut w.ledger,
        &w.program,
        &replier,
        &w.intro,
        &w.counter,
        &reply0,
        b"second".to_vec(),
    );
    assert_eq!(r, Err(IntroError::InvalidDerivedAddress));
}

#[test]
fn reply_against_zero_filled_counter_reads_count_zero() {
    let mut w = world();
    // A zero-filled counter region decodes permissively as count 0 with the
    // flag down; replying against it succeeds and writes count 1 back.
    w.ledger.accounts.push(Entry {
        key: w.counter,
        acct: AccountModel { owner: w.program, lamports: 1, data: vec![0u8; 13] },
    });
    let replier = Address([8u8; 32]);
    w.ledger.fund(&replier, 1_000_000_000_000);
    let reply0 = derive(&[&w.intro.0, &0u8.to_be_bytes()], &w.program);
    let r = add_reply(
        &mut w.ledger,
        &w.program,
        &replier,
        &w.intro,
        &w.counter,
        &reply0,
        b"hello".to_vec(),
    );
    assert_eq!(r, Ok(()));
    let crec = decode_reply_counter(&w.ledger.account_data(&w.counter).unwrap()).unwrap();
    assert_eq!(crec.counter, 1);
    assert!(!crec.is_initialized);
    assert_eq!(crec.discriminator, Vec::<u8>::new());
}

#[test]
fn reply_at_counter_limit_is_refused() {
    let mut w = world();
    let crec = ReplyCounter {
        discriminator: b"counter".to_vec(),
        is_initialized: true,
        counter: 255,
    };
    let data = encode_reply_counter(&crec);
    w.ledger.accounts.push(Entry {
        key: w.counter,
        acct: AccountModel { owner: w.program, lamports: 1, data },
    });
    let replier = Address([8u8; 32]);
    w.ledger.fund(&replier, 1_000_000_000_000);
    let reply255 = derive(&[&w.intro.0, &255u8.to_be_bytes()], &w.program);
    let r = add_reply(
        &mut w.ledger,
        &w.program,
        &replier,
        &w.intro,
        &w.counter,
        &reply255,
        b"last".to_vec(),
    );
    assert_eq!(r, Err(IntroError::Overflow));
}

#[test]
fn setup_mint_twice_fails_with_address_in_use() {
    let mut w = world();
    let r = initialize_token_mint(
        &mut w.ledger,
        &mut w.bank,
        &w.program,
        &w.author,
        &w.mint,
        &w.auth,
        &Address(TOKEN_PROGRAM_ID),
        &Address(SYSTEM_PROGRAM_ID),
        &Address(student_intro::addr::RENT_SYSVAR_ID),
    );
    assert_eq!(r, Err(IntroError::AddressAlreadyInUse));
}

#[test]
fn setup_mint_with_wrong_token_program_is_refused() {
    let program = pid();
    let payer = Address([1u8; 32]);
    let mut ledger = Ledger::new();
    let mut bank = Bank::new();
    ledger.fund(&payer, 1_000_000_000_000);
    let mint = derive(&[b"token_mint"], &program);
    let auth = derive(&[b"token_auth"], &program);
    let r = initialize_token_mint(
        &mut ledger,
        &mut bank,
        &program,
        &payer,
        &mint,
        &auth,
        &Address([42u8; 32]),
        &Address(SYSTEM_PROGRAM_ID),
        &Address(student_intro::addr::RENT_SYSVAR_ID),
    );
    assert_eq!(r, Err(IntroError::IncorrectCollaboratorAccount));
}

#[test]
fn setup_mint_on_initialized_bank_is_refused() {
    let mut w = world();
    // A fresh ledger with the same, already-initialized bank.
    let mut ledger = Ledger::new();
    let payer = Address([1u8; 32]);
    ledger.fund(&payer, 1_000_000_000_000);
    let r = initialize_token_mint(
        &mut ledger,
        &mut w.bank,
        &w.program,
        &payer,
        &w.mint,
        &w.auth,
        &Address(TOKEN_PROGRAM_ID),
        &Address(SYSTEM_PROGRAM_ID),
        &Address(student_intro::addr::RENT_SYSVAR_ID),
    );
    assert_eq!(r, Err(IntroError::AlreadyInitialized));
}

#[test]
fn mint_reward_requires_the_minting_authority() {
    let mut w = world();
    let dest = Address([6u8; 32]);
    let wrong = Address([42u8; 32]);
    let r = mint_reward(&mut w.bank, &w.mint, &wrong, &dest, 5);
    assert_eq!(r, Err(IntroError::MissingAuthorization));
    let mut bank = Bank::new();
    let r = mint_reward(&mut bank, &w.mint, &w.auth, &dest, 5);
    assert_eq!(r, Err(IntroError::UninitializedAccount));
    let r = mint_reward(&mut w.bank, &w.mint, &w.auth, &dest, 5);
    assert_eq!(r, Ok(()));
    assert_eq!(w.bank.balance_of(&dest), 5);
}
