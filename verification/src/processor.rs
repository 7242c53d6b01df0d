//! The lifecycle operations: creating and updating introductions, adding
//! replies, and the one-time mint setup, each verified against the ledger
//! and token-bank models.
//!
//! Callers may supply any account list, so every operation re-derives each
//! expected address from the request's own data and refuses to act on any
//! mismatch. Each operation performs all of its checks before its first
//! mutation: a refused request leaves the ledger and the bank exactly as
//! they were, mirroring the host's atomic commit-or-abort guarantee.

use vstd::prelude::*;
use crate::addr::{
    ata_of, auth_seed_views, auth_seeds, check_pda, counter_seed_views, counter_seeds, derive_ata,
    intro_seed_views, intro_seeds, mint_seed_views, mint_seeds, pda_matches, reply_seed_views,
    reply_seeds, Address, RENT_SYSVAR_ID, SYSTEM_PROGRAM_ID, TOKEN_PROGRAM_ID,
};
use crate::codec::{
    counter_tag, counter_tag_bytes, decode_reply, decode_reply_counter, decode_student_info,
    lemma_counter_parse_fits, parse_bytes, read_bytes, enc_reply,
    enc_reply_counter, enc_student_info, encode_reply, encode_reply_counter, encode_student_info,
    intro_tag, intro_tag_bytes, lemma_reply_counter_round_trip, lemma_reply_counter_zeros,
    lemma_reply_zeros, lemma_student_info_round_trip, lemma_student_info_zeros, pad_to, padded,
    parse_reply_counter, parse_student_info, reply_tag, reply_tag_bytes, write_prefix, zeros,
    COUNTER_ACCOUNT_LEN, INTRO_ACCOUNT_LEN, MINT_ACCOUNT_LEN,
};
use crate::ledger::{
    account_is, debited, lemma_wf_data_bound, provision, rent_exempt_min, rent_exempt_minimum,
    AccountModel, Ledger, MAX_ACCOUNT_DATA,
};
use crate::records::{IntroError, Reply, ReplyCounter, StudentInfo};
use crate::token::{
    initialize_mint, initialize_mint_err, mint_reward, mint_reward_err, mint_reward_post, Bank,
};

verus! {

/// The fixed reward minted to an author on creation: ten whole tokens at
/// nine decimal places.
pub const REWARD_AMOUNT: u64 = 10_000_000_000;

/// The mint's decimal count.
pub const TOKEN_DECIMALS: u8 = 9;

/// The total serialized size of an introduction record with the standard
/// discriminator.
pub open spec fn intro_total_len(name_len: int, msg_len: int) -> int {
    4 + 11 + 1 + 4 + name_len + 4 + msg_len
}

/// Which refusal, if any, a creation request meets, in check order: the
/// author's signature, the introduction derivation, the mint, authority and
/// token-account derivations, the record size, the counter derivation, both
/// target addresses being free, the author's funds for both accounts, and
/// the reward issuance itself.
pub open spec fn create_err(
    l: Ledger,
    b: Bank,
    pid: Seq<u8>,
    author: Seq<u8>,
    signed: bool,
    intro_acct: Seq<u8>,
    counter_acct: Seq<u8>,
    mint_acct: Seq<u8>,
    auth_acct: Seq<u8>,
    ata_acct: Seq<u8>,
    name: Seq<u8>,
    msg: Seq<u8>,
) -> Option<IntroError> {
    if !signed {
        Some(IntroError::MissingAuthorization)
    } else if !pda_matches(intro_seed_views(author), pid, intro_acct) {
        Some(IntroError::InvalidDerivedAddress)
    } else if !pda_matches(mint_seed_views(), pid, mint_acct) {
        Some(IntroError::IncorrectCollaboratorAccount)
    } else if !pda_matches(auth_seed_views(), pid, auth_acct) {
        Some(IntroError::IncorrectCollaboratorAccount)
    } else if !(ata_of(author, mint_acct) matches Some(p) && p.0 == ata_acct) {
        Some(IntroError::IncorrectCollaboratorAccount)
    } else if intro_total_len(name.len() as int, msg.len() as int) > INTRO_ACCOUNT_LEN {
        Some(IntroError::RecordTooLarge)
    } else if !pda_matches(counter_seed_views(intro_acct), pid, counter_acct) {
        Some(IntroError::InvalidDerivedAddress)
    } else if l.has(intro_acct) {
        Some(IntroError::AddressAlreadyInUse)
    } else if counter_acct == intro_acct || l.has(counter_acct) {
        Some(IntroError::AddressAlreadyInUse)
    } else if (l.balance(author) as int) < rent_exempt_min(INTRO_ACCOUNT_LEN as int)
        + rent_exempt_min(COUNTER_ACCOUNT_LEN as int) {
        Some(IntroError::InsufficientFunds)
    } else {
        mint_reward_err(b, mint_acct, auth_acct, ata_acct, REWARD_AMOUNT)
    }
}

/// The committed state after a successful creation: the introduction
/// account holds the populated record padded to its fixed allocation, the
/// counter account holds an initialized zero count, the author paid the
/// rent for both, the reward was issued to the author's token account, and
/// nothing else moved.
pub open spec fn create_post(
    l0: Ledger,
    b0: Bank,
    l1: Ledger,
    b1: Bank,
    pid: Seq<u8>,
    author: Seq<u8>,
    intro_acct: Seq<u8>,
    counter_acct: Seq<u8>,
    ata_acct: Seq<u8>,
    name: Seq<u8>,
    msg: Seq<u8>,
) -> bool {
    &&& l1.wf()
    &&& account_is(
        l1.spec_get(intro_acct),
        pid,
        rent_exempt_min(INTRO_ACCOUNT_LEN as int) as u64,
        padded(enc_student_info(intro_tag(), true, name, msg), INTRO_ACCOUNT_LEN as int),
    )
    &&& account_is(
        l1.spec_get(counter_acct),
        pid,
        rent_exempt_min(COUNTER_ACCOUNT_LEN as int) as u64,
        enc_reply_counter(counter_tag(), true, 0),
    )
    &&& debited(
        l0.spec_get(author),
        l1.spec_get(author),
        rent_exempt_min(INTRO_ACCOUNT_LEN as int) + rent_exempt_min(COUNTER_ACCOUNT_LEN as int),
    )
    &&& forall|k: Seq<u8>|
        k != intro_acct && k != counter_acct && k != author ==> l1.spec_get(k) == l0.spec_get(k)
    &&& mint_reward_post(b0, b1, ata_acct, REWARD_AMOUNT)
}


/// The full contract of a creation request: refused with the first error
/// the checks meet and no state moved, or committed as `create_post` says.
pub open spec fn create_behavior(
    l0: Ledger,
    b0: Bank,
    l1: Ledger,
    b1: Bank,
    pid: Seq<u8>,
    author: Seq<u8>,
    signed: bool,
    intro_acct: Seq<u8>,
    counter_acct: Seq<u8>,
    mint_acct: Seq<u8>,
    auth_acct: Seq<u8>,
    ata_acct: Seq<u8>,
    name: Seq<u8>,
    msg: Seq<u8>,
    r: Result<(), IntroError>,
) -> bool {
    match create_err(
        l0,
        b0,
        pid,
        author,
        signed,
        intro_acct,
        counter_acct,
        mint_acct,
        auth_acct,
        ata_acct,
        name,
        msg,
    ) {
        Some(e) => r == Err::<(), IntroError>(e) && l1 == l0 && b1 == b0,
        None => r == Ok::<(), IntroError>(()) && create_post(
            l0,
            b0,
            l1,
            b1,
            pid,
            author,
            intro_acct,
            counter_acct,
            ata_acct,
            name,
            msg,
        ),
    }
}

/// Creates a student introduction: provisions the introduction account and
/// its reply counter, writes both records, and mints the fixed reward to
/// the author's token account. The request must carry the author's
/// signature, and every supplied address is re-derived and checked.
pub fn add_student_intro(
    ledger: &mut Ledger,
    bank: &mut Bank,
    program_id: &Address,
    author: &Address,
    author_signed: bool,
    intro_account: &Address,
    counter_account: &Address,
    mint_account: &Address,
    mint_authority: &Address,
    author_token_account: &Address,
    name: Vec<u8>,
    message: Vec<u8>,
) -> (r: Result<(), IntroError>)
    requires
        old(ledger).wf(),
        old(bank).wf(),
        name@.len() + message@.len() + 28 <= usize::MAX,
    ensures
        create_behavior(
            *old(ledger),
            *old(bank),
            *final(ledger),
            *final(bank),
            program_id@,
            author@,
            author_signed,
            intro_account@,
            counter_account@,
            mint_account@,
            mint_authority@,
            author_token_account@,
            name@,
            message@,
            r,
        ),
{
    if !author_signed {
        return Err(IntroError::MissingAuthorization);
    }
    let intro_sd = intro_seeds(author);
    if !check_pda(&intro_sd, program_id, intro_account) {
        return Err(IntroError::InvalidDerivedAddress);
    }
    let mint_sd = mint_seeds();
    if !check_pda(&mint_sd, program_id, mint_account) {
        return Err(IntroError::IncorrectCollaboratorAccount);
    }
    let auth_sd = auth_seeds();
    if !check_pda(&auth_sd, program_id, mint_authority) {
        return Err(IntroError::IncorrectCollaboratorAccount);
    }
    match derive_ata(author, mint_account) {
        None => {
            return Err(IntroError::IncorrectCollaboratorAccount);
        },
        Some(a) => {
            if !a.eq_addr(author_token_account) {
                return Err(IntroError::IncorrectCollaboratorAccount);
            }
        },
    }
    let total_len: usize = 24 + name.len() + message.len();
    if total_len > INTRO_ACCOUNT_LEN {
        return Err(IntroError::RecordTooLarge);
    }
    let counter_sd = counter_seeds(intro_account);
    if !check_pda(&counter_sd, program_id, counter_account) {
        return Err(IntroError::InvalidDerivedAddress);
    }
    if ledger.find_index(intro_account).is_some() {
        return Err(IntroError::AddressAlreadyInUse);
    }
    if counter_account.eq_addr(intro_account) || ledger.find_index(counter_account).is_some() {
        return Err(IntroError::AddressAlreadyInUse);
    }
    let rent_intro = rent_exempt_minimum(INTRO_ACCOUNT_LEN);
    let rent_counter = rent_exempt_minimum(COUNTER_ACCOUNT_LEN);
    if ledger.lamports_of(author) < rent_intro + rent_counter {
        return Err(IntroError::InsufficientFunds);
    }
    match &bank.mint {
        None => {
            return Err(IntroError::UninitializedAccount);
        },
        Some(m) => {
            if !m.mint.eq_addr(mint_account) {
                return Err(IntroError::IncorrectCollaboratorAccount);
            }
            if !m.authority.eq_addr(mint_authority) {
                return Err(IntroError::MissingAuthorization);
            }
            if m.supply.checked_add(REWARD_AMOUNT).is_none() {
                return Err(IntroError::Overflow);
            }
        },
    }
    if bank.balance_of(author_token_account).checked_add(REWARD_AMOUNT).is_none() {
        return Err(IntroError::Overflow);
    }
    // Every check has passed; commit. The author funds both accounts, so it
    // exists and is distinct from the two unoccupied targets.
    proof {
        assert(old(ledger).spec_get(author@) is Some);
        assert(author@ != intro_account@);
        assert(author@ != counter_account@);
    }
    let r1 = provision(
        ledger,
        program_id,
        author,
        intro_account,
        INTRO_ACCOUNT_LEN,
        program_id,
        &intro_sd,
    );
    if r1.is_err() {
        proof {
            assert(false);
        }
        return Err(IntroError::AddressAlreadyInUse);
    }
    // Defensive: freshly provisioned storage must read as uninitialized.
    let fresh = match ledger.account_data(intro_account) {
        None => {
            proof {
                assert(false);
            }
            return Err(IntroError::UninitializedAccount);
        },
        Some(d) => d,
    };
    proof {
        lemma_student_info_zeros(INTRO_ACCOUNT_LEN as int);
    }
    match decode_student_info(&fresh) {
        None => {
            proof {
                assert(false);
            }
            return Err(IntroError::UninitializedAccount);
        },
        Some(rec0) => {
            if rec0.is_initialized {
                proof {
                    assert(false);
                }
                return Err(IntroError::AlreadyInitialized);
            }
        },
    }
    let rec = StudentInfo {
        discriminator: intro_tag_bytes(),
        is_initialized: true,
        name,
        msg: message,
    };
    let enc = encode_student_info(&rec);
    let intro_data = pad_to(enc, INTRO_ACCOUNT_LEN);
    let ii = match ledger.find_index(intro_account) {
        None => {
            proof {
                assert(false);
            }
            return Err(IntroError::UninitializedAccount);
        },
        Some(i) => i,
    };
    ledger.set_acct(
        ii,
        AccountModel { owner: *program_id, lamports: rent_intro, data: intro_data },
    );
    let r2 = provision(
        ledger,
        program_id,
        author,
        counter_account,
        COUNTER_ACCOUNT_LEN,
        program_id,
        &counter_sd,
    );
    if r2.is_err() {
        proof {
            assert(false);
        }
        return Err(IntroError::AddressAlreadyInUse);
    }
    let cfresh = match ledger.account_data(counter_account) {
        None => {
            proof {
                assert(false);
            }
            return Err(IntroError::UninitializedAccount);
        },
        Some(d) => d,
    };
    proof {
        lemma_reply_counter_zeros(COUNTER_ACCOUNT_LEN as int);
    }
    match decode_reply_counter(&cfresh) {
        None => {
            proof {
                assert(false);
            }
            return Err(IntroError::UninitializedAccount);
        },
        Some(crec0) => {
            if crec0.is_initialized {
                proof {
                    assert(false);
                }
                return Err(IntroError::AlreadyInitialized);
            }
        },
    }
    let crec = ReplyCounter {
        discriminator: counter_tag_bytes(),
        is_initialized: true,
        counter: 0,
    };
    let cenc = encode_reply_counter(&crec);
    let ci = match ledger.find_index(counter_account) {
        None => {
            proof {
                assert(false);
            }
            return Err(IntroError::UninitializedAccount);
        },
        Some(i) => i,
    };
    proof {
        assert(cenc@.len() == COUNTER_ACCOUNT_LEN);
    }
    ledger.set_acct(ci, AccountModel { owner: *program_id, lamports: rent_counter, data: cenc });
    let r3 = mint_reward(bank, mint_account, mint_authority, author_token_account, REWARD_AMOUNT);
    if r3.is_err() {
        proof {
            assert(false);
        }
        return Err(IntroError::Overflow);
    }
    Ok(())
}

/// Which refusal, if any, an update request meets, in check order: the
/// record must exist and be initialized, be owned by this program, match
/// the author's re-derived address, and the new serialized form must fit
/// the fixed allocation and the account's byte region.
pub open spec fn update_err(
    l: Ledger,
    pid: Seq<u8>,
    author: Seq<u8>,
    intro_acct: Seq<u8>,
    msg: Seq<u8>,
) -> Option<IntroError> {
    match l.spec_get(intro_acct) {
        None => Some(IntroError::UninitializedAccount),
        Some(a) => match parse_student_info(a.data@) {
            None => Some(IntroError::UninitializedAccount),
            Some((disc, init, name, _m)) => {
                if !init {
                    Some(IntroError::UninitializedAccount)
                } else if a.owner@ != pid {
                    Some(IntroError::IllegalOwner)
                } else if !pda_matches(intro_seed_views(author), pid, intro_acct) {
                    Some(IntroError::InvalidDerivedAddress)
                } else if 13 + disc.len() + name.len() + msg.len() > INTRO_ACCOUNT_LEN {
                    Some(IntroError::RecordTooLarge)
                } else if 13 + disc.len() + name.len() + msg.len() > a.data@.len() {
                    Some(IntroError::SerializationOverflow)
                } else {
                    None
                }
            },
        },
    }
}

/// The committed state after a successful update: the record keeps its
/// discriminator and its name byte-for-byte, carries the new message, and
/// nothing else about the account or the ledger moves.
pub open spec fn update_post(l0: Ledger, l1: Ledger, intro_acct: Seq<u8>, msg: Seq<u8>) -> bool {
    &&& l1.wf()
    &&& match (l0.spec_get(intro_acct), l1.spec_get(intro_acct)) {
        (Some(a0), Some(a1)) => parse_student_info(a0.data@) matches Some(
            (disc, _init, name, _m),
        ) && {
            let e = enc_student_info(disc, true, name, msg);
            &&& a1.owner@ == a0.owner@
            &&& a1.lamports == a0.lamports
            &&& a1.data@ == e + a0.data@.skip(e.len() as int)
            &&& parse_student_info(a1.data@) == Some((disc, true, name, msg))
        },
        _ => false,
    }
    &&& forall|k: Seq<u8>| k != intro_acct ==> l1.spec_get(k) == l0.spec_get(k)
}


/// The full contract of an update request.
pub open spec fn update_behavior(
    l0: Ledger,
    l1: Ledger,
    pid: Seq<u8>,
    author: Seq<u8>,
    intro_acct: Seq<u8>,
    msg: Seq<u8>,
    r: Result<(), IntroError>,
) -> bool {
    match update_err(l0, pid, author, intro_acct, msg) {
        Some(e) => r == Err::<(), IntroError>(e) && l1 == l0,
        None => r == Ok::<(), IntroError>(()) && update_post(l0, l1, intro_acct, msg),
    }
}

/// Replaces the message of an existing introduction. The name is immutable
/// after creation and is kept byte-identical; only the author whose
/// re-derived address matches the supplied one may update.
pub fn update_student_intro(
    ledger: &mut Ledger,
    program_id: &Address,
    author: &Address,
    intro_account: &Address,
    message: Vec<u8>,
) -> (r: Result<(), IntroError>)
    requires
        old(ledger).wf(),
    ensures
        update_behavior(
            *old(ledger),
            *final(ledger),
            program_id@,
            author@,
            intro_account@,
            message@,
            r,
        ),
{
    let data = match ledger.account_data(intro_account) {
        None => {
            return Err(IntroError::UninitializedAccount);
        },
        Some(d) => d,
    };
    let rec = match decode_student_info(&data) {
        None => {
            return Err(IntroError::UninitializedAccount);
        },
        Some(r) => r,
    };
    if !rec.is_initialized {
        return Err(IntroError::UninitializedAccount);
    }
    let owner = match ledger.owner_of(intro_account) {
        None => {
            proof {
                assert(false);
            }
            return Err(IntroError::UninitializedAccount);
        },
        Some(o) => o,
    };
    if !owner.eq_addr(program_id) {
        return Err(IntroError::IllegalOwner);
    }
    let sd = intro_seeds(author);
    if !check_pda(&sd, program_id, intro_account) {
        return Err(IntroError::InvalidDerivedAddress);
    }
    let t1 = match 13usize.checked_add(rec.discriminator.len()) {
        None => {
            return Err(IntroError::RecordTooLarge);
        },
        Some(v) => v,
    };
    let t2 = match t1.checked_add(rec.name.len()) {
        None => {
            return Err(IntroError::RecordTooLarge);
        },
        Some(v) => v,
    };
    let total = match t2.checked_add(message.len()) {
        None => {
            return Err(IntroError::RecordTooLarge);
        },
        Some(v) => v,
    };
    if total > INTRO_ACCOUNT_LEN {
        return Err(IntroError::RecordTooLarge);
    }
    if total > data.len() {
        return Err(IntroError::SerializationOverflow);
    }
    let newrec = StudentInfo {
        discriminator: rec.discriminator,
        is_initialized: true,
        name: rec.name,
        msg: message,
    };
    let enc = encode_student_info(&newrec);
    let mut newdata = data;
    if write_prefix(&mut newdata, &enc).is_err() {
        proof {
            assert(false);
        }
        return Err(IntroError::SerializationOverflow);
    }
    let i = match ledger.find_index(intro_account) {
        None => {
            proof {
                assert(false);
            }
            return Err(IntroError::UninitializedAccount);
        },
        Some(i) => i,
    };
    let lam = ledger.accounts[i].acct.lamports;
    let own = ledger.accounts[i].acct.owner;
    proof {
        lemma_wf_data_bound(*old(ledger), intro_account@);
    }
    ledger.set_acct(i, AccountModel { owner: own, lamports: lam, data: newdata });
    proof {
        let a0 = old(ledger).spec_get(intro_account@)->0;
        let p = parse_student_info(a0.data@)->0;
        lemma_student_info_round_trip(
            p.0,
            true,
            p.2,
            message@,
            a0.data@.skip(enc@.len() as int),
        );
    }
    Ok(())
}

/// Which refusal, if any, a reply request meets, in check order: the
/// counter record must exist and decode (its initialization flag is not
/// judged, so zero-filled storage reads as a zero count), the reply address
/// must match the derivation from the introduction address and the current
/// count, the allocation must be within the ledger's limit, the target must
/// be free, the replier must cover the rent, and the count must not wrap.
pub open spec fn add_reply_err(
    l: Ledger,
    pid: Seq<u8>,
    replier: Seq<u8>,
    intro_acct: Seq<u8>,
    counter_acct: Seq<u8>,
    reply_acct: Seq<u8>,
    text: Seq<u8>,
) -> Option<IntroError> {
    match l.spec_get(counter_acct) {
        None => Some(IntroError::UninitializedAccount),
        Some(c) => match parse_reply_counter(c.data@) {
            None => Some(IntroError::UninitializedAccount),
            Some((cdisc, cinit, count)) => {
                if !pda_matches(reply_seed_views(intro_acct, count), pid, reply_acct) {
                    Some(IntroError::InvalidDerivedAddress)
                } else if 46 + text.len() > MAX_ACCOUNT_DATA {
                    Some(IntroError::RecordTooLarge)
                } else if l.has(reply_acct) {
                    Some(IntroError::AddressAlreadyInUse)
                } else if (l.balance(replier) as int) < rent_exempt_min(46 + text.len() as int) {
                    Some(IntroError::InsufficientFunds)
                } else if count == 255 {
                    Some(IntroError::Overflow)
                } else {
                    None
                }
            },
        },
    }
}

/// The committed state after a successful reply: a fresh reply account
/// holds the populated record at the address derived from the counter value
/// consumed, the counter's count grew by exactly one with its other bytes
/// untouched, the replier paid the reply account's rent, and nothing else
/// moved.
pub open spec fn add_reply_post(
    l0: Ledger,
    l1: Ledger,
    pid: Seq<u8>,
    replier: Seq<u8>,
    intro_acct: Seq<u8>,
    counter_acct: Seq<u8>,
    reply_acct: Seq<u8>,
    text: Seq<u8>,
) -> bool {
    &&& l1.wf()
    &&& match l0.spec_get(counter_acct) {
        Some(c0) => parse_reply_counter(c0.data@) matches Some((cdisc, cinit, count)) && {
            let ce = enc_reply_counter(cdisc, cinit, (count + 1) as u8);
            &&& account_is(
                l1.spec_get(reply_acct),
                pid,
                rent_exempt_min(46 + text.len() as int) as u64,
                enc_reply(reply_tag(), true, intro_acct, text),
            )
            &&& l1.spec_get(counter_acct) matches Some(c1) && c1.owner@ == c0.owner@
                && c1.lamports == (if counter_acct == replier {
                (c0.lamports - rent_exempt_min(46 + text.len() as int)) as u64
            } else {
                c0.lamports
            }) && c1.data@ == ce + c0.data@.skip(ce.len() as int) && parse_reply_counter(c1.data@)
                == Some((cdisc, cinit, (count + 1) as u8))
            &&& (replier != counter_acct ==> debited(
                l0.spec_get(replier),
                l1.spec_get(replier),
                rent_exempt_min(46 + text.len() as int),
            ))
            &&& forall|k: Seq<u8>|
                k != reply_acct && k != counter_acct && k != replier ==> l1.spec_get(k)
                    == l0.spec_get(k)
        },
        None => false,
    }
}


/// The full contract of a reply request.
pub open spec fn add_reply_behavior(
    l0: Ledger,
    l1: Ledger,
    pid: Seq<u8>,
    replier: Seq<u8>,
    intro_acct: Seq<u8>,
    counter_acct: Seq<u8>,
    reply_acct: Seq<u8>,
    text: Seq<u8>,
    r: Result<(), IntroError>,
) -> bool {
    match add_reply_err(l0, pid, replier, intro_acct, counter_acct, reply_acct, text) {
        Some(e) => r == Err::<(), IntroError>(e) && l1 == l0,
        None => r == Ok::<(), IntroError>(()) && add_reply_post(
            l0,
            l1,
            pid,
            replier,
            intro_acct,
            counter_acct,
            reply_acct,
            text,
        ),
    }
}

/// Adds a reply to an introduction: provisions a reply account at the
/// address derived from the current counter value, writes the record with
/// its back-reference, and only then increments the counter, so a failed
/// attempt never consumes a counter value.
pub fn add_reply(
    ledger: &mut Ledger,
    program_id: &Address,
    replier: &Address,
    intro_account: &Address,
    counter_account: &Address,
    reply_account: &Address,
    reply: Vec<u8>,
) -> (r: Result<(), IntroError>)
    requires
        old(ledger).wf(),
        reply@.len() + 46 <= usize::MAX,
    ensures
        add_reply_behavior(
            *old(ledger),
            *final(ledger),
            program_id@,
            replier@,
            intro_account@,
            counter_account@,
            reply_account@,
            reply@,
            r,
        ),
{
    let cdata = match ledger.account_data(counter_account) {
        None => {
            return Err(IntroError::UninitializedAccount);
        },
        Some(d) => d,
    };
    let crec = match decode_reply_counter(&cdata) {
        None => {
            return Err(IntroError::UninitializedAccount);
        },
        Some(c) => c,
    };
    let rsd = reply_seeds(intro_account, crec.counter);
    if !check_pda(&rsd, program_id, reply_account) {
        return Err(IntroError::InvalidDerivedAddress);
    }
    let account_len: usize = 46 + reply.len();
    if account_len > MAX_ACCOUNT_DATA {
        return Err(IntroError::RecordTooLarge);
    }
    if ledger.find_index(reply_account).is_some() {
        return Err(IntroError::AddressAlreadyInUse);
    }
    let rent = rent_exempt_minimum(account_len);
    if ledger.lamports_of(replier) < rent {
        return Err(IntroError::InsufficientFunds);
    }
    if crec.counter == 255 {
        return Err(IntroError::Overflow);
    }
    proof {
        assert(old(ledger).spec_get(replier@) is Some);
        assert(replier@ != reply_account@);
    }
    let r1 = provision(ledger, program_id, replier, reply_account, account_len, program_id, &rsd);
    if r1.is_err() {
        proof {
            assert(false);
        }
        return Err(IntroError::AddressAlreadyInUse);
    }
    // Defensive: freshly provisioned storage must read as uninitialized.
    let fresh = match ledger.account_data(reply_account) {
        None => {
            proof {
                assert(false);
            }
            return Err(IntroError::UninitializedAccount);
        },
        Some(d) => d,
    };
    proof {
        lemma_reply_zeros(account_len as int);
    }
    match decode_reply(&fresh) {
        None => {
            proof {
                assert(false);
            }
            return Err(IntroError::UninitializedAccount);
        },
        Some(r0) => {
            if r0.is_initialized {
                proof {
                    assert(false);
                }
                return Err(IntroError::AlreadyInitialized);
            }
        },
    }
    let rrec = Reply {
        discriminator: reply_tag_bytes(),
        is_initialized: true,
        studentinfo: intro_account.to_seed(),
        reply,
    };
    let renc = encode_reply(&rrec);
    let ri = match ledger.find_index(reply_account) {
        None => {
            proof {
                assert(false);
            }
            return Err(IntroError::UninitializedAccount);
        },
        Some(i) => i,
    };
    proof {
        assert(renc@.len() == account_len as int);
    }
    ledger.set_acct(ri, AccountModel { owner: *program_id, lamports: rent, data: renc });
    // The reply is durably written; only now consume the counter value.
    let ci = match ledger.find_index(counter_account) {
        None => {
            proof {
                assert(false);
            }
            return Err(IntroError::UninitializedAccount);
        },
        Some(i) => i,
    };
    let cowner = ledger.accounts[ci].acct.owner;
    let clam = ledger.accounts[ci].acct.lamports;
    proof {
        lemma_wf_data_bound(*old(ledger), counter_account@);
        lemma_counter_parse_fits(cdata@);
    }
    let cnew = ReplyCounter {
        discriminator: crec.discriminator,
        is_initialized: crec.is_initialized,
        counter: crec.counter + 1,
    };
    let cenc = encode_reply_counter(&cnew);
    let mut cdata2 = cdata;
    if write_prefix(&mut cdata2, &cenc).is_err() {
        proof {
            assert(false);
        }
        return Err(IntroError::SerializationOverflow);
    }
    ledger.set_acct(ci, AccountModel { owner: cowner, lamports: clam, data: cdata2 });
    proof {
        lemma_reply_counter_round_trip(
            crec.discriminator@,
            crec.is_initialized,
            (crec.counter + 1) as u8,
            cdata@.skip(cenc@.len() as int),
        );
    }
    Ok(())
}

/// Which refusal, if any, a mint setup request meets, in check order: the
/// mint derivation, the token program's identity, the authority
/// derivation, the system program's identity, the rent oracle's identity,
/// the mint address being free, the payer's funds, and the mint not having
/// been set up before.
pub open spec fn init_mint_err(
    l: Ledger,
    b: Bank,
    pid: Seq<u8>,
    payer: Seq<u8>,
    mint_acct: Seq<u8>,
    auth_acct: Seq<u8>,
    token_prog: Seq<u8>,
    system_prog: Seq<u8>,
    rent_acct: Seq<u8>,
) -> Option<IntroError> {
    if !pda_matches(mint_seed_views(), pid, mint_acct) {
        Some(IntroError::IncorrectCollaboratorAccount)
    } else if token_prog != TOKEN_PROGRAM_ID@ {
        Some(IntroError::IncorrectCollaboratorAccount)
    } else if !pda_matches(auth_seed_views(), pid, auth_acct) {
        Some(IntroError::IncorrectCollaboratorAccount)
    } else if system_prog != SYSTEM_PROGRAM_ID@ {
        Some(IntroError::IncorrectCollaboratorAccount)
    } else if rent_acct != RENT_SYSVAR_ID@ {
        Some(IntroError::IncorrectCollaboratorAccount)
    } else if l.has(mint_acct) {
        Some(IntroError::AddressAlreadyInUse)
    } else if (l.balance(payer) as int) < rent_exempt_min(MINT_ACCOUNT_LEN as int) {
        Some(IntroError::InsufficientFunds)
    } else {
        initialize_mint_err(b)
    }
}

/// The committed state after a successful mint setup: the mint account
/// exists with the token collaborator's fixed layout size and is owned by
/// it, the payer paid the rent, and the bank records the mint with nine
/// decimals, the derived authority, no freeze authority and zero supply.
pub open spec fn init_mint_post(
    l0: Ledger,
    b0: Bank,
    l1: Ledger,
    b1: Bank,
    payer: Seq<u8>,
    mint_acct: Seq<u8>,
    auth_acct: Seq<u8>,
) -> bool {
    &&& l1.wf()
    &&& b1.wf()
    &&& account_is(
        l1.spec_get(mint_acct),
        TOKEN_PROGRAM_ID@,
        rent_exempt_min(MINT_ACCOUNT_LEN as int) as u64,
        zeros(MINT_ACCOUNT_LEN as int),
    )
    &&& debited(l0.spec_get(payer), l1.spec_get(payer), rent_exempt_min(MINT_ACCOUNT_LEN as int))
    &&& forall|k: Seq<u8>| k != mint_acct && k != payer ==> l1.spec_get(k) == l0.spec_get(k)
    &&& b1.mint matches Some(m) && m.mint@ == mint_acct && m.authority@ == auth_acct && m.decimals
        == TOKEN_DECIMALS && m.freeze_authority is None && m.supply == 0
    &&& b1.balances@ == b0.balances@
}


/// The full contract of a mint setup request.
pub open spec fn init_mint_behavior(
    l0: Ledger,
    b0: Bank,
    l1: Ledger,
    b1: Bank,
    pid: Seq<u8>,
    payer: Seq<u8>,
    mint_acct: Seq<u8>,
    auth_acct: Seq<u8>,
    token_prog: Seq<u8>,
    system_prog: Seq<u8>,
    rent_acct: Seq<u8>,
    r: Result<(), IntroError>,
) -> bool {
    match init_mint_err(
        l0,
        b0,
        pid,
        payer,
        mint_acct,
        auth_acct,
        token_prog,
        system_prog,
        rent_acct,
    ) {
        Some(e) => r == Err::<(), IntroError>(e) && l1 == l0 && b1 == b0,
        None => r == Ok::<(), IntroError>(()) && init_mint_post(
            l0,
            b0,
            l1,
            b1,
            payer,
            mint_acct,
            auth_acct,
        ),
    }
}

/// One-time setup of the reward mint: validates every supplied collaborator
/// address against its expected derivation or well-known identity,
/// provisions the mint's fixed-size storage under the token program, and
/// initializes it with nine decimals and no freeze authority. A second
/// invocation fails at the provisioning step with `AddressAlreadyInUse`.
pub fn initialize_token_mint(
    ledger: &mut Ledger,
    bank: &mut Bank,
    program_id: &Address,
    payer: &Address,
    mint_account: &Address,
    mint_authority: &Address,
    token_program: &Address,
    system_program: &Address,
    rent_sysvar: &Address,
) -> (r: Result<(), IntroError>)
    requires
        old(ledger).wf(),
        old(bank).wf(),
    ensures
        init_mint_behavior(
            *old(ledger),
            *old(bank),
            *final(ledger),
            *final(bank),
            program_id@,
            payer@,
            mint_account@,
            mint_authority@,
            token_program@,
            system_program@,
            rent_sysvar@,
            r,
        ),
{
    let mint_sd = mint_seeds();
    if !check_pda(&mint_sd, program_id, mint_account) {
        return Err(IntroError::IncorrectCollaboratorAccount);
    }
    if !token_program.eq_addr(&Address(TOKEN_PROGRAM_ID)) {
        return Err(IntroError::IncorrectCollaboratorAccount);
    }
    let auth_sd = auth_seeds();
    if !check_pda(&auth_sd, program_id, mint_authority) {
        return Err(IntroError::IncorrectCollaboratorAccount);
    }
    if !system_program.eq_addr(&Address(SYSTEM_PROGRAM_ID)) {
        return Err(IntroError::IncorrectCollaboratorAccount);
    }
    if !rent_sysvar.eq_addr(&Address(RENT_SYSVAR_ID)) {
        return Err(IntroError::IncorrectCollaboratorAccount);
    }
    if ledger.find_index(mint_account).is_some() {
        return Err(IntroError::AddressAlreadyInUse);
    }
    if ledger.lamports_of(payer) < rent_exempt_minimum(MINT_ACCOUNT_LEN) {
        return Err(IntroError::InsufficientFunds);
    }
    if bank.mint.is_some() {
        return Err(IntroError::AlreadyInitialized);
    }
    let r1 = provision(
        ledger,
        program_id,
        payer,
        mint_account,
        MINT_ACCOUNT_LEN,
        &Address(TOKEN_PROGRAM_ID),
        &mint_sd,
    );
    if r1.is_err() {
        proof {
            assert(false);
        }
        return Err(IntroError::AddressAlreadyInUse);
    }
    let r2 = initialize_mint(bank, mint_account, mint_authority, TOKEN_DECIMALS);
    if r2.is_err() {
        proof {
            assert(false);
        }
        return Err(IntroError::AlreadyInitialized);
    }
    Ok(())
}

/// One entry of a request's positional account list: the address and
/// whether its holder signed the request.
pub struct SuppliedAccount {
    pub address: Address,
    pub is_signer: bool,
}

/// A decoded request: one of the four operations with its payload.
pub enum IntroInstruction {
    InitUserInput { name: Vec<u8>, message: Vec<u8> },
    UpdateStudentIntro { name: Vec<u8>, message: Vec<u8> },
    AddReply { reply: Vec<u8> },
    InitializeMint,
}

/// The request payload's wire form: a one-byte operation tag followed by
/// the operation's length-prefixed string fields, with nothing trailing.
/// Yields the tag and the two fields (unused fields read as empty).
pub open spec fn parse_instruction(d: Seq<u8>) -> Option<(u8, Seq<u8>, Seq<u8>)> {
    if d.len() < 1 {
        None
    } else {
        let tag = d[0];
        if tag == 0 || tag == 1 {
            match parse_bytes(d, 1) {
                None => None,
                Some((a, i)) => match parse_bytes(d, i) {
                    None => None,
                    Some((b, j)) => if j == d.len() {
                        Some((tag, a, b))
                    } else {
                        None
                    },
                },
            }
        } else if tag == 2 {
            match parse_bytes(d, 1) {
                None => None,
                Some((a, i)) => if i == d.len() {
                    Some((2u8, a, Seq::<u8>::empty()))
                } else {
                    None
                },
            }
        } else if tag == 3 {
            if d.len() == 1 {
                Some((3u8, Seq::<u8>::empty(), Seq::<u8>::empty()))
            } else {
                None
            }
        } else {
            None
        }
    }
}

/// Decodes the opaque request payload into an operation.
pub fn unpack(data: &Vec<u8>) -> (r: Option<IntroInstruction>)
    ensures
        match r {
            Some(instr) => match instr {
                IntroInstruction::InitUserInput { name, message } => parse_instruction(data@)
                    == Some((0u8, name@, message@)),
                IntroInstruction::UpdateStudentIntro { name, message } => parse_instruction(data@)
                    == Some((1u8, name@, message@)),
                IntroInstruction::AddReply { reply } => parse_instruction(data@) == Some(
                    (2u8, reply@, Seq::<u8>::empty()),
                ),
                IntroInstruction::InitializeMint => parse_instruction(data@) == Some(
                    (3u8, Seq::<u8>::empty(), Seq::<u8>::empty()),
                ),
            },
            None => parse_instruction(data@) is None,
        },
{
    if data.len() < 1 {
        return None;
    }
    let tag = data[0];
    if tag == 0 || tag == 1 {
        let (a, i) = match read_bytes(data, 1) {
            None => {
                return None;
            },
            Some(p) => p,
        };
        let (b, j) = match read_bytes(data, i) {
            None => {
                return None;
            },
            Some(p) => p,
        };
        if j != data.len() {
            return None;
        }
        if tag == 0 {
            Some(IntroInstruction::InitUserInput { name: a, message: b })
        } else {
            Some(IntroInstruction::UpdateStudentIntro { name: a, message: b })
        }
    } else if tag == 2 {
        let (a, i) = match read_bytes(data, 1) {
            None => {
                return None;
            },
            Some(p) => p,
        };
        if i != data.len() {
            return None;
        }
        Some(IntroInstruction::AddReply { reply: a })
    } else if tag == 3 {
        if data.len() == 1 {
            Some(IntroInstruction::InitializeMint)
        } else {
            None
        }
    } else {
        None
    }
}

/// Decodes the request payload, adapts the positional account list to the
/// named accounts of the operation it selects, and dispatches. Positions
/// follow the client convention: creation takes (author, introduction,
/// counter, mint, mint authority, author token account, system program,
/// token program); update takes (author, introduction); replying takes
/// (replier, introduction, counter, reply, system program); mint setup
/// takes (payer, mint, mint authority, system program, token program,
/// rent oracle).
#[verifier::spinoff_prover]
#[verifier::rlimit(100)]
pub fn process_instruction(
    ledger: &mut Ledger,
    bank: &mut Bank,
    program_id: &Address,
    accounts: &Vec<SuppliedAccount>,
    instruction_data: &Vec<u8>,
) -> (r: Result<(), IntroError>)
    requires
        old(ledger).wf(),
        old(bank).wf(),
        instruction_data@.len() + 46 <= usize::MAX,
    ensures
        ({
            let p = parse_instruction(instruction_data@);
            let unchanged = *final(ledger) == *old(ledger) && *final(bank) == *old(bank);
            match p {
                None => r == Err::<(), IntroError>(IntroError::InvalidInstruction) && unchanged,
                Some(t) => {
                    if t.0 == 0 {
                        if accounts@.len() < 8 {
                            r == Err::<(), IntroError>(IntroError::NotEnoughAccounts) && unchanged
                        } else {
                            create_behavior(
                                *old(ledger),
                                *old(bank),
                                *final(ledger),
                                *final(bank),
                                program_id@,
                                accounts@[0].address@,
                                accounts@[0].is_signer,
                                accounts@[1].address@,
                                accounts@[2].address@,
                                accounts@[3].address@,
                                accounts@[4].address@,
                                accounts@[5].address@,
                                t.1,
                                t.2,
                                r,
                            )
                        }
                    } else if t.0 == 1 {
                        if accounts@.len() < 2 {
                            r == Err::<(), IntroError>(IntroError::NotEnoughAccounts) && unchanged
                        } else {
                            update_behavior(
                                *old(ledger),
                                *final(ledger),
                                program_id@,
                                accounts@[0].address@,
                                accounts@[1].address@,
                                t.2,
                                r,
                            ) && *final(bank) == *old(bank)
                        }
                    } else if t.0 == 2 {
                        if accounts@.len() < 5 {
                            r == Err::<(), IntroError>(IntroError::NotEnoughAccounts) && unchanged
                        } else {
                            add_reply_behavior(
                                *old(ledger),
                                *final(ledger),
                                program_id@,
                                accounts@[0].address@,
                                accounts@[1].address@,
                                accounts@[2].address@,
                                accounts@[3].address@,
                                t.1,
                                r,
                            ) && *final(bank) == *old(bank)
                        }
                    } else {
                        if accounts@.len() < 6 {
                            r == Err::<(), IntroError>(IntroError::NotEnoughAccounts) && unchanged
                        } else {
                            init_mint_behavior(
                                *old(ledger),
                                *old(bank),
                                *final(ledger),
                                *final(bank),
                                program_id@,
                                accounts@[0].address@,
                                accounts@[1].address@,
                                accounts@[2].address@,
                                accounts@[4].address@,
                                accounts@[3].address@,
                                accounts@[5].address@,
                                r,
                            )
                        }
                    }
                },
            }
        }),
{
    let instr = match unpack(instruction_data) {
        None => {
            return Err(IntroError::InvalidInstruction);
        },
        Some(i) => i,
    };
    match instr {
        IntroInstruction::InitUserInput { name, message } => {
            if accounts.len() < 8 {
                return Err(IntroError::NotEnoughAccounts);
            }
            add_student_intro(
                ledger,
                bank,
                program_id,
                &accounts[0].address,
                accounts[0].is_signer,
                &accounts[1].address,
                &accounts[2].address,
                &accounts[3].address,
                &accounts[4].address,
                &accounts[5].address,
                name,
                message,
            )
        },
        IntroInstruction::UpdateStudentIntro { name: _, message } => {
            if accounts.len() < 2 {
                return Err(IntroError::NotEnoughAccounts);
            }
            update_student_intro(
                ledger,
                program_id,
                &accounts[0].address,
                &accounts[1].address,
                message,
            )
        },
        IntroInstruction::AddReply { reply } => {
            if accounts.len() < 5 {
                return Err(IntroError::NotEnoughAccounts);
            }
            add_reply(
                ledger,
                program_id,
                &accounts[0].address,
                &accounts[1].address,
                &accounts[2].address,
                &accounts[3].address,
                reply,
            )
        },
        IntroInstruction::InitializeMint => {
            if accounts.len() < 6 {
                return Err(IntroError::NotEnoughAccounts);
            }
            initialize_token_mint(
                ledger,
                bank,
                program_id,
                &accounts[0].address,
                &accounts[1].address,
                &accounts[2].address,
                &accounts[4].address,
                &accounts[3].address,
                &accounts[5].address,
            )
        },
    }
}

/// For every valid name and message within the fixed allocation, the bytes
/// a successful creation stores in the introduction account decode back to
/// an initialized record carrying exactly the submitted name and message.
/// Together with `create_post`, which pins the stored bytes to this padded
/// encoding, this says: create followed by a decode yields the record.
pub proof fn lemma_create_then_decode(name: Seq<u8>, msg: Seq<u8>)
    requires
        intro_total_len(name.len() as int, msg.len() as int) <= INTRO_ACCOUNT_LEN,
    ensures
        parse_student_info(
            padded(enc_student_info(intro_tag(), true, name, msg), INTRO_ACCOUNT_LEN as int),
        ) == Some((intro_tag(), true, name, msg)),
{
    let e = enc_student_info(intro_tag(), true, name, msg);
    lemma_student_info_round_trip(
        intro_tag(),
        true,
        name,
        msg,
        zeros(INTRO_ACCOUNT_LEN - e.len()),
    );
}

/// Creation is never silently repeated: once a creation for an author has
/// committed, a second creation request naming the same derived addresses
/// fails with `AddressAlreadyInUse`, whatever name and message it carries
/// (provided they fit, so that the size check is passed on the way there).
pub proof fn lemma_create_not_twice(
    l0: Ledger,
    b0: Bank,
    l1: Ledger,
    b1: Bank,
    pid: Seq<u8>,
    author: Seq<u8>,
    intro_acct: Seq<u8>,
    counter_acct: Seq<u8>,
    mint_acct: Seq<u8>,
    auth_acct: Seq<u8>,
    ata_acct: Seq<u8>,
    name1: Seq<u8>,
    msg1: Seq<u8>,
    name2: Seq<u8>,
    msg2: Seq<u8>,
)
    requires
        create_err(
            l0,
            b0,
            pid,
            author,
            true,
            intro_acct,
            counter_acct,
            mint_acct,
            auth_acct,
            ata_acct,
            name1,
            msg1,
        ) is None,
        create_post(l0, b0, l1, b1, pid, author, intro_acct, counter_acct, ata_acct, name1, msg1),
        intro_total_len(name2.len() as int, msg2.len() as int) <= INTRO_ACCOUNT_LEN,
    ensures
        create_err(
            l1,
            b1,
            pid,
            author,
            true,
            intro_acct,
            counter_acct,
            mint_acct,
            auth_acct,
            ata_acct,
            name2,
            msg2,
        ) == Some(IntroError::AddressAlreadyInUse),
{
    assert(l1.has(intro_acct));
}

/// The counter value an introduction's reply counter shows in a ledger, if
/// the counter account exists and decodes.
pub open spec fn counter_value(l: Ledger, counter_acct: Seq<u8>) -> Option<u8> {
    match l.spec_get(counter_acct) {
        Some(c) => match parse_reply_counter(c.data@) {
            Some((_d, _i, n)) => Some(n),
            None => None,
        },
        None => None,
    }
}

proof fn lemma_counter_counts_helper(
    ledgers: Seq<Ledger>,
    pid: Seq<u8>,
    intro_acct: Seq<u8>,
    counter_acct: Seq<u8>,
    repliers: Seq<Seq<u8>>,
    reply_accts: Seq<Seq<u8>>,
    texts: Seq<Seq<u8>>,
    n: int,
    k: int,
)
    requires
        ledgers.len() == n + 1,
        repliers.len() == n,
        reply_accts.len() == n,
        texts.len() == n,
        counter_value(ledgers[0], counter_acct) == Some(0u8),
        forall|i: int|
            0 <= i < n ==> add_reply_err(
                #[trigger] ledgers[i],
                pid,
                repliers[i],
                intro_acct,
                counter_acct,
                reply_accts[i],
                texts[i],
            ) is None,
        forall|i: int|
            0 <= i < n ==> add_reply_post(
                #[trigger] ledgers[i],
                ledgers[i + 1],
                pid,
                repliers[i],
                intro_acct,
                counter_acct,
                reply_accts[i],
                texts[i],
            ),
        0 <= k <= n,
    ensures
        k <= 255,
        counter_value(ledgers[k], counter_acct) == Some(k as u8),
    decreases k,
{
    if k > 0 {
        lemma_counter_counts_helper(
            ledgers,
            pid,
            intro_acct,
            counter_acct,
            repliers,
            reply_accts,
            texts,
            n,
            k - 1,
        );
        assert(add_reply_err(
            ledgers[k - 1],
            pid,
            repliers[k - 1],
            intro_acct,
            counter_acct,
            reply_accts[k - 1],
            texts[k - 1],
        ) is None);
        assert(add_reply_post(
            ledgers[k - 1],
            ledgers[k],
            pid,
            repliers[k - 1],
            intro_acct,
            counter_acct,
            reply_accts[k - 1],
            texts[k - 1],
        ));
    }
}

/// Over any run of successful replies to one introduction whose counter
/// starts at zero, the counter's value after the k-th reply is exactly k,
/// and the address of the k-th reply is precisely the derivation of the
/// introduction address and the count k-1 — a pure function of the two.
pub proof fn lemma_reply_counter_counts(
    ledgers: Seq<Ledger>,
    pid: Seq<u8>,
    intro_acct: Seq<u8>,
    counter_acct: Seq<u8>,
    repliers: Seq<Seq<u8>>,
    reply_accts: Seq<Seq<u8>>,
    texts: Seq<Seq<u8>>,
    n: int,
)
    requires
        ledgers.len() == n + 1,
        repliers.len() == n,
        reply_accts.len() == n,
        texts.len() == n,
        counter_value(ledgers[0], counter_acct) == Some(0u8),
        forall|i: int|
            0 <= i < n ==> add_reply_err(
                #[trigger] ledgers[i],
                pid,
                repliers[i],
                intro_acct,
                counter_acct,
                reply_accts[i],
                texts[i],
            ) is None,
        forall|i: int|
            0 <= i < n ==> add_reply_post(
                #[trigger] ledgers[i],
                ledgers[i + 1],
                pid,
                repliers[i],
                intro_acct,
                counter_acct,
                reply_accts[i],
                texts[i],
            ),
    ensures
        forall|k: int|
            0 <= k <= n ==> counter_value(#[trigger] ledgers[k], counter_acct) == Some(k as u8),
        forall|k: int|
            0 <= k < n ==> pda_matches(
                reply_seed_views(intro_acct, k as u8),
                pid,
                #[trigger] reply_accts[k],
            ),
{
    assert forall|k: int| 0 <= k <= n implies counter_value(#[trigger] ledgers[k], counter_acct)
        == Some(k as u8) by {
        lemma_counter_counts_helper(
            ledgers,
            pid,
            intro_acct,
            counter_acct,
            repliers,
            reply_accts,
            texts,
            n,
            k,
        );
    }
    assert forall|k: int| 0 <= k < n implies pda_matches(
        reply_seed_views(intro_acct, k as u8),
        pid,
        #[trigger] reply_accts[k],
    ) by {
        lemma_counter_counts_helper(
            ledgers,
            pid,
            intro_acct,
            counter_acct,
            repliers,
            reply_accts,
            texts,
            n,
            k,
        );
        assert(add_reply_err(
            ledgers[k],
            pid,
            repliers[k],
            intro_acct,
            counter_acct,
            reply_accts[k],
            texts[k],
        ) is None);
    }
}

} // verus!
