//! The fungible-asset collaborator's model: the singleton mint record and
//! the token balances it backs.
//!
//! Balances form a total map over addresses — an address that was never
//! credited holds zero. The mint is created once, carries a fixed number of
//! decimals and no freeze authority, and every issuance must name the
//! minting authority it was set up with; that authority is a derived
//! address with no private key.

use vstd::prelude::*;
use crate::addr::Address;
use crate::records::IntroError;

verus! {

/// The singleton mint record: which address it lives at, who may mint,
/// the decimal count, the (absent) freeze authority, and the total supply.
pub struct MintModel {
    pub mint: Address,
    pub authority: Address,
    pub decimals: u8,
    pub freeze_authority: Option<Address>,
    pub supply: u64,
}

/// One token balance entry.
pub struct BalEntry {
    pub key: Address,
    pub amount: u64,
}

/// The balance found at key `k`, searching from the back of the entry list;
/// an address never credited holds zero.
pub open spec fn bal_get(s: Seq<BalEntry>, k: Seq<u8>) -> Option<u64>
    decreases s.len(),
{
    if s.len() == 0 {
        None
    } else if s.last().key@ == k {
        Some(s.last().amount)
    } else {
        bal_get(s.drop_last(), k)
    }
}

pub open spec fn unique_bal_keys(s: Seq<BalEntry>) -> bool {
    forall|i: int, j: int| 0 <= i < j < s.len() ==> s[i].key@ != s[j].key@
}

proof fn lemma_bal_get_present(s: Seq<BalEntry>, i: int)
    requires
        unique_bal_keys(s),
        0 <= i < s.len(),
    ensures
        bal_get(s, s[i].key@) == Some(s[i].amount),
    decreases s.len(),
{
    if i < s.len() - 1 {
        assert(s.drop_last()[i] == s[i]);
        lemma_bal_get_present(s.drop_last(), i);
    }
}

proof fn lemma_bal_get_absent(s: Seq<BalEntry>, k: Seq<u8>)
    requires
        forall|i: int| 0 <= i < s.len() ==> s[i].key@ != k,
    ensures
        bal_get(s, k) is None,
    decreases s.len(),
{
    if s.len() > 0 {
        lemma_bal_get_absent(s.drop_last(), k);
    }
}

proof fn lemma_bal_get_none_means_absent(s: Seq<BalEntry>, k: Seq<u8>)
    requires
        bal_get(s, k) is None,
    ensures
        forall|i: int| 0 <= i < s.len() ==> s[i].key@ != k,
    decreases s.len(),
{
    if s.len() > 0 {
        lemma_bal_get_none_means_absent(s.drop_last(), k);
        assert forall|i: int| 0 <= i < s.len() implies s[i].key@ != k by {
            if i < s.len() - 1 {
                assert(s.drop_last()[i] == s[i]);
            }
        }
    }
}

proof fn lemma_bal_get_update(s: Seq<BalEntry>, i: int, e: BalEntry, k: Seq<u8>)
    requires
        unique_bal_keys(s),
        0 <= i < s.len(),
        e.key@ == s[i].key@,
    ensures
        bal_get(s.update(i, e), k) == (if k == s[i].key@ {
            Some(e.amount)
        } else {
            bal_get(s, k)
        }),
    decreases s.len(),
{
    let t = s.update(i, e);
    if i == s.len() - 1 {
        assert(t.last() == e);
        if k != e.key@ {
            assert(t.drop_last() =~= s.drop_last());
        }
    } else {
        assert(t.last() == s.last());
        assert(s.last().key@ != s[i].key@);
        if k != s.last().key@ {
            assert(t.drop_last() =~= s.drop_last().update(i, e));
            assert(s.drop_last()[i] == s[i]);
            lemma_bal_get_update(s.drop_last(), i, e, k);
        }
    }
}

/// The asset collaborator's books.
pub struct Bank {
    pub mint: Option<MintModel>,
    pub balances: Vec<BalEntry>,
}

impl Bank {
    /// The balance held at address `k`.
    pub open spec fn spec_balance(self, k: Seq<u8>) -> u64 {
        match bal_get(self.balances@, k) {
            Some(v) => v,
            None => 0,
        }
    }

    /// Each address has at most one balance entry.
    pub open spec fn wf(self) -> bool {
        unique_bal_keys(self.balances@)
    }

    /// A bank with no mint and no balances.
    pub fn new() -> (r: Bank)
        ensures
            r.wf(),
            r.mint is None,
            forall|k: Seq<u8>| r.spec_balance(k) == 0,
    {
        Bank { mint: None, balances: Vec::new() }
    }

    /// The balance held at address `k`.
    pub fn balance_of(&self, k: &Address) -> (r: u64)
        requires
            self.wf(),
        ensures
            r == self.spec_balance(k@),
    {
        let mut i: usize = 0;
        while i < self.balances.len()
            invariant
                self.wf(),
                i <= self.balances@.len(),
                forall|j: int| 0 <= j < i ==> self.balances@[j].key@ != k@,
            decreases self.balances@.len() - i,
        {
            if self.balances[i].key.eq_addr(k) {
                proof {
                    lemma_bal_get_present(self.balances@, i as int);
                }
                return self.balances[i].amount;
            }
            i += 1;
        }
        proof {
            lemma_bal_get_absent(self.balances@, k@);
        }
        0
    }

    fn find_balance(&self, k: &Address) -> (r: Option<usize>)
        requires
            self.wf(),
        ensures
            match r {
                Some(i) => {
                    &&& i < self.balances@.len()
                    &&& self.balances@[i as int].key@ == k@
                    &&& bal_get(self.balances@, k@) == Some(self.balances@[i as int].amount)
                },
                None => bal_get(self.balances@, k@) is None,
            },
    {
        let mut i: usize = 0;
        while i < self.balances.len()
            invariant
                self.wf(),
                i <= self.balances@.len(),
                forall|j: int| 0 <= j < i ==> self.balances@[j].key@ != k@,
            decreases self.balances@.len() - i,
        {
            if self.balances[i].key.eq_addr(k) {
                proof {
                    lemma_bal_get_present(self.balances@, i as int);
                }
                return Some(i);
            }
            i += 1;
        }
        proof {
            lemma_bal_get_absent(self.balances@, k@);
        }
        None
    }
}

/// Which refusal, if any, a mint setup meets.
pub open spec fn initialize_mint_err(b: Bank) -> Option<IntroError> {
    if b.mint is Some {
        Some(IntroError::AlreadyInitialized)
    } else {
        None
    }
}

/// Sets up the singleton mint: `decimals` decimal places, minting authority
/// `authority`, no freeze authority, zero supply. Refused if a mint already
/// exists.
pub fn initialize_mint(
    bank: &mut Bank,
    mint_account: &Address,
    authority: &Address,
    decimals: u8,
) -> (r: Result<(), IntroError>)
    requires
        old(bank).wf(),
    ensures
        match r {
            Ok(()) => {
                &&& initialize_mint_err(*old(bank)) is None
                &&& final(bank).wf()
                &&& final(bank).mint matches Some(m) && m.mint@ == mint_account@ && m.authority@
                    == authority@ && m.decimals == decimals && m.freeze_authority is None
                    && m.supply == 0
                &&& final(bank).balances@ == old(bank).balances@
            },
            Err(e) => initialize_mint_err(*old(bank)) == Some(e) && *final(bank) == *old(bank),
        },
{
    if bank.mint.is_some() {
        return Err(IntroError::AlreadyInitialized);
    }
    bank.mint = Some(
        MintModel {
            mint: *mint_account,
            authority: *authority,
            decimals,
            freeze_authority: None,
            supply: 0,
        },
    );
    Ok(())
}

/// Which refusal, if any, an issuance request meets: the mint must exist,
/// the named mint and authority must match the mint's records, and neither
/// the supply nor the destination balance may wrap.
pub open spec fn mint_reward_err(
    b: Bank,
    mint_account: Seq<u8>,
    authority: Seq<u8>,
    destination: Seq<u8>,
    amount: u64,
) -> Option<IntroError> {
    match b.mint {
        None => Some(IntroError::UninitializedAccount),
        Some(m) => {
            if m.mint@ != mint_account {
                Some(IntroError::IncorrectCollaboratorAccount)
            } else if m.authority@ != authority {
                Some(IntroError::MissingAuthorization)
            } else if m.supply + amount > u64::MAX {
                Some(IntroError::Overflow)
            } else if b.spec_balance(destination) + amount > u64::MAX {
                Some(IntroError::Overflow)
            } else {
                None
            }
        },
    }
}

/// The books after a successful issuance: the supply and the destination's
/// balance each grow by `amount`; no other balance moves.
pub open spec fn mint_reward_post(b0: Bank, b1: Bank, destination: Seq<u8>, amount: u64) -> bool {
    &&& b1.wf()
    &&& b0.mint matches Some(m0) && b1.mint matches Some(m1) && m1.mint@ == m0.mint@
        && m1.authority@ == m0.authority@ && m1.decimals == m0.decimals && m1.freeze_authority
        == m0.freeze_authority && m1.supply == m0.supply + amount
    &&& b1.spec_balance(destination) == b0.spec_balance(destination) + amount
    &&& forall|k: Seq<u8>| k != destination ==> b1.spec_balance(k) == b0.spec_balance(k)
}

/// Issues `amount` base units to `destination`, authorized by the minting
/// authority alone.
pub fn mint_reward(
    bank: &mut Bank,
    mint_account: &Address,
    mint_authority: &Address,
    destination: &Address,
    amount: u64,
) -> (r: Result<(), IntroError>)
    requires
        old(bank).wf(),
    ensures
        ({
            let err = mint_reward_err(*old(bank), mint_account@, mint_authority@, destination@, amount);
            match r {
                Ok(()) => err is None && mint_reward_post(
                    *old(bank),
                    *final(bank),
                    destination@,
                    amount,
                ),
                Err(e) => err == Some(e) && *final(bank) == *old(bank),
            }
        }),
{
    let m = match &bank.mint {
        None => {
            return Err(IntroError::UninitializedAccount);
        },
        Some(m) => MintModel {
            mint: m.mint,
            authority: m.authority,
            decimals: m.decimals,
            freeze_authority: m.freeze_authority,
            supply: m.supply,
        },
    };
    if !m.mint.eq_addr(mint_account) {
        return Err(IntroError::IncorrectCollaboratorAccount);
    }
    if !m.authority.eq_addr(mint_authority) {
        return Err(IntroError::MissingAuthorization);
    }
    let new_supply = match m.supply.checked_add(amount) {
        None => {
            return Err(IntroError::Overflow);
        },
        Some(v) => v,
    };
    let dest_bal = bank.balance_of(destination);
    let new_bal = match dest_bal.checked_add(amount) {
        None => {
            return Err(IntroError::Overflow);
        },
        Some(v) => v,
    };
    bank.mint = Some(
        MintModel {
            mint: m.mint,
            authority: m.authority,
            decimals: m.decimals,
            freeze_authority: m.freeze_authority,
            supply: new_supply,
        },
    );
    match bank.find_balance(destination) {
        Some(i) => {
            proof {
                let s = bank.balances@;
                let e = BalEntry { key: s[i as int].key, amount: new_bal };
                assert forall|k2: Seq<u8>| true implies bal_get(s.update(i as int, e), k2) == (
                if k2 == s[i as int].key@ {
                    Some(e.amount)
                } else {
                    bal_get(s, k2)
                }) by {
                    lemma_bal_get_update(s, i as int, e, k2);
                }
            }
            let key = bank.balances[i].key;
            bank.balances[i] = BalEntry { key, amount: new_bal };
            proof {
                let s0 = old(bank).balances@;
                assert(bank.balances@ =~= s0.update(
                    i as int,
                    BalEntry { key: s0[i as int].key, amount: new_bal },
                ));
                assert forall|p: int, q: int|
                    0 <= p < q < bank.balances@.len() implies bank.balances@[p].key@
                    != bank.balances@[q].key@ by {
                    assert(s0[p].key@ != s0[q].key@);
                }
            }
        },
        None => {
            proof {
                lemma_bal_get_none_means_absent(bank.balances@, destination@);
            }
            bank.balances.push(BalEntry { key: *destination, amount: new_bal });
            proof {
                let s = old(bank).balances@;
                let t = bank.balances@;
                assert(t.drop_last() =~= s);
                assert forall|k2: Seq<u8>| k2 != destination@ implies bal_get(t, k2) == bal_get(
                    s,
                    k2,
                ) by {}
            }
        },
    }
    Ok(())
}

} // verus!
