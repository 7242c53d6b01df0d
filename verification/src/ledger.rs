//! The ledger model: an address-keyed account store with per-account owner
//! identity, balance and data region, together with the account provisioner.
//!
//! The host ledger serializes requests and commits each one atomically; the
//! operations built on this model therefore perform all of their checks
//! before their first mutation, so that a refused request leaves the store
//! untouched.

use vstd::prelude::*;
use crate::addr::{pda_matches, views_of, try_find_pda, Address};
use crate::codec::{zero_vec, zeros, copy_range};
use crate::records::IntroError;

verus! {

/// The largest data region the ledger will allocate for one account.
pub const MAX_ACCOUNT_DATA: usize = 10485760;

/// The fee oracle's storage overhead, charged per account.
pub const STORAGE_OVERHEAD: u64 = 128;

/// The fee oracle's rate in lamports per byte-year.
pub const LAMPORTS_PER_BYTE: u64 = 6960;

/// The minimum balance an account with a data region of `len` bytes must
/// hold to be exempt from ongoing storage fees, per the fee oracle's
/// published default schedule.
pub open spec fn rent_exempt_min(len: int) -> int {
    (128 + len) * 6960
}

/// Computes the rent-exempt minimum balance for a data region of `len`
/// bytes.
pub fn rent_exempt_minimum(len: usize) -> (r: u64)
    requires
        len <= MAX_ACCOUNT_DATA,
    ensures
        r == rent_exempt_min(len as int),
{
    (STORAGE_OVERHEAD + len as u64) * LAMPORTS_PER_BYTE
}

/// An account: its owning program, its balance, and its data region.
pub struct AccountModel {
    pub owner: Address,
    pub lamports: u64,
    pub data: Vec<u8>,
}

/// One ledger entry: an account at its address.
pub struct Entry {
    pub key: Address,
    pub acct: AccountModel,
}

/// The account found at key `k`, searching from the back of the entry list.
pub open spec fn seq_get(s: Seq<Entry>, k: Seq<u8>) -> Option<AccountModel>
    decreases s.len(),
{
    if s.len() == 0 {
        None
    } else if s.last().key@ == k {
        Some(s.last().acct)
    } else {
        seq_get(s.drop_last(), k)
    }
}

pub open spec fn unique_keys(s: Seq<Entry>) -> bool {
    forall|i: int, j: int| 0 <= i < j < s.len() ==> s[i].key@ != s[j].key@
}

proof fn lemma_seq_get_present(s: Seq<Entry>, i: int)
    requires
        unique_keys(s),
        0 <= i < s.len(),
    ensures
        seq_get(s, s[i].key@) == Some(s[i].acct),
    decreases s.len(),
{
    if i < s.len() - 1 {
        assert(s.last().key@ != s[i].key@);
        assert(s.drop_last()[i] == s[i]);
        lemma_seq_get_present(s.drop_last(), i);
    }
}

proof fn lemma_seq_get_absent(s: Seq<Entry>, k: Seq<u8>)
    requires
        forall|i: int| 0 <= i < s.len() ==> s[i].key@ != k,
    ensures
        seq_get(s, k) is None,
    decreases s.len(),
{
    if s.len() > 0 {
        lemma_seq_get_absent(s.drop_last(), k);
    }
}

proof fn lemma_seq_get_none_means_absent(s: Seq<Entry>, k: Seq<u8>)
    requires
        seq_get(s, k) is None,
    ensures
        forall|i: int| 0 <= i < s.len() ==> s[i].key@ != k,
    decreases s.len(),
{
    if s.len() > 0 {
        lemma_seq_get_none_means_absent(s.drop_last(), k);
        assert forall|i: int| 0 <= i < s.len() implies s[i].key@ != k by {
            if i < s.len() - 1 {
                assert(s.drop_last()[i] == s[i]);
            }
        }
    }
}

proof fn lemma_seq_get_some_means_at(s: Seq<Entry>, k: Seq<u8>)
    requires
        seq_get(s, k) is Some,
    ensures
        exists|i: int|
            0 <= i < s.len() && s[i].key@ == k && #[trigger] s[i].acct == seq_get(s, k)->0,
    decreases s.len(),
{
    if s.last().key@ == k {
        assert(s[s.len() - 1].acct == seq_get(s, k)->0);
    } else {
        lemma_seq_get_some_means_at(s.drop_last(), k);
        let i = choose|i: int|
            0 <= i < s.drop_last().len() && s.drop_last()[i].key@ == k && #[trigger] s.drop_last()[i].acct
                == seq_get(s.drop_last(), k)->0;
        assert(s[i].acct == seq_get(s, k)->0);
    }
}

/// With a well-formed ledger, every account's data region is within the
/// allocation limit.
pub proof fn lemma_wf_data_bound(l: Ledger, k: Seq<u8>)
    requires
        l.wf(),
        l.spec_get(k) is Some,
    ensures
        l.spec_get(k)->0.data@.len() <= MAX_ACCOUNT_DATA,
{
    lemma_seq_get_some_means_at(l.accounts@, k);
}

proof fn lemma_seq_get_update(s: Seq<Entry>, i: int, e: Entry, k: Seq<u8>)
    requires
        unique_keys(s),
        0 <= i < s.len(),
        e.key@ == s[i].key@,
    ensures
        seq_get(s.update(i, e), k) == (if k == s[i].key@ {
            Some(e.acct)
        } else {
            seq_get(s, k)
        }),
    decreases s.len(),
{
    let t = s.update(i, e);
    if i == s.len() - 1 {
        assert(t.last() == e);
        if k != e.key@ {
            assert(t.drop_last() =~= s.drop_last());
        }
    } else {
        assert(t.last() == s.last());
        assert(s.last().key@ != s[i].key@);
        if k == s.last().key@ {
        } else {
            assert(t.drop_last() =~= s.drop_last().update(i, e));
            assert(s.drop_last()[i] == s[i]);
            lemma_seq_get_update(s.drop_last(), i, e, k);
        }
    }
}

/// Whether an optional account has exactly the given owner, balance and
/// data.
pub open spec fn account_is(
    o: Option<AccountModel>,
    owner: Seq<u8>,
    lamports: u64,
    data: Seq<u8>,
) -> bool {
    match o {
        Some(a) => a.owner@ == owner && a.lamports == lamports && a.data@ == data,
        None => false,
    }
}

/// Whether `post` is `pre` with `amount` lamports withdrawn and everything
/// else unchanged.
pub open spec fn debited(pre: Option<AccountModel>, post: Option<AccountModel>, amount: int) -> bool {
    match (pre, post) {
        (Some(a), Some(b)) => {
            &&& b.owner@ == a.owner@
            &&& b.data@ == a.data@
            &&& b.lamports == a.lamports - amount
        },
        _ => false,
    }
}

/// The address-keyed account store.
pub struct Ledger {
    pub accounts: Vec<Entry>,
}

impl Ledger {
    /// The account at address `k`, if any.
    pub open spec fn spec_get(self, k: Seq<u8>) -> Option<AccountModel> {
        seq_get(self.accounts@, k)
    }

    /// Whether an account exists at address `k`.
    pub open spec fn has(self, k: Seq<u8>) -> bool {
        self.spec_get(k) is Some
    }

    /// The balance at address `k`; an absent account holds nothing.
    pub open spec fn balance(self, k: Seq<u8>) -> u64 {
        match self.spec_get(k) {
            Some(a) => a.lamports,
            None => 0,
        }
    }

    /// Each address holds at most one account, and no data region exceeds
    /// what the ledger will allocate.
    pub open spec fn wf(self) -> bool {
        &&& unique_keys(self.accounts@)
        &&& forall|i: int|
            0 <= i < self.accounts@.len() ==> self.accounts@[i].acct.data@.len()
                <= MAX_ACCOUNT_DATA
    }

    /// An empty ledger.
    pub fn new() -> (r: Ledger)
        ensures
            r.wf(),
            forall|k: Seq<u8>| r.spec_get(k) is None,
    {
        Ledger { accounts: Vec::new() }
    }

    /// Creates a plain wallet account with the given balance, owned by the
    /// system program (the all-zero address), for staging the accounts a
    /// request is funded from.
    pub fn fund(&mut self, k: &Address, lamports: u64)
        requires
            old(self).wf(),
            !old(self).has(k@),
        ensures
            final(self).wf(),
            account_is(final(self).spec_get(k@), crate::addr::SYSTEM_PROGRAM_ID@, lamports, zeros(0)),
            forall|k2: Seq<u8>| k2 != k@ ==> final(self).spec_get(k2) == old(self).spec_get(k2),
    {
        let acct = AccountModel {
            owner: Address(crate::addr::SYSTEM_PROGRAM_ID),
            lamports,
            data: Vec::new(),
        };
        self.push_entry(k, acct);
        proof {
            assert(zeros(0) =~= Seq::<u8>::empty());
        }
    }

    /// The data region of the account at `k`, if any, as a copy.
    pub fn account_data(&self, k: &Address) -> (r: Option<Vec<u8>>)
        requires
            self.wf(),
        ensures
            match r {
                Some(d) => self.spec_get(k@) matches Some(a) && a.data@ == d@,
                None => self.spec_get(k@) is None,
            },
    {
        match self.find_index(k) {
            Some(i) => {
                let d = copy_range(&self.accounts[i].acct.data, 0, self.accounts[i].acct.data.len());
                proof {
                    assert(self.accounts@[i as int].acct.data@.subrange(
                        0,
                        self.accounts@[i as int].acct.data@.len() as int,
                    ) =~= self.accounts@[i as int].acct.data@);
                }
                Some(d)
            },
            None => None,
        }
    }

    /// The balance of the account at `k`; an absent account holds nothing.
    pub fn lamports_of(&self, k: &Address) -> (r: u64)
        requires
            self.wf(),
        ensures
            r == self.balance(k@),
    {
        match self.find_index(k) {
            Some(i) => self.accounts[i].acct.lamports,
            None => 0,
        }
    }

    /// The owner of the account at `k`, if any.
    pub fn owner_of(&self, k: &Address) -> (r: Option<Address>)
        requires
            self.wf(),
        ensures
            match r {
                Some(o) => self.spec_get(k@) matches Some(a) && a.owner@ == o@,
                None => self.spec_get(k@) is None,
            },
    {
        match self.find_index(k) {
            Some(i) => Some(self.accounts[i].owner_address()),
            None => None,
        }
    }

    pub(crate) fn find_index(&self, k: &Address) -> (r: Option<usize>)
        requires
            self.wf(),
        ensures
            match r {
                Some(i) => {
                    &&& i < self.accounts@.len()
                    &&& self.accounts@[i as int].key@ == k@
                    &&& self.spec_get(k@) == Some(self.accounts@[i as int].acct)
                },
                None => self.spec_get(k@) is None,
            },
    {
        let mut i: usize = 0;
        while i < self.accounts.len()
            invariant
                self.wf(),
                i <= self.accounts@.len(),
                forall|j: int| 0 <= j < i ==> self.accounts@[j].key@ != k@,
            decreases self.accounts@.len() - i,
        {
            if self.accounts[i].key.eq_addr(k) {
                proof {
                    lemma_seq_get_present(self.accounts@, i as int);
                }
                return Some(i);
            }
            i += 1;
        }
        proof {
            lemma_seq_get_absent(self.accounts@, k@);
        }
        None
    }

    pub(crate) fn push_entry(&mut self, k: &Address, a: AccountModel)
        requires
            old(self).wf(),
            !old(self).has(k@),
            a.data@.len() <= MAX_ACCOUNT_DATA,
        ensures
            final(self).wf(),
            final(self).spec_get(k@) == Some(a),
            forall|k2: Seq<u8>| k2 != k@ ==> final(self).spec_get(k2) == old(self).spec_get(k2),
    {
        proof {
            lemma_seq_get_none_means_absent(old(self).accounts@, k@);
        }
        self.accounts.push(Entry { key: *k, acct: a });
        proof {
            let s = old(self).accounts@;
            let t = self.accounts@;
            assert(t.drop_last() =~= s);
            assert forall|k2: Seq<u8>| k2 != k@ implies self.spec_get(k2) == old(self).spec_get(
                k2,
            ) by {
                assert(seq_get(t, k2) == seq_get(s, k2));
            }
        }
    }

    pub(crate) fn set_acct(&mut self, i: usize, a: AccountModel)
        requires
            old(self).wf(),
            i < old(self).accounts@.len(),
            a.data@.len() <= MAX_ACCOUNT_DATA,
        ensures
            final(self).wf(),
            final(self).spec_get(old(self).accounts@[i as int].key@) == Some(a),
            forall|k2: Seq<u8>|
                k2 != old(self).accounts@[i as int].key@ ==> final(self).spec_get(k2) == old(
                    self,
                ).spec_get(k2),
    {
        let key = self.accounts[i].key;
        self.accounts[i] = Entry { key, acct: a };
        proof {
            let s = old(self).accounts@;
            let e = self.accounts@[i as int];
            assert(self.accounts@ =~= s.update(i as int, e));
            assert forall|k2: Seq<u8>| true implies seq_get(s.update(i as int, e), k2) == (if k2
                == s[i as int].key@ {
                Some(e.acct)
            } else {
                seq_get(s, k2)
            }) by {
                lemma_seq_get_update(s, i as int, e, k2);
            }
            assert forall|p: int, q: int|
                0 <= p < q < self.accounts@.len() implies self.accounts@[p].key@
                != self.accounts@[q].key@ by {
                assert(s[p].key@ != s[q].key@);
            }
        }
    }
}

impl Entry {
    fn owner_address(&self) -> (r: Address)
        ensures
            r@ == self.acct.owner@,
    {
        Address(self.acct.owner.0)
    }
}

/// Which refusal, if any, a provisioning request meets: the seeds must
/// derive the target address, the allocation must be within the ledger's
/// limit, the target must be unoccupied, and the funder must cover the
/// rent-exempt minimum.
pub open spec fn provision_err(
    l: Ledger,
    program_id: Seq<u8>,
    funder: Seq<u8>,
    target: Seq<u8>,
    len: int,
    seeds: Seq<Seq<u8>>,
) -> Option<IntroError> {
    if !pda_matches(seeds, program_id, target) {
        Some(IntroError::MissingAuthorization)
    } else if len > MAX_ACCOUNT_DATA {
        Some(IntroError::RecordTooLarge)
    } else if l.has(target) {
        Some(IntroError::AddressAlreadyInUse)
    } else if (l.balance(funder) as int) < rent_exempt_min(len) {
        Some(IntroError::InsufficientFunds)
    } else {
        None
    }
}

/// The committed state after a successful provisioning: the target holds a
/// fresh zero-filled account owned by `owner` and funded to the rent-exempt
/// minimum, the funder is debited by the same amount, and nothing else
/// moves.
pub open spec fn provision_post(
    l0: Ledger,
    l1: Ledger,
    funder: Seq<u8>,
    target: Seq<u8>,
    len: int,
    owner: Seq<u8>,
) -> bool {
    &&& l1.wf()
    &&& account_is(l1.spec_get(target), owner, rent_exempt_min(len) as u64, zeros(len))
    &&& debited(l0.spec_get(funder), l1.spec_get(funder), rent_exempt_min(len))
    &&& forall|k: Seq<u8>| k != funder && k != target ==> l1.spec_get(k) == l0.spec_get(k)
}

/// Creates (allocates and funds) a new zero-filled account at `target`,
/// owned by `owner`, funded by `funder` with the rent-exempt minimum for
/// `byte_length` bytes. The request must be authorized by derivation seeds
/// that produce `target` under `program_id`, in place of a private
/// signature.
pub fn provision(
    ledger: &mut Ledger,
    program_id: &Address,
    funder: &Address,
    target: &Address,
    byte_length: usize,
    owner: &Address,
    seeds: &Vec<Vec<u8>>,
) -> (r: Result<(), IntroError>)
    requires
        old(ledger).wf(),
    ensures
        ({
            let err = provision_err(
                *old(ledger),
                program_id@,
                funder@,
                target@,
                byte_length as int,
                views_of(seeds@),
            );
            match r {
                Ok(()) => err is None && provision_post(
                    *old(ledger),
                    *final(ledger),
                    funder@,
                    target@,
                    byte_length as int,
                    owner@,
                ),
                Err(e) => err == Some(e) && *final(ledger) == *old(ledger),
            }
        }),
{
    match try_find_pda(seeds, program_id) {
        None => {
            return Err(IntroError::MissingAuthorization);
        },
        Some(p) => {
            if !p.0.eq_addr(target) {
                return Err(IntroError::MissingAuthorization);
            }
        },
    }
    if byte_length > MAX_ACCOUNT_DATA {
        return Err(IntroError::RecordTooLarge);
    }
    match ledger.find_index(target) {
        Some(_) => {
            return Err(IntroError::AddressAlreadyInUse);
        },
        None => {},
    }
    let rent = rent_exempt_minimum(byte_length);
    let fi = match ledger.find_index(funder) {
        None => {
            return Err(IntroError::InsufficientFunds);
        },
        Some(fi) => fi,
    };
    let fbal = ledger.accounts[fi].acct.lamports;
    if fbal < rent {
        return Err(IntroError::InsufficientFunds);
    }
    let fowner = ledger.accounts[fi].acct.owner;
    let fdata = copy_range(
        &ledger.accounts[fi].acct.data,
        0,
        ledger.accounts[fi].acct.data.len(),
    );
    proof {
        assert(fdata@ =~= ledger.accounts@[fi as int].acct.data@);
        assert(funder@ != target@);
    }
    ledger.set_acct(fi, AccountModel { owner: fowner, lamports: fbal - rent, data: fdata });
    ledger.push_entry(
        target,
        AccountModel { owner: *owner, lamports: rent, data: zero_vec(byte_length) },
    );
    Ok(())
}

} // verus!
