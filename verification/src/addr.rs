use vstd::prelude::*;

verus! {

/// A 32-byte account address on the host ledger.
#[derive(Clone, Copy)]
pub struct Address(pub [u8; 32]);

impl View for Address {
    type V = Seq<u8>;

    open spec fn view(&self) -> Seq<u8> {
        self.0@
    }
}

impl Address {
    /// Byte-for-byte address comparison; every trust decision in the
    /// lifecycle operations goes through this.
    pub fn eq_addr(&self, other: &Address) -> (r: bool)
        ensures
            r == (self@ == other@),
    {
        let mut i: usize = 0;
        while i < 32
            invariant
                i <= 32,
                forall|j: int| 0 <= j < i ==> self.0@[j] == other.0@[j],
            decreases 32 - i,
        {
            if self.0[i] != other.0[i] {
                assert(self@ != other@);
                return false;
            }
            i += 1;
        }
        proof {
            assert(self@ =~= other@);
        }
        true
    }

    /// The address bytes as a vector, for use as a derivation seed.
    pub fn to_seed(&self) -> (r: Vec<u8>)
        ensures
            r@ == self@,
    {
        let mut v: Vec<u8> = Vec::new();
        let mut i: usize = 0;
        while i < 32
            invariant
                i <= 32,
                v@ == self.0@.subrange(0, i as int),
            decreases 32 - i,
        {
            v.push(self.0[i]);
            assert(v@ =~= self.0@.subrange(0, i + 1));
            i += 1;
        }
        proof {
            assert(v@ =~= self@);
        }
        v
    }
}

/// The fungible-token program's well-known identity.
pub const TOKEN_PROGRAM_ID: [u8; 32] = [
    6, 221, 246, 225, 215, 101, 161, 147, 217, 203, 225, 70, 206, 235, 121, 172, 28, 180, 133,
    237, 95, 91, 55, 145, 58, 140, 245, 133, 126, 255, 0, 169,
];

/// The associated-token-account program's well-known identity, under which
/// a wallet's token account address is derived.
pub const ATA_PROGRAM_ID: [u8; 32] = [
    140, 151, 37, 143, 78, 36, 137, 241, 187, 61, 16, 41, 20, 142, 13, 131, 11, 90, 19, 153, 218,
    255, 16, 132, 4, 142, 123, 216, 219, 233, 248, 89,
];

/// The system program's well-known identity (the all-zero address).
pub const SYSTEM_PROGRAM_ID: [u8; 32] = [
    0, 0, 0, 0, 0, 0, 0, 0, 0, 0, 0, 0, 0, 0, 0, 0, 0, 0, 0, 0, 0, 0, 0, 0, 0, 0, 0, 0, 0, 0, 0,
    0,
];

/// The rent oracle's well-known identity.
pub const RENT_SYSVAR_ID: [u8; 32] = [
    6, 167, 213, 23, 25, 44, 92, 81, 33, 140, 201, 76, 61, 74, 241, 127, 88, 218, 238, 8, 155,
    161, 253, 68, 227, 219, 217, 138, 0, 0, 0, 0,
];

/// The seed tag under which an introduction's reply counter is derived:
/// the bytes of "reply".
pub open spec fn reply_seed_tag() -> Seq<u8> {
    seq![114u8, 101u8, 112u8, 108u8, 121u8]
}

/// The seed tag of the singleton token mint: the bytes of "token_mint".
pub open spec fn mint_seed_tag() -> Seq<u8> {
    seq![116u8, 111u8, 107u8, 101u8, 110u8, 95u8, 109u8, 105u8, 110u8, 116u8]
}

/// The seed tag of the singleton minting authority: the bytes of
/// "token_auth".
pub open spec fn auth_seed_tag() -> Seq<u8> {
    seq![116u8, 111u8, 107u8, 101u8, 110u8, 95u8, 97u8, 117u8, 116u8, 104u8]
}

/// What the host's program-derived-address computation returns for a seed
/// tuple under a program identity: the derived 32-byte address and its bump,
/// or nothing in the statistically improbable event that no bump works.
/// The result depends on the seeds and the program identity alone.
pub uninterp spec fn pda_of(seeds: Seq<Seq<u8>>, program_id: Seq<u8>) -> Option<(Seq<u8>, u8)>;

/// Whether `addr` is exactly the address that the seed tuple derives to
/// under `program_id`.
pub open spec fn pda_matches(seeds: Seq<Seq<u8>>, program_id: Seq<u8>, addr: Seq<u8>) -> bool {
    match pda_of(seeds, program_id) {
        Some(p) => p.0 == addr,
        None => false,
    }
}

/// The view of a derivation result, for relating executable results to
/// `pda_of`.
pub open spec fn pda_view(r: Option<(Address, u8)>) -> Option<(Seq<u8>, u8)> {
    match r {
        Some(p) => Some((p.0@, p.1)),
        None => None,
    }
}

/// The element-wise views of a seed list.
pub open spec fn views_of(s: Seq<Vec<u8>>) -> Seq<Seq<u8>> {
    s.map_values(|v: Vec<u8>| v@)
}

/// Relies on `Pubkey::try_find_program_address` of the solana-pubkey crate:
/// the derived address and bump are a deterministic function of the seeds
/// and the program identity, and `None` is returned when no bump yields a
/// valid derivation.
#[verifier::external_body]
pub(crate) fn try_find_pda(seeds: &Vec<Vec<u8>>, program_id: &Address) -> (r: Option<
    (Address, u8),
>)
    ensures
        pda_view(r) == pda_of(views_of(seeds@), program_id@),
{
    let seed_slices: Vec<&[u8]> = seeds.iter().map(|s| s.as_slice()).collect();
    let pid = solana_program::pubkey::Pubkey::new_from_array(program_id.0);
    solana_program::pubkey::Pubkey::try_find_program_address(&seed_slices, &pid).map(
        |p: (solana_program::pubkey::Pubkey, u8)| (Address(p.0.to_bytes()), p.1),
    )
}

/// Seed views of the four derivation domains.
pub open spec fn intro_seed_views(author: Seq<u8>) -> Seq<Seq<u8>> {
    seq![author]
}

pub open spec fn counter_seed_views(intro: Seq<u8>) -> Seq<Seq<u8>> {
    seq![intro, reply_seed_tag()]
}

pub open spec fn reply_seed_views(intro: Seq<u8>, count: u8) -> Seq<Seq<u8>> {
    seq![intro, seq![count]]
}

pub open spec fn mint_seed_views() -> Seq<Seq<u8>> {
    seq![mint_seed_tag()]
}

pub open spec fn auth_seed_views() -> Seq<Seq<u8>> {
    seq![auth_seed_tag()]
}

/// A wallet's token account address for a mint: derived, by the
/// associated-token-account convention, from the wallet, the token program
/// and the mint, under the associated-token-account program.
pub open spec fn ata_of(wallet: Seq<u8>, mint: Seq<u8>) -> Option<(Seq<u8>, u8)> {
    pda_of(seq![wallet, TOKEN_PROGRAM_ID@, mint], ATA_PROGRAM_ID@)
}

fn reply_seed_tag_bytes() -> (r: Vec<u8>)
    ensures
        r@ == reply_seed_tag(),
{
    let mut v: Vec<u8> = Vec::new();
    v.push(114);
    v.push(101);
    v.push(112);
    v.push(108);
    v.push(121);
    proof {
        assert(v@ =~= reply_seed_tag());
    }
    v
}

fn mint_seed_tag_bytes() -> (r: Vec<u8>)
    ensures
        r@ == mint_seed_tag(),
{
    let mut v: Vec<u8> = Vec::new();
    v.push(116);
    v.push(111);
    v.push(107);
    v.push(101);
    v.push(110);
    v.push(95);
    v.push(109);
    v.push(105);
    v.push(110);
    v.push(116);
    proof {
        assert(v@ =~= mint_seed_tag());
    }
    v
}

fn auth_seed_tag_bytes() -> (r: Vec<u8>)
    ensures
        r@ == auth_seed_tag(),
{
    let mut v: Vec<u8> = Vec::new();
    v.push(116);
    v.push(111);
    v.push(107);
    v.push(101);
    v.push(110);
    v.push(95);
    v.push(97);
    v.push(117);
    v.push(116);
    v.push(104);
    proof {
        assert(v@ =~= auth_seed_tag());
    }
    v
}

/// Builds the seed list for an author's introduction address.
pub(crate) fn intro_seeds(author: &Address) -> (r: Vec<Vec<u8>>)
    ensures
        views_of(r@) == intro_seed_views(author@),
{
    let mut s: Vec<Vec<u8>> = Vec::new();
    s.push(author.to_seed());
    proof {
        assert(views_of(s@) =~= intro_seed_views(author@));
    }
    s
}

/// Builds the seed list for an introduction's reply counter address.
pub(crate) fn counter_seeds(intro: &Address) -> (r: Vec<Vec<u8>>)
    ensures
        views_of(r@) == counter_seed_views(intro@),
{
    let mut s: Vec<Vec<u8>> = Vec::new();
    s.push(intro.to_seed());
    s.push(reply_seed_tag_bytes());
    proof {
        assert(views_of(s@) =~= counter_seed_views(intro@));
    }
    s
}

/// Builds the seed list for the reply derived from a counter value.
pub(crate) fn reply_seeds(intro: &Address, count: u8) -> (r: Vec<Vec<u8>>)
    ensures
        views_of(r@) == reply_seed_views(intro@, count),
{
    let mut s: Vec<Vec<u8>> = Vec::new();
    s.push(intro.to_seed());
    let mut c: Vec<u8> = Vec::new();
    c.push(count);
    proof {
        assert(c@ =~= seq![count]);
    }
    s.push(c);
    proof {
        assert(views_of(s@) =~= reply_seed_views(intro@, count));
    }
    s
}

/// Builds the seed list of the singleton token mint.
pub(crate) fn mint_seeds() -> (r: Vec<Vec<u8>>)
    ensures
        views_of(r@) == mint_seed_views(),
{
    let mut s: Vec<Vec<u8>> = Vec::new();
    s.push(mint_seed_tag_bytes());
    proof {
        assert(views_of(s@) =~= mint_seed_views());
    }
    s
}

/// Builds the seed list of the singleton minting authority.
pub(crate) fn auth_seeds() -> (r: Vec<Vec<u8>>)
    ensures
        views_of(r@) == auth_seed_views(),
{
    let mut s: Vec<Vec<u8>> = Vec::new();
    s.push(auth_seed_tag_bytes());
    proof {
        assert(views_of(s@) =~= auth_seed_views());
    }
    s
}

/// Re-derives the address a seed tuple produces and compares it
/// byte-for-byte against a caller-supplied address.
pub(crate) fn check_pda(seeds: &Vec<Vec<u8>>, program_id: &Address, claimed: &Address) -> (r:
    bool)
    ensures
        r == pda_matches(views_of(seeds@), program_id@, claimed@),
{
    match try_find_pda(seeds, program_id) {
        None => false,
        Some(p) => p.0.eq_addr(claimed),
    }
}

/// Derives a wallet's token account address for a mint, by the
/// associated-token-account convention.
pub fn derive_ata(wallet: &Address, mint: &Address) -> (r: Option<Address>)
    ensures
        match r {
            Some(a) => ata_of(wallet@, mint@) matches Some(p) && p.0 == a@,
            None => ata_of(wallet@, mint@) is None,
        },
{
    let mut s: Vec<Vec<u8>> = Vec::new();
    s.push(wallet.to_seed());
    let tok = Address(TOKEN_PROGRAM_ID);
    s.push(tok.to_seed());
    s.push(mint.to_seed());
    proof {
        assert(views_of(s@) =~= seq![wallet@, TOKEN_PROGRAM_ID@, mint@]);
    }
    match try_find_pda(&s, &Address(ATA_PROGRAM_ID)) {
        Some(p) => Some(p.0),
        None => None,
    }
}

} // verus!
