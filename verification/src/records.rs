use vstd::prelude::*;

verus! {

/// Why a request was refused. Every operation either commits in full or
/// returns one of these and leaves the ledger and the token bank untouched.
#[derive(Clone, Copy, Debug, PartialEq, Eq, Structural)]
pub enum IntroError {
    /// A required signer did not authorize the request, or derivation seeds
    /// handed to the provisioner do not produce the target address.
    MissingAuthorization,
    /// A supplied record address differs from the address re-derived from the
    /// request's own data.
    InvalidDerivedAddress,
    /// A fixed-identity collaborator account (token program, system program,
    /// rent oracle, mint, mint authority, token account) does not match its
    /// expected identity or derivation.
    IncorrectCollaboratorAccount,
    /// A record's serialized form exceeds its fixed allocation, or an
    /// allocation request exceeds what the ledger permits.
    RecordTooLarge,
    /// A one-time creation step found its record already populated.
    AlreadyInitialized,
    /// A record that must exist has never been created.
    UninitializedAccount,
    /// The record is not owned by this program.
    IllegalOwner,
    /// The target address of a provisioning request already holds an account.
    AddressAlreadyInUse,
    /// The funding source cannot cover the required rent-exempt balance.
    InsufficientFunds,
    /// A record's encoding does not fit the byte region allocated for it.
    SerializationOverflow,
    /// The instruction payload could not be decoded.
    InvalidInstruction,
    /// The positional account list is shorter than the operation's convention.
    NotEnoughAccounts,
    /// A counter or token quantity cannot grow without wrapping.
    Overflow,
}

/// A student's introduction record: a discriminator tag, the one-time
/// initialization flag, and the author-supplied name and message, all held
/// as raw byte strings exactly as they are persisted.
pub struct StudentInfo {
    pub discriminator: Vec<u8>,
    pub is_initialized: bool,
    pub name: Vec<u8>,
    pub msg: Vec<u8>,
}

/// The per-introduction reply counter record.
pub struct ReplyCounter {
    pub discriminator: Vec<u8>,
    pub is_initialized: bool,
    pub counter: u8,
}

/// A single reply record, keyed by the counter value consumed at creation.
/// `studentinfo` is the 32-byte back-reference to the owning introduction's
/// address.
pub struct Reply {
    pub discriminator: Vec<u8>,
    pub is_initialized: bool,
    pub studentinfo: Vec<u8>,
    pub reply: Vec<u8>,
}

} // verus!
