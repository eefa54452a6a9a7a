//! Record, event, error and origin types shared by the registry operations.
use vstd::prelude::*;

use crate::domain::DomainName;
use crate::domain::bytes_eq;
use crate::domain::clone_bytes;

verus! {

pub type AccountId = u64;

pub type Balance = u64;

pub type BlockNumber = u64;

/// The authority a call is made under.
#[derive(Clone, Copy, PartialEq, Eq, Structural, Debug)]
pub enum Origin {
    /// The administrative (root-equivalent) origin.
    Root,
    /// A transaction signed by the given account.
    Signed(AccountId),
    /// An unsigned call; every operation here rejects it.
    Unsigned,
}

impl Origin {
    pub open spec fn is_signed(self) -> bool {
        self is Signed
    }

    pub open spec fn signer(self) -> AccountId {
        match self {
            Origin::Signed(a) => a,
            _ => 0,
        }
    }
}

/// A tagged reference a domain owner can point a domain at: either an account
/// or a numeric space identifier.
#[derive(Clone, Copy, PartialEq, Eq, Structural, Debug)]
pub enum InnerValue {
    Account(AccountId),
    Space(u64),
}

/// An opaque content reference. Only the IPFS form carries a validity rule:
/// a CID string of the two lengths in use (46-byte v0, 59-byte v1).
#[derive(Clone, PartialEq, Eq, Debug)]
pub enum Content {
    Empty,
    Other(Vec<u8>),
    Ipfs(Vec<u8>),
}

impl Content {
    pub open spec fn is_valid(self) -> bool {
        match self {
            Content::Empty => true,
            Content::Other(_) => true,
            Content::Ipfs(cid) => cid@.len() == 46 || cid@.len() == 59,
        }
    }

    /// Value equality over the carried bytes.
    pub open spec fn eq_spec(self, other: Content) -> bool {
        match (self, other) {
            (Content::Empty, Content::Empty) => true,
            (Content::Other(a), Content::Other(b)) => a@ == b@,
            (Content::Ipfs(a), Content::Ipfs(b)) => a@ == b@,
            _ => false,
        }
    }

    pub fn check_valid(&self) -> (r: bool)
        ensures
            r == self.is_valid(),
    {
        match self {
            Content::Empty => true,
            Content::Other(_) => true,
            Content::Ipfs(cid) => cid.len() == 46 || cid.len() == 59,
        }
    }

    pub fn eq_content(&self, other: &Content) -> (r: bool)
        ensures
            r == self.eq_spec(*other),
    {
        match (self, other) {
            (Content::Empty, Content::Empty) => true,
            (Content::Other(a), Content::Other(b)) => bytes_eq(a, b),
            (Content::Ipfs(a), Content::Ipfs(b)) => bytes_eq(a, b),
            _ => false,
        }
    }

    /// A fresh copy carrying the same bytes.
    pub fn duplicate(&self) -> (r: Content)
        ensures
            r.eq_spec(*self),
    {
        match self {
            Content::Empty => Content::Empty,
            Content::Other(b) => Content::Other(clone_bytes(b)),
            Content::Ipfs(b) => Content::Ipfs(clone_bytes(b)),
        }
    }
}

/// Who performed a change and when (block number and timestamp).
#[derive(Clone, Copy, PartialEq, Eq, Structural, Debug)]
pub struct WhoAndWhen {
    pub account: AccountId,
    pub block: BlockNumber,
    pub time: u64,
}

/// The deposit reserved against an account to secure a registration.
#[derive(Clone, Copy, PartialEq, Eq, Structural, Debug)]
pub struct DomainDeposit {
    pub depositor: AccountId,
    pub amount: Balance,
}

/// The registry record kept for one canonical domain name.
#[derive(Clone, PartialEq, Eq, Debug)]
pub struct DomainMeta {
    /// Who registered the domain and when; immutable after creation.
    pub created: WhoAndWhen,
    /// Set on every mutating operation after creation.
    pub updated: Option<WhoAndWhen>,
    /// Block number after which the registration period ends.
    pub expires_at: BlockNumber,
    /// The account that controls the domain.
    pub owner: AccountId,
    pub content: Content,
    pub inner_value: Option<InnerValue>,
    pub outer_value: Option<Vec<u8>>,
    pub domain_deposit: DomainDeposit,
    /// Always `len(outer_value)` times the configured byte rate.
    pub outer_value_deposit: Balance,
}

impl DomainMeta {
    /// Value equality, comparing carried byte strings by contents.
    pub open spec fn eq_spec(self, other: DomainMeta) -> bool {
        &&& self.created == other.created
        &&& self.updated == other.updated
        &&& self.expires_at == other.expires_at
        &&& self.owner == other.owner
        &&& self.content.eq_spec(other.content)
        &&& self.inner_value == other.inner_value
        &&& outer_value_eq(self.outer_value, other.outer_value)
        &&& self.domain_deposit == other.domain_deposit
        &&& self.outer_value_deposit == other.outer_value_deposit
    }

    /// A fresh copy of the record.
    pub fn duplicate(&self) -> (r: DomainMeta)
        ensures
            r.eq_spec(*self),
    {
        DomainMeta {
            created: self.created,
            updated: self.updated,
            expires_at: self.expires_at,
            owner: self.owner,
            content: self.content.duplicate(),
            inner_value: self.inner_value,
            outer_value: match &self.outer_value {
                Some(v) => Some(clone_bytes(v)),
                None => None,
            },
            domain_deposit: self.domain_deposit,
            outer_value_deposit: self.outer_value_deposit,
        }
    }
}

/// Value equality of two optional byte strings.
pub open spec fn outer_value_eq(a: Option<Vec<u8>>, b: Option<Vec<u8>>) -> bool {
    match (a, b) {
        (Option::None, Option::None) => true,
        (Option::Some(x), Option::Some(y)) => x@ == y@,
        _ => false,
    }
}

pub fn outer_value_eq_exec(a: &Option<Vec<u8>>, b: &Option<Vec<u8>>) -> (r: bool)
    ensures
        r == outer_value_eq(*a, *b),
{
    match (a, b) {
        (Option::None, Option::None) => true,
        (Option::Some(x), Option::Some(y)) => bytes_eq(x, y),
        _ => false,
    }
}

/// The events the registry emits.
#[derive(Clone, PartialEq, Eq, Debug)]
pub enum Event {
    DomainRegistered { who: AccountId, recipient: AccountId, domain: DomainName },
    DomainMetaUpdated { who: AccountId, domain: DomainName },
    NewWordsReserved { count: u32 },
    NewTldsSupported { count: u32 },
}

/// Whether an event is `DomainMetaUpdated` with the given payload.
pub open spec fn is_meta_updated_event(e: Event, who: AccountId, domain: Seq<u8>) -> bool {
    match e {
        Event::DomainMetaUpdated { who: w, domain: d } => w == who && d@ == domain,
        _ => false,
    }
}

/// The classified failures an operation can return.
#[derive(Clone, Copy, PartialEq, Eq, Structural, Debug)]
pub enum Error {
    /// The call was made under an origin the operation does not accept.
    BadOrigin,
    /// The requested reservation period was zero.
    ZeroReservationPeriod,
    /// The requested reservation period exceeds the configured limit.
    TooBigRegistrationPeriod,
    /// The canonical name is already registered.
    DomainAlreadyOwned,
    /// The recipient already holds the per-account maximum of domains.
    TooManyDomainsPerAccount,
    /// The global insertion limit was reached.
    DomainsInsertLimitReached,
    /// The name has more than the supported `subdomain.tld` depth.
    TooManyLabels,
    /// The final label is not in the supported-TLD set.
    TldNotSupported,
    /// A label breaks the character or hyphen-placement rules.
    DomainContainsInvalidChar,
    /// The subdomain label is shorter than the configured minimum.
    DomainIsTooShort,
    /// The subdomain label is longer than the configured maximum.
    DomainIsTooLong,
    /// A label matches a reserved word.
    DomainIsReserved,
    /// No price tier covers the subdomain's length.
    CannotCalculatePrice,
    /// The registrant's free balance cannot cover price plus deposit.
    InsufficientBalanceToRegisterDomain,
    /// The ledger refused to reserve the deposit.
    InsufficientBalanceToReserveDeposit,
    /// A ledger transfer or reservation failed for lack of usable balance.
    InsufficientBalance,
    /// The caller does not own the domain.
    NotDomainOwner,
    /// The domain is not registered.
    DomainNotFound,
    /// The new inner value equals the stored one.
    InnerValueNotChanged,
    /// The new outer value equals the stored one.
    OuterValueNotChanged,
    /// The new content equals the stored one.
    DomainContentNotChanged,
    /// The supplied IPFS content reference is malformed.
    InvalidIpfsCid,
}

} // verus!
