//! The registry state and its state-transition operations: registration,
//! metadata updates, and the administrative set and configuration changes.
use vstd::prelude::*;

use crate::assoc::assoc_keys_distinct;
use crate::assoc::find_assoc;
use crate::assoc::lemma_assoc_distinct_push;
use crate::assoc::lemma_assoc_distinct_remove;
use crate::assoc::lemma_assoc_distinct_update;
use crate::assoc::lemma_find_assoc_push;
use crate::assoc::lemma_find_assoc_remove;
use crate::assoc::lemma_find_assoc_at;
use crate::assoc::lemma_find_assoc_skip;
use crate::assoc::lemma_find_assoc_update;
use crate::domain::DomainName;
use crate::domain::MAX_DOMAIN_LENGTH;
use crate::domain::bytes_eq;
use crate::domain::check_word_chars;
use crate::domain::strip_hyphens;
use crate::domain::strip_hyphens_exec;
use crate::domain::word_chars_valid;
use crate::domain::lower_bytes;
use crate::domain::lower_domain_then_bound;
use crate::domain::split_dot;
use crate::domain::split_domain_by_dot;
use crate::ledger::AccountData;
use crate::ledger::Ledger;
use crate::ledger::min_bal;
use crate::ledger::sat_add_u64;
use crate::ledger::sat_mul_u64;
use crate::pricing::calculate_price_in;
use crate::pricing::price_for;
use crate::types::AccountId;
use crate::types::Balance;
use crate::types::BlockNumber;
use crate::types::Content;
use crate::types::DomainDeposit;
use crate::types::DomainMeta;
use crate::types::Error;
use crate::types::Event;
use crate::types::InnerValue;
use crate::types::Origin;
use crate::types::outer_value_eq;
use crate::types::outer_value_eq_exec;
use crate::types::is_meta_updated_event;
use crate::types::WhoAndWhen;

verus! {

/// The global cap on registrations within one block.
pub const DOMAINS_INSERT_LIMIT: u32 = 2860;

/// Longest byte length an outer value may have.
pub const MAX_OUTER_VALUE_LENGTH: usize = 256;

/// The whole state of the domain registry: configuration, the primary record
/// map, its two secondary indices, the administrative word sets, the balance
/// ledger, and the events emitted so far.
pub struct Registry {
    /// The current block number; advanced by the surrounding scheduler.
    pub block_number: BlockNumber,
    /// The current timestamp; advanced by the surrounding scheduler.
    pub current_time: u64,
    pub min_domain_length: u32,
    pub max_domains_per_account: u32,
    pub reservation_period_limit: BlockNumber,
    pub base_domain_deposit: Balance,
    pub outer_value_byte_deposit: Balance,
    /// The account registration prices are paid to.
    pub payment_beneficiary: AccountId,
    /// Length/price breakpoints, kept as the administrator supplied them.
    pub prices_config: Vec<(u32, Balance)>,
    /// The record held for each canonical name.
    pub domains: Vec<(DomainName, DomainMeta)>,
    /// Secondary index: the canonical names each account owns.
    pub domains_by_owner: Vec<(AccountId, Vec<DomainName>)>,
    /// Secondary index: the domain an (owner, inner value) pair points at.
    pub domain_by_inner_value: Vec<((AccountId, InnerValue), DomainName)>,
    /// Words no registrable label may match (compared with hyphens removed).
    pub reserved_words: Vec<DomainName>,
    /// The labels allowed as the final label of a registrable name.
    pub supported_tlds: Vec<DomainName>,
    /// How many registrations this block has seen.
    pub domains_inserted: u32,
    pub ledger: Ledger,
    pub events: Vec<Event>,
}

impl Registry {
    /// The record map keyed by the canonical name's bytes.
    pub open spec fn domain_entries(self) -> Seq<(Seq<u8>, DomainMeta)> {
        self.domains@.map_values(|p: (DomainName, DomainMeta)| (p.0@, p.1))
    }

    /// The record stored under a canonical key, if any.
    pub open spec fn lookup_domain(self, key: Seq<u8>) -> Option<DomainMeta> {
        find_assoc(self.domain_entries(), key)
    }

    /// The names an account owns, in insertion order.
    pub open spec fn owner_domains(self, owner: AccountId) -> Seq<DomainName> {
        match find_assoc(self.domains_by_owner@, owner) {
            Option::Some(v) => v@,
            Option::None => Seq::empty(),
        }
    }

    /// The domain an (owner, inner value) pair points at, if any.
    pub open spec fn ivi_lookup(self, account: AccountId, value: InnerValue) -> Option<
        DomainName,
    > {
        find_assoc(self.domain_by_inner_value@, (account, value))
    }

    /// Whether a word (already hyphen-stripped by the caller) is reserved.
    pub open spec fn word_reserved(self, w: Seq<u8>) -> bool {
        exists|i: int| 0 <= i < self.reserved_words@.len() && (#[trigger] self.reserved_words@[i])@
            == w
    }

    /// Whether a label is in the supported-TLD set.
    pub open spec fn tld_supported(self, w: Seq<u8>) -> bool {
        exists|i: int| 0 <= i < self.supported_tlds@.len() && (#[trigger] self.supported_tlds@[i])@
            == w
    }

    /// The structural invariant: each map's keys are distinct, the ledger is
    /// well formed, and every stored name obeys the length bound.
    pub open spec fn wf(self) -> bool {
        &&& assoc_keys_distinct(self.domain_entries())
        &&& assoc_keys_distinct(self.domains_by_owner@)
        &&& assoc_keys_distinct(self.domain_by_inner_value@)
        &&& self.ledger.wf()
        &&& forall|i: int| 0 <= i < self.domains@.len() ==> (#[trigger] self.domains@[i]).0.wf()
    }

    /// A registry with nothing registered, nothing configured, and an empty
    /// ledger.
    pub fn new() -> (r: Registry)
        ensures
            r.wf(),
            r.block_number == 0,
            r.current_time == 0,
            r.min_domain_length == 0,
            r.max_domains_per_account == 0,
            r.reservation_period_limit == 0,
            r.base_domain_deposit == 0,
            r.outer_value_byte_deposit == 0,
            r.payment_beneficiary == 0,
            r.prices_config@.len() == 0,
            r.domains@.len() == 0,
            r.domains_by_owner@.len() == 0,
            r.domain_by_inner_value@.len() == 0,
            r.reserved_words@.len() == 0,
            r.supported_tlds@.len() == 0,
            r.domains_inserted == 0,
            r.events@.len() == 0,
            forall|a: AccountId| r.ledger.account_of(a) == crate::ledger::AccountData::empty(),
    {
        Registry {
            block_number: 0,
            current_time: 0,
            min_domain_length: 0,
            max_domains_per_account: 0,
            reservation_period_limit: 0,
            base_domain_deposit: 0,
            outer_value_byte_deposit: 0,
            payment_beneficiary: 0,
            prices_config: Vec::new(),
            domains: Vec::new(),
            domains_by_owner: Vec::new(),
            domain_by_inner_value: Vec::new(),
            reserved_words: Vec::new(),
            supported_tlds: Vec::new(),
            domains_inserted: 0,
            ledger: Ledger::new(),
            events: Vec::new(),
        }
    }

    /// The position of the record stored under `key`, if any.
    fn find_domain_index(&self, key: &Vec<u8>) -> (r: Option<usize>)
        ensures
            match r {
                Option::Some(i) => {
                    &&& i < self.domains@.len()
                    &&& self.domains@[i as int].0@ == key@
                    &&& self.lookup_domain(key@) == Option::Some(self.domains@[i as int].1)
                },
                Option::None => self.lookup_domain(key@) is None,
            },
    {
        let n = self.domains.len();
        let mut i: usize = 0;
        while i < n
            invariant
                i <= n,
                n == self.domains@.len(),
                forall|k: int| 0 <= k < i ==> (#[trigger] self.domains@[k]).0@ != key@,
            decreases n - i,
        {
            let entry = &self.domains[i];
            if bytes_eq(&entry.0.bytes, key) {
                proof {
                    let entries = self.domain_entries();
                    assert(forall|k: int| 0 <= k < i ==> (#[trigger] entries[k]).0 != key@);
                    lemma_find_assoc_skip(entries, key@, i as int);
                    assert(entries.skip(i as int)[0] == entries[i as int]);
                }
                return Option::Some(i);
            }
            i = i + 1;
        }
        proof {
            let entries = self.domain_entries();
            assert(forall|k: int| 0 <= k < n ==> (#[trigger] entries[k]).0 != key@);
            lemma_find_assoc_skip(entries, key@, n as int);
        }
        Option::None
    }

    /// The position of an account's entry in the owner index, if any.
    fn find_owner_index(&self, owner: AccountId) -> (r: Option<usize>)
        ensures
            match r {
                Option::Some(i) => {
                    &&& i < self.domains_by_owner@.len()
                    &&& self.domains_by_owner@[i as int].0 == owner
                    &&& find_assoc(self.domains_by_owner@, owner) == Option::Some(
                        self.domains_by_owner@[i as int].1,
                    )
                },
                Option::None => find_assoc(self.domains_by_owner@, owner) is None,
            },
    {
        let n = self.domains_by_owner.len();
        let mut i: usize = 0;
        while i < n
            invariant
                i <= n,
                n == self.domains_by_owner@.len(),
                forall|k: int| 0 <= k < i ==> (#[trigger] self.domains_by_owner@[k]).0 != owner,
            decreases n - i,
        {
            let entry = &self.domains_by_owner[i];
            if entry.0 == owner {
                proof {
                    lemma_find_assoc_skip(self.domains_by_owner@, owner, i as int);
                    assert(self.domains_by_owner@.skip(i as int)[0] == self.domains_by_owner@[
                        i as int]);
                }
                return Option::Some(i);
            }
            i = i + 1;
        }
        proof {
            lemma_find_assoc_skip(self.domains_by_owner@, owner, n as int);
        }
        Option::None
    }

    /// The position of an (owner, inner value) entry, if any.
    fn find_ivi_index(&self, account: AccountId, value: InnerValue) -> (r: Option<usize>)
        ensures
            match r {
                Option::Some(i) => {
                    &&& i < self.domain_by_inner_value@.len()
                    &&& self.domain_by_inner_value@[i as int].0 == (account, value)
                    &&& self.ivi_lookup(account, value) == Option::Some(
                        self.domain_by_inner_value@[i as int].1,
                    )
                },
                Option::None => self.ivi_lookup(account, value) is None,
            },
    {
        let n = self.domain_by_inner_value.len();
        let mut i: usize = 0;
        while i < n
            invariant
                i <= n,
                n == self.domain_by_inner_value@.len(),
                forall|k: int|
                    0 <= k < i ==> (#[trigger] self.domain_by_inner_value@[k]).0 != (
                    account,
                    value,
                ),
            decreases n - i,
        {
            let entry = &self.domain_by_inner_value[i];
            if entry.0.0 == account && entry.0.1 == value {
                proof {
                    lemma_find_assoc_skip(self.domain_by_inner_value@, (account, value), i as int);
                    assert(self.domain_by_inner_value@.skip(i as int)[0]
                        == self.domain_by_inner_value@[i as int]);
                }
                return Option::Some(i);
            }
            i = i + 1;
        }
        proof {
            lemma_find_assoc_skip(self.domain_by_inner_value@, (account, value), n as int);
        }
        Option::None
    }

    /// The record registered under the given canonical name, as a copy.
    pub fn registered_domain(&self, domain: &DomainName) -> (r: Option<DomainMeta>)
        ensures
            match r {
                Option::Some(m) => {
                    &&& self.lookup_domain(domain@) is Some
                    &&& m.eq_spec(self.lookup_domain(domain@).unwrap())
                },
                Option::None => self.lookup_domain(domain@) is None,
            },
    {
        match self.find_domain_index(&domain.bytes) {
            Option::Some(i) => Option::Some(self.domains[i].1.duplicate()),
            Option::None => Option::None,
        }
    }

    /// The names an account owns, as copies in insertion order.
    pub fn domains_by_owner(&self, owner: AccountId) -> (r: Vec<DomainName>)
        ensures
            r@.len() == self.owner_domains(owner).len(),
            forall|i: int|
                0 <= i < r@.len() ==> (#[trigger] r@[i])@ == self.owner_domains(owner)[i]@,
    {
        let list: &Vec<DomainName> = match self.find_owner_index(owner) {
            Option::Some(i) => &self.domains_by_owner[i].1,
            Option::None => {
                return Vec::new();
            },
        };
        let mut out: Vec<DomainName> = Vec::new();
        let mut i: usize = 0;
        while i < list.len()
            invariant
                i <= list@.len(),
                out@.len() == i,
                forall|k: int| 0 <= k < i ==> (#[trigger] out@[k])@ == list@[k]@,
            decreases list@.len() - i,
        {
            out.push(list[i].duplicate());
            i = i + 1;
        }
        out
    }

    pub fn payment_beneficiary(&self) -> (r: AccountId)
        ensures
            r == self.payment_beneficiary,
    {
        self.payment_beneficiary
    }

    /// The current pricing table, as supplied by the administrator.
    pub fn prices_config(&self) -> (r: Vec<(u32, Balance)>)
        ensures
            r@ == self.prices_config@,
    {
        let mut out: Vec<(u32, Balance)> = Vec::new();
        let mut i: usize = 0;
        while i < self.prices_config.len()
            invariant
                i <= self.prices_config@.len(),
                out@ == self.prices_config@.subrange(0, i as int),
            decreases self.prices_config@.len() - i,
        {
            out.push(self.prices_config[i]);
            proof {
                assert(out@ =~= self.prices_config@.subrange(0, i + 1));
            }
            i = i + 1;
        }
        proof {
            assert(out@ =~= self.prices_config@);
        }
        out
    }

    /// Whether the word is in the reserved set, compared byte for byte.
    pub fn is_word_reserved(&self, word: &DomainName) -> (r: bool)
        ensures
            r == self.word_reserved(word@),
    {
        let n = self.reserved_words.len();
        let mut i: usize = 0;
        while i < n
            invariant
                i <= n,
                n == self.reserved_words@.len(),
                forall|k: int| 0 <= k < i ==> (#[trigger] self.reserved_words@[k])@ != word@,
            decreases n - i,
        {
            if bytes_eq(&self.reserved_words[i].bytes, word.as_bytes()) {
                proof {
                    assert(self.reserved_words@[i as int]@ == word@);
                }
                return true;
            }
            i = i + 1;
        }
        false
    }

    /// Whether the label is in the supported-TLD set, compared byte for byte.
    pub fn is_tld_supported(&self, tld: DomainName) -> (r: bool)
        ensures
            r == self.tld_supported(tld@),
    {
        let n = self.supported_tlds.len();
        let mut i: usize = 0;
        while i < n
            invariant
                i <= n,
                n == self.supported_tlds@.len(),
                forall|k: int| 0 <= k < i ==> (#[trigger] self.supported_tlds@[k])@ != tld@,
            decreases n - i,
        {
            if bytes_eq(&self.supported_tlds[i].bytes, &tld.bytes) {
                proof {
                    assert(self.supported_tlds@[i as int]@ == tld@);
                }
                return true;
            }
            i = i + 1;
        }
        false
    }

    /// The domain an (owner, inner value) pair points at, as a copy.
    pub fn domain_by_inner_value(&self, account: AccountId, value: InnerValue) -> (r: Option<
        DomainName,
    >)
        ensures
            match r {
                Option::Some(d) => {
                    &&& self.ivi_lookup(account, value) is Some
                    &&& d@ == self.ivi_lookup(account, value).unwrap()@
                },
                Option::None => self.ivi_lookup(account, value) is None,
            },
    {
        match self.find_ivi_index(account, value) {
            Option::Some(i) => Option::Some(self.domain_by_inner_value[i].1.duplicate()),
            Option::None => Option::None,
        }
    }

    /// The configured price for the given subdomain, by its byte length.
    pub fn calculate_price(&self, subdomain: &[u8]) -> (r: Option<Balance>)
        ensures
            r == price_for(self.prices_config@, subdomain@.len()),
    {
        calculate_price_in(&self.prices_config, subdomain.len())
    }

    /// Every event emitted so far, oldest first.
    pub fn events(&self) -> (r: &Vec<Event>)
        ensures
            r@ == self.events@,
    {
        &self.events
    }
}


/// Everything equal between two registry states except the reserved-word
/// set and the event log.
pub open spec fn unchanged_but_words_and_events(a: Registry, b: Registry) -> bool {
    &&& b.block_number == a.block_number
    &&& b.current_time == a.current_time
    &&& b.min_domain_length == a.min_domain_length
    &&& b.max_domains_per_account == a.max_domains_per_account
    &&& b.reservation_period_limit == a.reservation_period_limit
    &&& b.base_domain_deposit == a.base_domain_deposit
    &&& b.outer_value_byte_deposit == a.outer_value_byte_deposit
    &&& b.payment_beneficiary == a.payment_beneficiary
    &&& b.prices_config == a.prices_config
    &&& b.domains == a.domains
    &&& b.domains_by_owner == a.domains_by_owner
    &&& b.domain_by_inner_value == a.domain_by_inner_value
    &&& b.supported_tlds == a.supported_tlds
    &&& b.domains_inserted == a.domains_inserted
    &&& b.ledger == a.ledger
}

/// Everything equal between two registry states except the supported-TLD
/// set and the event log.
pub open spec fn unchanged_but_tlds_and_events(a: Registry, b: Registry) -> bool {
    &&& b.block_number == a.block_number
    &&& b.current_time == a.current_time
    &&& b.min_domain_length == a.min_domain_length
    &&& b.max_domains_per_account == a.max_domains_per_account
    &&& b.reservation_period_limit == a.reservation_period_limit
    &&& b.base_domain_deposit == a.base_domain_deposit
    &&& b.outer_value_byte_deposit == a.outer_value_byte_deposit
    &&& b.payment_beneficiary == a.payment_beneficiary
    &&& b.prices_config == a.prices_config
    &&& b.domains == a.domains
    &&& b.domains_by_owner == a.domains_by_owner
    &&& b.domain_by_inner_value == a.domain_by_inner_value
    &&& b.reserved_words == a.reserved_words
    &&& b.domains_inserted == a.domains_inserted
    &&& b.ledger == a.ledger
}

impl Registry {
    /// Where validation fails for a label sequence, and with which error:
    /// more than `subdomain.tld` depth, an unsupported TLD, a character-rule
    /// break, a subdomain length out of bounds, or a reserved word (matched
    /// with hyphens removed), checked in that order.
    pub open spec fn validate_labels_err(self, labels: Seq<Seq<u8>>) -> Option<Error> {
        if labels.len() > 2 {
            Option::Some(Error::TooManyLabels)
        } else if !self.tld_supported(labels.last()) {
            Option::Some(Error::TldNotSupported)
        } else if !(forall|i: int| 0 <= i < labels.len() ==> word_chars_valid(#[trigger] labels[i])) {
            Option::Some(Error::DomainContainsInvalidChar)
        } else if labels[0].len() < self.min_domain_length {
            Option::Some(Error::DomainIsTooShort)
        } else if labels[0].len() > MAX_DOMAIN_LENGTH {
            Option::Some(Error::DomainIsTooLong)
        } else if exists|i: int|
            0 <= i < labels.len() && self.word_reserved(strip_hyphens(#[trigger] labels[i])) {
            Option::Some(Error::DomainIsReserved)
        } else {
            Option::None
        }
    }

    /// Checks a split name against the validation rules; `Ok` exactly when
    /// no rule is broken.
    pub fn ensure_valid_domain(&self, labels: &Vec<DomainName>) -> (r: Result<(), Error>)
        requires
            labels@.len() >= 1,
            forall|i: int| 0 <= i < labels@.len() ==> (#[trigger] labels@[i]).wf(),
        ensures
            (match r {
                Result::Ok(()) => self.validate_labels_err(
                    labels@.map_values(|d: DomainName| d@),
                ) is None,
                Result::Err(e) => self.validate_labels_err(labels@.map_values(|d: DomainName| d@))
                    == Option::Some(e),
            }),
    {
        let ghost views = labels@.map_values(|d: DomainName| d@);
        let n = labels.len();
        if n > 2 {
            return Result::Err(Error::TooManyLabels);
        }
        let tld = &labels[n - 1];
        proof {
            assert(views.last() == tld@);
        }
        if !self.is_tld_supported(tld.duplicate()) {
            return Result::Err(Error::TldNotSupported);
        }
        let mut i: usize = 0;
        while i < n
            invariant
                i <= n,
                n == labels@.len(),
                1 <= n <= 2,
                views == labels@.map_values(|d: DomainName| d@),
                self.tld_supported(views.last()),
                forall|k: int| 0 <= k < i ==> word_chars_valid(#[trigger] views[k]),
            decreases n - i,
        {
            if !check_word_chars(&labels[i]) {
                proof {
                    assert(views[i as int] == labels@[i as int]@);
                    assert(!word_chars_valid(views[i as int]));
                }
                return Result::Err(Error::DomainContainsInvalidChar);
            }
            i = i + 1;
        }
        let first_len = labels[0].len();
        proof {
            assert(views[0] == labels@[0]@);
        }
        if first_len < self.min_domain_length as usize {
            return Result::Err(Error::DomainIsTooShort);
        }
        if first_len > MAX_DOMAIN_LENGTH {
            return Result::Err(Error::DomainIsTooLong);
        }
        let mut j: usize = 0;
        while j < n
            invariant
                j <= n,
                n == labels@.len(),
                1 <= n <= 2,
                views == labels@.map_values(|d: DomainName| d@),
                self.tld_supported(views.last()),
                forall|k: int| 0 <= k < n ==> word_chars_valid(#[trigger] views[k]),
                views[0].len() >= self.min_domain_length,
                views[0].len() <= MAX_DOMAIN_LENGTH,
                forall|i: int| 0 <= i < labels@.len() ==> (#[trigger] labels@[i]).wf(),
                forall|k: int| 0 <= k < j ==> !self.word_reserved(strip_hyphens(#[trigger] views[k])),
            decreases n - j,
        {
            let stripped = strip_hyphens_exec(&labels[j]);
            if self.is_word_reserved(&stripped) {
                proof {
                    assert(views[j as int] == labels@[j as int]@);
                    assert(self.word_reserved(strip_hyphens(views[j as int])));
                }
                return Result::Err(Error::DomainIsReserved);
            }
            j = j + 1;
        }
        Result::Ok(())
    }

    /// Reserves every submitted word, or rejects the whole list on the first
    /// word that breaks the character rules. Emits the submitted count.
    pub fn reserve_words(&mut self, origin: Origin, words: Vec<DomainName>) -> (r: Result<
        (),
        Error,
    >)
        requires
            old(self).wf(),
            words@.len() <= u32::MAX,
        ensures
            final(self).wf(),
            (match r {
                Result::Ok(()) => {
                    &&& origin is Root
                    &&& forall|i: int|
                        0 <= i < words@.len() ==> word_chars_valid((#[trigger] words@[i])@)
                    &&& forall|w: Seq<u8>|
                        #[trigger] final(self).word_reserved(w) <==> (old(self).word_reserved(w)
                            || exists|i: int| 0 <= i < words@.len() && (#[trigger] words@[i])@ == w)
                    &&& final(self).events@ == old(self).events@.push(
                        Event::NewWordsReserved { count: words@.len() as u32 },
                    )
                    &&& unchanged_but_words_and_events(*old(self), *final(self))
                },
                Result::Err(e) => {
                    &&& *final(self) == *old(self)
                    &&& if !(origin is Root) {
                        e == Error::BadOrigin
                    } else {
                        e == Error::DomainContainsInvalidChar && (exists|i: int|
                            0 <= i < words@.len() && !word_chars_valid((#[trigger] words@[i])@))
                    }
                },
            }),
    {
        if !matches!(origin, Origin::Root) {
            return Result::Err(Error::BadOrigin);
        }
        let n = words.len();
        let mut i: usize = 0;
        while i < n
            invariant
                i <= n,
                n == words@.len(),
                origin is Root,
                old(self).wf(),
                *self == *old(self),
                forall|k: int| 0 <= k < i ==> word_chars_valid((#[trigger] words@[k])@),
            decreases n - i,
        {
            if !check_word_chars(&words[i]) {
                proof {
                    assert(!word_chars_valid(words@[i as int]@));
                }
                return Result::Err(Error::DomainContainsInvalidChar);
            }
            i = i + 1;
        }
        let mut j: usize = 0;
        while j < n
            invariant
                j <= n,
                n == words@.len(),
                n <= u32::MAX,
                origin is Root,
                old(self).wf(),
                self.wf(),
                forall|k: int| 0 <= k < n ==> word_chars_valid((#[trigger] words@[k])@),
                unchanged_but_words_and_events(*old(self), *self),
                self.events@ == old(self).events@,
                forall|w: Seq<u8>|
                    #[trigger] self.word_reserved(w) <==> (old(self).word_reserved(w) || exists|
                        k: int|
                        0 <= k < j && (#[trigger] words@[k])@ == w),
            decreases n - j,
        {
            let ghost pre_self = *self;
            self.reserved_words.push(words[j].duplicate());
            proof {
                let pre = pre_self.reserved_words@;
                let cur = self.reserved_words@;
                assert(cur.len() == pre.len() + 1);
                assert(cur[pre.len() as int]@ == words@[j as int]@);
                assert forall|w: Seq<u8>| #[trigger] self.word_reserved(w) implies (old(
                    self,
                ).word_reserved(w) || exists|k: int| 0 <= k < j + 1 && (#[trigger] words@[k])@ == w) by {
                    let wi = choose|wi: int| 0 <= wi < cur.len() && (#[trigger] cur[wi])@ == w;
                    if wi < pre.len() {
                        assert(pre[wi]@ == w);
                        assert(pre_self.word_reserved(w));
                        assert(words@[j as int] == words@[j as int]);
                    } else {
                        assert(words@[j as int]@ == w);
                    }
                }
                assert forall|w: Seq<u8>|
                    (old(self).word_reserved(w) || exists|k: int|
                        0 <= k < j + 1 && (#[trigger] words@[k])@ == w) implies #[trigger] self
                    .word_reserved(w) by {
                    if old(self).word_reserved(w) || (exists|k: int|
                        0 <= k < j && (#[trigger] words@[k])@ == w) {
                        assert(pre_self.word_reserved(w));
                        let wi = choose|wi: int| 0 <= wi < pre.len() && (#[trigger] pre[wi])@ == w;
                        assert(cur[wi]@ == w);
                    } else {
                        let k = choose|k: int| 0 <= k < j + 1 && (#[trigger] words@[k])@ == w;
                        assert(k == j);
                        assert(cur[pre.len() as int]@ == w);
                    }
                }
            }
            j = j + 1;
        }
        let ghost pre_events = *self;
        self.events.push(Event::NewWordsReserved { count: n as u32 });
        proof {
            assert(self.reserved_words@ == pre_events.reserved_words@);
            assert forall|w: Seq<u8>| #[trigger] self.word_reserved(w)
                == pre_events.word_reserved(w) by {
                if self.word_reserved(w) {
                    let cur = self.reserved_words@;
                    let wi = choose|wi: int| 0 <= wi < cur.len() && (#[trigger] cur[wi])@ == w;
                    assert(pre_events.reserved_words@[wi]@ == w);
                }
                if pre_events.word_reserved(w) {
                    let pre = pre_events.reserved_words@;
                    let wi = choose|wi: int| 0 <= wi < pre.len() && (#[trigger] pre[wi])@ == w;
                    assert(self.reserved_words@[wi]@ == w);
                }
            }
        }
        Result::Ok(())
    }
}

impl Registry {
    /// Adds every submitted label to the supported-TLD set, or rejects the
    /// whole list on the first label that breaks the character rules. Emits
    /// the submitted count.
    pub fn support_tlds(&mut self, origin: Origin, tlds: Vec<DomainName>) -> (r: Result<
        (),
        Error,
    >)
        requires
            old(self).wf(),
            tlds@.len() <= u32::MAX,
        ensures
            final(self).wf(),
            (match r {
                Result::Ok(()) => {
                    &&& origin is Root
                    &&& forall|i: int|
                        0 <= i < tlds@.len() ==> word_chars_valid((#[trigger] tlds@[i])@)
                    &&& forall|w: Seq<u8>|
                        #[trigger] final(self).tld_supported(w) <==> (old(self).tld_supported(w)
                            || exists|i: int| 0 <= i < tlds@.len() && (#[trigger] tlds@[i])@ == w)
                    &&& final(self).events@ == old(self).events@.push(
                        Event::NewTldsSupported { count: tlds@.len() as u32 },
                    )
                    &&& unchanged_but_tlds_and_events(*old(self), *final(self))
                },
                Result::Err(e) => {
                    &&& *final(self) == *old(self)
                    &&& if !(origin is Root) {
                        e == Error::BadOrigin
                    } else {
                        e == Error::DomainContainsInvalidChar && (exists|i: int|
                            0 <= i < tlds@.len() && !word_chars_valid((#[trigger] tlds@[i])@))
                    }
                },
            }),
    {
        if !matches!(origin, Origin::Root) {
            return Result::Err(Error::BadOrigin);
        }
        let n = tlds.len();
        let mut i: usize = 0;
        while i < n
            invariant
                i <= n,
                n == tlds@.len(),
                origin is Root,
                old(self).wf(),
                *self == *old(self),
                forall|k: int| 0 <= k < i ==> word_chars_valid((#[trigger] tlds@[k])@),
            decreases n - i,
        {
            if !check_word_chars(&tlds[i]) {
                proof {
                    assert(!word_chars_valid(tlds@[i as int]@));
                }
                return Result::Err(Error::DomainContainsInvalidChar);
            }
            i = i + 1;
        }
        let mut j: usize = 0;
        while j < n
            invariant
                j <= n,
                n == tlds@.len(),
                n <= u32::MAX,
                origin is Root,
                old(self).wf(),
                self.wf(),
                forall|k: int| 0 <= k < n ==> word_chars_valid((#[trigger] tlds@[k])@),
                unchanged_but_tlds_and_events(*old(self), *self),
                self.events@ == old(self).events@,
                forall|w: Seq<u8>|
                    #[trigger] self.tld_supported(w) <==> (old(self).tld_supported(w) || exists|
                        k: int|
                        0 <= k < j && (#[trigger] tlds@[k])@ == w),
            decreases n - j,
        {
            let ghost pre_self = *self;
            self.supported_tlds.push(tlds[j].duplicate());
            proof {
                let pre = pre_self.supported_tlds@;
                let cur = self.supported_tlds@;
                assert(cur.len() == pre.len() + 1);
                assert(cur[pre.len() as int]@ == tlds@[j as int]@);
                assert forall|w: Seq<u8>| #[trigger] self.tld_supported(w) implies (old(
                    self,
                ).tld_supported(w) || exists|k: int| 0 <= k < j + 1 && (#[trigger] tlds@[k])@ == w) by {
                    let wi = choose|wi: int| 0 <= wi < cur.len() && (#[trigger] cur[wi])@ == w;
                    if wi < pre.len() {
                        assert(pre[wi]@ == w);
                        assert(pre_self.tld_supported(w));
                        assert(tlds@[j as int] == tlds@[j as int]);
                    } else {
                        assert(tlds@[j as int]@ == w);
                    }
                }
                assert forall|w: Seq<u8>|
                    (old(self).tld_supported(w) || exists|k: int|
                        0 <= k < j + 1 && (#[trigger] tlds@[k])@ == w) implies #[trigger] self
                    .tld_supported(w) by {
                    if old(self).tld_supported(w) || (exists|k: int|
                        0 <= k < j && (#[trigger] tlds@[k])@ == w) {
                        assert(pre_self.tld_supported(w));
                        let wi = choose|wi: int| 0 <= wi < pre.len() && (#[trigger] pre[wi])@ == w;
                        assert(cur[wi]@ == w);
                    } else {
                        let k = choose|k: int| 0 <= k < j + 1 && (#[trigger] tlds@[k])@ == w;
                        assert(k == j);
                        assert(cur[pre.len() as int]@ == w);
                    }
                }
            }
            j = j + 1;
        }
        let ghost pre_events = *self;
        self.events.push(Event::NewTldsSupported { count: n as u32 });
        proof {
            assert(self.supported_tlds@ == pre_events.supported_tlds@);
            assert forall|w: Seq<u8>| #[trigger] self.tld_supported(w)
                == pre_events.tld_supported(w) by {
                if self.tld_supported(w) {
                    let cur = self.supported_tlds@;
                    let wi = choose|wi: int| 0 <= wi < cur.len() && (#[trigger] cur[wi])@ == w;
                    assert(pre_events.supported_tlds@[wi]@ == w);
                }
                if pre_events.tld_supported(w) {
                    let pre = pre_events.supported_tlds@;
                    let wi = choose|wi: int| 0 <= wi < pre.len() && (#[trigger] pre[wi])@ == w;
                    assert(self.supported_tlds@[wi]@ == w);
                }
            }
        }
        Result::Ok(())
    }

    /// Replaces the pricing table wholesale with the submitted one.
    pub fn set_prices_config(&mut self, origin: Origin, new_prices: Vec<(u32, Balance)>) -> (r:
        Result<(), Error>)
        requires
            old(self).wf(),
        ensures
            final(self).wf(),
            (match r {
                Result::Ok(()) => {
                    &&& origin is Root
                    &&& final(self).prices_config@ == new_prices@
                    &&& *final(self) == (Registry {
                        prices_config: final(self).prices_config,
                        ..*old(self)
                    })
                },
                Result::Err(e) => {
                    &&& e == Error::BadOrigin
                    &&& !(origin is Root)
                    &&& *final(self) == *old(self)
                },
            }),
    {
        if !matches!(origin, Origin::Root) {
            return Result::Err(Error::BadOrigin);
        }
        self.prices_config = new_prices;
        Result::Ok(())
    }

    /// Points future price payments at a different beneficiary account.
    pub fn set_payment_beneficiary(&mut self, origin: Origin, beneficiary: AccountId) -> (r:
        Result<(), Error>)
        requires
            old(self).wf(),
        ensures
            final(self).wf(),
            (match r {
                Result::Ok(()) => {
                    &&& origin is Root
                    &&& final(self).payment_beneficiary == beneficiary
                    &&& *final(self) == (Registry {
                        payment_beneficiary: beneficiary,
                        ..*old(self)
                    })
                },
                Result::Err(e) => {
                    &&& e == Error::BadOrigin
                    &&& !(origin is Root)
                    &&& *final(self) == *old(self)
                },
            }),
    {
        if !matches!(origin, Origin::Root) {
            return Result::Err(Error::BadOrigin);
        }
        self.payment_beneficiary = beneficiary;
        Result::Ok(())
    }
}

/// The exact ledger movement a successful registration makes: the deposit is
/// reserved against the caller and the price is paid to the beneficiary.
pub open spec fn register_ledger_post(
    pre: Ledger,
    post: Ledger,
    who: AccountId,
    beneficiary: AccountId,
    deposit: Balance,
    price: Balance,
) -> bool {
    &&& post.reserved_of(who) == pre.reserved_of(who) + deposit
    &&& post.locked_of(who) == pre.locked_of(who)
    &&& if who == beneficiary {
        post.free_of(who) == pre.free_of(who) - deposit
    } else {
        &&& post.free_of(who) == pre.free_of(who) - deposit - price
        &&& post.free_of(beneficiary) == pre.free_of(beneficiary) + price
        &&& post.reserved_of(beneficiary) == pre.reserved_of(beneficiary)
        &&& post.locked_of(beneficiary) == pre.locked_of(beneficiary)
    }
    &&& forall|a: AccountId|
        a != who && a != beneficiary ==> post.account_of(a) == pre.account_of(a)
}

impl Registry {
    /// The names an account owns, by their bytes.
    pub open spec fn owner_domain_views(self, owner: AccountId) -> Seq<Seq<u8>> {
        self.owner_domains(owner).map_values(|d: DomainName| d@)
    }

    /// The record a successful registration stores.
    pub open spec fn register_new_meta(
        self,
        who: AccountId,
        recipient: AccountId,
        content: Content,
        expires_in: BlockNumber,
    ) -> DomainMeta {
        DomainMeta {
            created: WhoAndWhen { account: who, block: self.block_number, time: self.current_time },
            updated: Option::None,
            expires_at: sat_add_u64(self.block_number, expires_in),
            owner: recipient,
            content: content,
            inner_value: Option::None,
            outer_value: Option::None,
            domain_deposit: DomainDeposit { depositor: who, amount: self.base_domain_deposit },
            outer_value_deposit: 0,
        }
    }

    /// The price a registration of this name pays.
    pub open spec fn register_price(self, full_domain: DomainName) -> Balance {
        price_for(
            self.prices_config@,
            split_dot(lower_bytes(full_domain@))[0].len(),
        ).unwrap()
    }

    /// Where registration fails, if anywhere, and with which error; the
    /// checks run in this order: origin, reservation period, prior
    /// registration, the recipient's domain count, the global insertion
    /// limit, name validation, pricing, the spendable-balance pre-check, the
    /// reservation itself, and finally the price payment.
    pub open spec fn register_err(
        self,
        origin: Origin,
        recipient: Option<AccountId>,
        full_domain: DomainName,
        expires_in: BlockNumber,
    ) -> Option<Error> {
        let who = origin.signer();
        let rec = match recipient {
            Option::Some(a) => a,
            Option::None => who,
        };
        let key = lower_bytes(full_domain@);
        let labels = split_dot(key);
        let price_opt = price_for(self.prices_config@, labels[0].len());
        if !origin.is_signed() {
            Option::Some(Error::BadOrigin)
        } else if expires_in == 0 {
            Option::Some(Error::ZeroReservationPeriod)
        } else if expires_in > self.reservation_period_limit {
            Option::Some(Error::TooBigRegistrationPeriod)
        } else if self.lookup_domain(key) is Some {
            Option::Some(Error::DomainAlreadyOwned)
        } else if self.owner_domains(rec).len() >= self.max_domains_per_account {
            Option::Some(Error::TooManyDomainsPerAccount)
        } else if self.domains_inserted >= DOMAINS_INSERT_LIMIT {
            Option::Some(Error::DomainsInsertLimitReached)
        } else if self.validate_labels_err(labels) is Some {
            self.validate_labels_err(labels)
        } else if price_opt is None {
            Option::Some(Error::CannotCalculatePrice)
        } else {
            let price = price_opt.unwrap();
            let deposit = self.base_domain_deposit;
            let free = self.ledger.free_of(who);
            let locked = self.ledger.locked_of(who);
            let ben = self.payment_beneficiary;
            if free < price + deposit {
                Option::Some(Error::InsufficientBalanceToRegisterDomain)
            } else if !self.ledger.can_reserve(who, deposit as int) {
                Option::Some(Error::InsufficientBalanceToReserveDeposit)
            } else if free - deposit - price < locked || (who != ben && self.ledger.free_of(ben)
                + price > u64::MAX) {
                Option::Some(Error::InsufficientBalance)
            } else {
                Option::None
            }
        }
    }

    /// Registers a dotted name: validates it, prices it, reserves the base
    /// deposit, pays the price to the beneficiary, stores the record under
    /// the canonical (lowercased) key, and updates the owner index. Fails
    /// with the first applicable error of [`Registry::register_err`], and on
    /// failure changes nothing.
    pub fn register_domain(
        &mut self,
        origin: Origin,
        recipient: Option<AccountId>,
        full_domain: DomainName,
        content: Content,
        expires_in: BlockNumber,
    ) -> (r: Result<(), Error>)
        requires
            old(self).wf(),
            full_domain.wf(),
        ensures
            final(self).wf(),
            (match r {
                Result::Ok(()) => {
                    let who = origin.signer();
                    let rec = match recipient {
                        Option::Some(a) => a,
                        Option::None => who,
                    };
                    let key = lower_bytes(full_domain@);
                    let meta = old(self).register_new_meta(who, rec, content, expires_in);
                    let price = old(self).register_price(full_domain);
                    &&& old(self).register_err(origin, recipient, full_domain, expires_in)
                        is None
                    &&& final(self).domain_entries() == old(self).domain_entries().push(
                        (key, meta),
                    )
                    &&& final(self).owner_domain_views(rec) == old(self).owner_domain_views(
                        rec,
                    ).push(key)
                    &&& forall|o: AccountId|
                        o != rec ==> #[trigger] final(self).owner_domain_views(o) == old(
                            self,
                        ).owner_domain_views(o)
                    &&& register_ledger_post(
                        old(self).ledger,
                        final(self).ledger,
                        who,
                        old(self).payment_beneficiary,
                        old(self).base_domain_deposit,
                        price,
                    )
                    &&& final(self).domains_inserted == old(self).domains_inserted + 1
                    &&& final(self).events@ == old(self).events@.push(
                        Event::DomainRegistered { who: who, recipient: rec, domain: full_domain },
                    )
                    &&& final(self).domain_by_inner_value == old(self).domain_by_inner_value
                    &&& final(self).reserved_words == old(self).reserved_words
                    &&& final(self).supported_tlds == old(self).supported_tlds
                    &&& final(self).prices_config == old(self).prices_config
                    &&& final(self).payment_beneficiary == old(self).payment_beneficiary
                    &&& final(self).block_number == old(self).block_number
                    &&& final(self).current_time == old(self).current_time
                    &&& final(self).min_domain_length == old(self).min_domain_length
                    &&& final(self).max_domains_per_account == old(self).max_domains_per_account
                    &&& final(self).reservation_period_limit == old(self).reservation_period_limit
                    &&& final(self).base_domain_deposit == old(self).base_domain_deposit
                    &&& final(self).outer_value_byte_deposit == old(self).outer_value_byte_deposit
                },
                Result::Err(e) => {
                    &&& old(self).register_err(origin, recipient, full_domain, expires_in)
                        == Option::Some(e)
                    &&& *final(self) == *old(self)
                },
            }),
    {
        let who = match origin {
            Origin::Signed(a) => a,
            _ => {
                return Result::Err(Error::BadOrigin);
            },
        };
        let rec = match recipient {
            Option::Some(a) => a,
            Option::None => who,
        };
        if expires_in == 0 {
            return Result::Err(Error::ZeroReservationPeriod);
        }
        if expires_in > self.reservation_period_limit {
            return Result::Err(Error::TooBigRegistrationPeriod);
        }
        let domain_lc = lower_domain_then_bound(&full_domain);
        let ghost key = lower_bytes(full_domain@);
        if self.find_domain_index(&domain_lc.bytes).is_some() {
            return Result::Err(Error::DomainAlreadyOwned);
        }
        let owner_slot = self.find_owner_index(rec);
        let owned: usize = match owner_slot {
            Option::Some(i) => self.domains_by_owner[i].1.len(),
            Option::None => 0,
        };
        if owned >= self.max_domains_per_account as usize {
            return Result::Err(Error::TooManyDomainsPerAccount);
        }
        if self.domains_inserted >= DOMAINS_INSERT_LIMIT {
            return Result::Err(Error::DomainsInsertLimitReached);
        }
        let labels = split_domain_by_dot(&domain_lc);
        proof {
            assert(labels@.map_values(|d: DomainName| d@) == split_dot(key));
        }
        match self.ensure_valid_domain(&labels) {
            Result::Ok(()) => {},
            Result::Err(e) => {
                return Result::Err(e);
            },
        }
        let price = match self.calculate_price(labels[0].as_bytes().as_slice()) {
            Option::Some(p) => p,
            Option::None => {
                return Result::Err(Error::CannotCalculatePrice);
            },
        };
        proof {
            assert(labels@[0]@ == split_dot(key)[0]);
        }
        let deposit = self.base_domain_deposit;
        let acct = self.ledger.get_account(who);
        match price.checked_add(deposit) {
            Option::Some(total) => {
                if acct.free < total {
                    return Result::Err(Error::InsufficientBalanceToRegisterDomain);
                }
            },
            Option::None => {
                return Result::Err(Error::InsufficientBalanceToRegisterDomain);
            },
        }
        if deposit > acct.free || acct.free - deposit < acct.locked || u64::MAX - deposit
            < acct.reserved {
            return Result::Err(Error::InsufficientBalanceToReserveDeposit);
        }
        let ben = self.payment_beneficiary;
        if acct.free - deposit - price < acct.locked {
            return Result::Err(Error::InsufficientBalance);
        }
        if ben != who {
            let bacct = self.ledger.get_account(ben);
            if u64::MAX - price < bacct.free {
                return Result::Err(Error::InsufficientBalance);
            }
        }
        let ghost pre = *self;
        let res_reserve = self.ledger.reserve(who, deposit);
        proof {
            assert(res_reserve is Ok);
        }
        let res_transfer = self.ledger.transfer(who, ben, price);
        proof {
            assert(res_transfer is Ok);
        }
        let expires_at = match self.block_number.checked_add(expires_in) {
            Option::Some(v) => v,
            Option::None => u64::MAX,
        };
        let meta = DomainMeta {
            created: WhoAndWhen {
                account: who,
                block: self.block_number,
                time: self.current_time,
            },
            updated: Option::None,
            expires_at: expires_at,
            owner: rec,
            content: content,
            inner_value: Option::None,
            outer_value: Option::None,
            domain_deposit: DomainDeposit { depositor: who, amount: deposit },
            outer_value_deposit: 0,
        };
        let ghost meta_spec = meta;
        let owner_name = domain_lc.duplicate();
        let ghost pre_domains = self.domain_entries();
        self.domains.push((domain_lc, meta));
        proof {
            assert(self.domain_entries() =~= pre_domains.push((key, meta_spec)));
            lemma_assoc_distinct_push(pre_domains, key, meta_spec);
            assert forall|i: int|
                0 <= i < self.domains@.len() implies (#[trigger] self.domains@[i]).0.wf() by {
                if i < pre.domains@.len() {
                    assert(self.domains@[i] == pre.domains@[i]);
                }
            }
        }
        let ghost pre_owner = self.domains_by_owner@;
        match owner_slot {
            Option::Some(i) => {
                let list = &self.domains_by_owner[i].1;
                let mut new_list: Vec<DomainName> = Vec::new();
                let mut k: usize = 0;
                while k < list.len()
                    invariant
                        k <= list@.len(),
                        new_list@.len() == k,
                        forall|t: int| 0 <= t < k ==> (#[trigger] new_list@[t])@ == list@[t]@,
                    decreases list@.len() - k,
                {
                    new_list.push(list[k].duplicate());
                    k = k + 1;
                }
                new_list.push(owner_name);
                proof {
                    lemma_find_assoc_update(pre_owner, i as int, rec, new_list, rec);
                    lemma_assoc_distinct_update(pre_owner, i as int, rec, new_list);
                }
                self.domains_by_owner.set(i, (rec, new_list));
                proof {
                    assert forall|o: AccountId|
                        o != rec implies #[trigger] find_assoc(self.domains_by_owner@, o)
                        == find_assoc(pre_owner, o) by {
                        lemma_find_assoc_update(pre_owner, i as int, rec, self.domains_by_owner@[
                            i as int].1, o);
                    }
                }
            },
            Option::None => {
                let mut new_list: Vec<DomainName> = Vec::new();
                new_list.push(owner_name);
                proof {
                    lemma_find_assoc_push(pre_owner, rec, new_list, rec);
                    lemma_assoc_distinct_push(pre_owner, rec, new_list);
                }
                self.domains_by_owner.push((rec, new_list));
                proof {
                    assert(self.domains_by_owner@ =~= pre_owner.push(
                        (rec, self.domains_by_owner@.last().1),
                    ));
                    assert forall|o: AccountId|
                        o != rec implies #[trigger] find_assoc(self.domains_by_owner@, o)
                        == find_assoc(pre_owner, o) by {
                        lemma_find_assoc_push(pre_owner, rec, self.domains_by_owner@.last().1, o);
                    }
                }
            },
        }
        proof {
            assert(self.owner_domain_views(rec) =~= pre.owner_domain_views(rec).push(key));
            assert forall|o: AccountId|
                o != rec implies #[trigger] self.owner_domain_views(o) == pre.owner_domain_views(
                o,
            ) by {
                assert(find_assoc(self.domains_by_owner@, o) == find_assoc(pre_owner, o));
            }
        }
        self.domains_inserted = self.domains_inserted + 1;
        self.events.push(Event::DomainRegistered { who: who, recipient: rec, domain: full_domain });
        Result::Ok(())
    }
}

impl Registry {
    /// The bytes of the domain an (owner, inner value) pair points at.
    pub open spec fn ivi_view(self, account: AccountId, value: InnerValue) -> Option<Seq<u8>> {
        match self.ivi_lookup(account, value) {
            Option::Some(d) => Option::Some(d@),
            Option::None => Option::None,
        }
    }

    /// The shared ownership check of the metadata operations: the origin
    /// must be signed, the domain registered, and the signer its owner.
    pub open spec fn owned_domain_err(self, origin: Origin, domain: DomainName) -> Option<Error> {
        let who = origin.signer();
        let key = lower_bytes(domain@);
        if !origin.is_signed() {
            Option::Some(Error::BadOrigin)
        } else {
            match self.lookup_domain(key) {
                Option::None => Option::Some(Error::DomainNotFound),
                Option::Some(m) => if who != m.owner {
                    Option::Some(Error::NotDomainOwner)
                } else {
                    Option::None
                },
            }
        }
    }

    /// Where `set_inner_value` fails: ownership first, then the no-change
    /// rejection.
    pub open spec fn set_inner_value_err(
        self,
        origin: Origin,
        domain: DomainName,
        value: Option<InnerValue>,
    ) -> Option<Error> {
        let key = lower_bytes(domain@);
        if self.owned_domain_err(origin, domain) is Some {
            self.owned_domain_err(origin, domain)
        } else if value == self.lookup_domain(key).unwrap().inner_value {
            Option::Some(Error::InnerValueNotChanged)
        } else {
            Option::None
        }
    }

    /// Where `force_set_inner_value` fails: it demands the administrative
    /// origin and skips the ownership check.
    pub open spec fn force_set_inner_value_err(
        self,
        origin: Origin,
        domain: DomainName,
        value: Option<InnerValue>,
    ) -> Option<Error> {
        let key = lower_bytes(domain@);
        if !(origin is Root) {
            Option::Some(Error::BadOrigin)
        } else {
            match self.lookup_domain(key) {
                Option::None => Option::Some(Error::DomainNotFound),
                Option::Some(m) => if value == m.inner_value {
                    Option::Some(Error::InnerValueNotChanged)
                } else {
                    Option::None
                },
            }
        }
    }
}

/// What a successful inner-value change does: the record's `inner_value` and
/// `updated` stamp change and nothing else in it; the inner-value index drops
/// the old pair, gains the new one, and keeps every other pair; a
/// `DomainMetaUpdated` event is emitted; everything else stands still.
pub open spec fn set_inner_value_post(
    pre: Registry,
    post: Registry,
    who: AccountId,
    key: Seq<u8>,
    value: Option<InnerValue>,
) -> bool {
    let m = pre.lookup_domain(key).unwrap();
    let m2 = DomainMeta {
        inner_value: value,
        updated: Option::Some(
            WhoAndWhen { account: who, block: pre.block_number, time: pre.current_time },
        ),
        ..m
    };
    &&& post.lookup_domain(key) == Option::Some(m2)
    &&& forall|k: Seq<u8>| k != key ==> #[trigger] post.lookup_domain(k) == pre.lookup_domain(k)
    &&& post.domains@.len() == pre.domains@.len()
    &&& forall|a: AccountId, v: InnerValue|
        #[trigger] post.ivi_view(a, v) == (if a == who && Option::Some(v) == value {
            Option::Some(key)
        } else if a == who && Option::Some(v) == m.inner_value {
            Option::<Seq<u8>>::None
        } else {
            pre.ivi_view(a, v)
        })
    &&& post.events@.len() == pre.events@.len() + 1
    &&& post.events@.drop_last() == pre.events@
    &&& is_meta_updated_event(post.events@.last(), who, key)
    &&& post.domains_by_owner == pre.domains_by_owner
    &&& post.reserved_words == pre.reserved_words
    &&& post.supported_tlds == pre.supported_tlds
    &&& post.prices_config == pre.prices_config
    &&& post.ledger == pre.ledger
    &&& post.domains_inserted == pre.domains_inserted
    &&& post.payment_beneficiary == pre.payment_beneficiary
    &&& post.block_number == pre.block_number
    &&& post.current_time == pre.current_time
    &&& post.min_domain_length == pre.min_domain_length
    &&& post.max_domains_per_account == pre.max_domains_per_account
    &&& post.reservation_period_limit == pre.reservation_period_limit
    &&& post.base_domain_deposit == pre.base_domain_deposit
    &&& post.outer_value_byte_deposit == pre.outer_value_byte_deposit
}

impl Registry {
    /// Rewrites the record at `idx` with the new inner value and keeps the
    /// inner-value index exactly synchronised with it.
    fn apply_inner_value(
        &mut self,
        idx: usize,
        who: AccountId,
        domain_lc: DomainName,
        value: Option<InnerValue>,
    )
        requires
            old(self).wf(),
            idx < old(self).domains@.len(),
            old(self).domains@[idx as int].0@ == domain_lc@,
            domain_lc.wf(),
        ensures
            final(self).wf(),
            set_inner_value_post(*old(self), *final(self), who, domain_lc@, value),
    {
        let ghost key = domain_lc@;
        let ghost pre = *self;
        proof {
            lemma_find_assoc_at(self.domain_entries(), idx as int);
        }
        let old_value = self.domains[idx].1.inner_value;
        let (name, meta_old) = self.domains.remove(idx);
        let meta_new = DomainMeta {
            inner_value: value,
            updated: Option::Some(
                WhoAndWhen { account: who, block: self.block_number, time: self.current_time },
            ),
            ..meta_old
        };
        let ghost meta_spec = meta_new;
        self.domains.insert(idx, (name, meta_new));
        proof {
            assert(self.domains@ =~= pre.domains@.update(
                idx as int,
                (pre.domains@[idx as int].0, meta_spec),
            ));
            assert(self.domain_entries() =~= pre.domain_entries().update(
                idx as int,
                (key, meta_spec),
            ));
            lemma_assoc_distinct_update(pre.domain_entries(), idx as int, key, meta_spec);
            assert forall|i: int|
                0 <= i < self.domains@.len() implies (#[trigger] self.domains@[i]).0.wf() by {
                assert(self.domains@[i].0 == pre.domains@[i].0);
            }
        }
        let ghost ivi1 = self.domain_by_inner_value@;
        match old_value {
            Option::Some(ov) => {
                match self.find_ivi_index(who, ov) {
                    Option::Some(j) => {
                        proof {
                            lemma_assoc_distinct_remove(ivi1, j as int);
                        }
                        self.domain_by_inner_value.remove(j);
                        proof {
                            assert forall|a: AccountId, v: InnerValue| true implies #[trigger]
                                find_assoc(self.domain_by_inner_value@, (a, v)) == (if (a, v) == (
                                who,
                                ov,
                            ) {
                                Option::<DomainName>::None
                            } else {
                                find_assoc(ivi1, (a, v))
                            }) by {
                                lemma_find_assoc_remove(ivi1, j as int, (a, v));
                            }
                        }
                    },
                    Option::None => {
                        proof {
                            assert forall|a: AccountId, v: InnerValue| true implies #[trigger]
                                find_assoc(self.domain_by_inner_value@, (a, v)) == (if (a, v) == (
                                who,
                                ov,
                            ) {
                                Option::<DomainName>::None
                            } else {
                                find_assoc(ivi1, (a, v))
                            }) by {
                                if (a, v) == (who, ov) {
                                }
                            }
                        }
                    },
                }
            },
            Option::None => {},
        }
        let ghost ivi2 = self.domain_by_inner_value@;
        match value {
            Option::Some(nv) => {
                let entry_name = domain_lc.duplicate();
                let ghost entry_spec = entry_name;
                match self.find_ivi_index(who, nv) {
                    Option::Some(j) => {
                        proof {
                            lemma_assoc_distinct_update(ivi2, j as int, (who, nv), entry_spec);
                        }
                        self.domain_by_inner_value.set(j, ((who, nv), entry_name));
                        proof {
                            assert forall|a: AccountId, v: InnerValue| true implies #[trigger]
                                find_assoc(self.domain_by_inner_value@, (a, v)) == (if (a, v) == (
                                who,
                                nv,
                            ) {
                                Option::Some(entry_spec)
                            } else {
                                find_assoc(ivi2, (a, v))
                            }) by {
                                lemma_find_assoc_update(ivi2, j as int, (who, nv), entry_spec, (
                                a,
                                v,
                                ));
                            }
                        }
                    },
                    Option::None => {
                        proof {
                            lemma_assoc_distinct_push(ivi2, (who, nv), entry_spec);
                        }
                        self.domain_by_inner_value.push(((who, nv), entry_name));
                        proof {
                            assert forall|a: AccountId, v: InnerValue| true implies #[trigger]
                                find_assoc(self.domain_by_inner_value@, (a, v)) == (if (a, v) == (
                                who,
                                nv,
                            ) {
                                Option::Some(entry_spec)
                            } else {
                                find_assoc(ivi2, (a, v))
                            }) by {
                                lemma_find_assoc_push(ivi2, (who, nv), entry_spec, (a, v));
                            }
                        }
                    },
                }
            },
            Option::None => {},
        }
        self.events.push(Event::DomainMetaUpdated { who: who, domain: domain_lc });
        proof {
            assert(self.events@.drop_last() =~= pre.events@);
            assert(self.domain_entries() =~= pre.domain_entries().update(
                idx as int,
                (key, meta_spec),
            ));
            assert forall|k: Seq<u8>| true implies #[trigger] self.lookup_domain(k) == (if k
                == key {
                Option::Some(meta_spec)
            } else {
                pre.lookup_domain(k)
            }) by {
                lemma_find_assoc_update(pre.domain_entries(), idx as int, key, meta_spec, k);
            }
        }
    }

    /// Points a domain at a new inner value (or clears it), keeping the
    /// inner-value index in step. Only the owner may do this, and the value
    /// must actually change.
    pub fn set_inner_value(
        &mut self,
        origin: Origin,
        domain: DomainName,
        value: Option<InnerValue>,
    ) -> (r: Result<(), Error>)
        requires
            old(self).wf(),
            domain.wf(),
        ensures
            final(self).wf(),
            (match r {
                Result::Ok(()) => {
                    &&& old(self).set_inner_value_err(origin, domain, value) is None
                    &&& set_inner_value_post(
                        *old(self),
                        *final(self),
                        origin.signer(),
                        lower_bytes(domain@),
                        value,
                    )
                },
                Result::Err(e) => {
                    &&& old(self).set_inner_value_err(origin, domain, value) == Option::Some(e)
                    &&& *final(self) == *old(self)
                },
            }),
    {
        let who = match origin {
            Origin::Signed(a) => a,
            _ => {
                return Result::Err(Error::BadOrigin);
            },
        };
        let domain_lc = lower_domain_then_bound(&domain);
        let idx = match self.find_domain_index(&domain_lc.bytes) {
            Option::Some(i) => i,
            Option::None => {
                return Result::Err(Error::DomainNotFound);
            },
        };
        if who != self.domains[idx].1.owner {
            return Result::Err(Error::NotDomainOwner);
        }
        let old_value = self.domains[idx].1.inner_value;
        let same = match (value, old_value) {
            (Option::None, Option::None) => true,
            (Option::Some(a), Option::Some(b)) => a == b,
            _ => false,
        };
        if same {
            return Result::Err(Error::InnerValueNotChanged);
        }
        self.apply_inner_value(idx, who, domain_lc, value);
        Result::Ok(())
    }

    /// The administrative form of [`Registry::set_inner_value`]: requires
    /// the root origin, skips the ownership check, and stamps the change
    /// with the domain's owner.
    pub fn force_set_inner_value(
        &mut self,
        origin: Origin,
        domain: DomainName,
        value: Option<InnerValue>,
    ) -> (r: Result<(), Error>)
        requires
            old(self).wf(),
            domain.wf(),
        ensures
            final(self).wf(),
            (match r {
                Result::Ok(()) => {
                    &&& old(self).force_set_inner_value_err(origin, domain, value) is None
                    &&& set_inner_value_post(
                        *old(self),
                        *final(self),
                        old(self).lookup_domain(lower_bytes(domain@)).unwrap().owner,
                        lower_bytes(domain@),
                        value,
                    )
                },
                Result::Err(e) => {
                    &&& old(self).force_set_inner_value_err(origin, domain, value)
                        == Option::Some(e)
                    &&& *final(self) == *old(self)
                },
            }),
    {
        if !matches!(origin, Origin::Root) {
            return Result::Err(Error::BadOrigin);
        }
        let domain_lc = lower_domain_then_bound(&domain);
        let idx = match self.find_domain_index(&domain_lc.bytes) {
            Option::Some(i) => i,
            Option::None => {
                return Result::Err(Error::DomainNotFound);
            },
        };
        let owner = self.domains[idx].1.owner;
        let old_value = self.domains[idx].1.inner_value;
        let same = match (value, old_value) {
            (Option::None, Option::None) => true,
            (Option::Some(a), Option::Some(b)) => a == b,
            _ => false,
        };
        if same {
            return Result::Err(Error::InnerValueNotChanged);
        }
        self.apply_inner_value(idx, owner, domain_lc, value);
        Result::Ok(())
    }
}

/// The byte length of an optional outer value.
pub open spec fn outer_len_of(value: Option<Vec<u8>>) -> int {
    match value {
        Option::Some(v) => v@.len() as int,
        Option::None => 0,
    }
}

/// The deposit an outer value of this length carries: its byte length times
/// the configured per-byte rate, stopping at the largest representable value.
pub fn outer_deposit_of(value: &Option<Vec<u8>>, rate: u64) -> (r: u64)
    ensures
        r == sat_mul_u64(outer_len_of(*value) as u64, rate),
{
    let v = match value {
        Option::Some(v) => v,
        Option::None => {
            proof {
                assert(0 * rate == 0) by (nonlinear_arith);
            }
            return 0;
        },
    };
    let len_word: u64 = v.len() as u64;
    proof {
        assert(outer_len_of(*value) == v@.len() as int);
    }
    match len_word.checked_mul(rate) {
        Option::Some(d) => d,
        Option::None => u64::MAX,
    }
}

/// What a successful content change does: the record's `content` and
/// `updated` stamp change and nothing else anywhere.
pub open spec fn set_domain_content_post(
    pre: Registry,
    post: Registry,
    who: AccountId,
    key: Seq<u8>,
    content: Content,
) -> bool {
    let m = pre.lookup_domain(key).unwrap();
    let m2 = DomainMeta {
        content: content,
        updated: Option::Some(
            WhoAndWhen { account: who, block: pre.block_number, time: pre.current_time },
        ),
        ..m
    };
    &&& post.lookup_domain(key) == Option::Some(m2)
    &&& forall|k: Seq<u8>| k != key ==> #[trigger] post.lookup_domain(k) == pre.lookup_domain(k)
    &&& post.domains@.len() == pre.domains@.len()
    &&& post.events@.len() == pre.events@.len() + 1
    &&& post.events@.drop_last() == pre.events@
    &&& is_meta_updated_event(post.events@.last(), who, key)
    &&& post.domains_by_owner == pre.domains_by_owner
    &&& post.domain_by_inner_value == pre.domain_by_inner_value
    &&& post.reserved_words == pre.reserved_words
    &&& post.supported_tlds == pre.supported_tlds
    &&& post.prices_config == pre.prices_config
    &&& post.ledger == pre.ledger
    &&& post.domains_inserted == pre.domains_inserted
    &&& post.payment_beneficiary == pre.payment_beneficiary
    &&& post.block_number == pre.block_number
    &&& post.current_time == pre.current_time
    &&& post.min_domain_length == pre.min_domain_length
    &&& post.max_domains_per_account == pre.max_domains_per_account
    &&& post.reservation_period_limit == pre.reservation_period_limit
    &&& post.base_domain_deposit == pre.base_domain_deposit
    &&& post.outer_value_byte_deposit == pre.outer_value_byte_deposit
}

/// What a successful outer-value change does: the record's `outer_value`,
/// its deposit (the byte length times the configured rate) and the `updated`
/// stamp change; the reserved balance moves by exactly the deposit delta;
/// nothing else anywhere.
pub open spec fn set_outer_value_post(
    pre: Registry,
    post: Registry,
    who: AccountId,
    key: Seq<u8>,
    value: Option<Vec<u8>>,
) -> bool {
    let m = pre.lookup_domain(key).unwrap();
    let new_dep = sat_mul_u64(outer_len_of(value) as u64, pre.outer_value_byte_deposit);
    let old_dep = m.outer_value_deposit;
    let m2 = DomainMeta {
        outer_value: value,
        outer_value_deposit: new_dep,
        updated: Option::Some(
            WhoAndWhen { account: who, block: pre.block_number, time: pre.current_time },
        ),
        ..m
    };
    &&& post.lookup_domain(key) == Option::Some(m2)
    &&& forall|k: Seq<u8>| k != key ==> #[trigger] post.lookup_domain(k) == pre.lookup_domain(k)
    &&& post.domains@.len() == pre.domains@.len()
    &&& if new_dep > old_dep {
        post.ledger.account_of(who) == (AccountData {
            free: (pre.ledger.free_of(who) - (new_dep - old_dep)) as u64,
            reserved: (pre.ledger.reserved_of(who) + (new_dep - old_dep)) as u64,
            locked: pre.ledger.locked_of(who),
        })
    } else {
        post.ledger.account_of(who) == (AccountData {
            free: sat_add_u64(
                pre.ledger.free_of(who),
                min_bal(old_dep - new_dep, pre.ledger.reserved_of(who) as int) as u64,
            ),
            reserved: (pre.ledger.reserved_of(who) - min_bal(
                old_dep - new_dep,
                pre.ledger.reserved_of(who) as int,
            )) as u64,
            locked: pre.ledger.locked_of(who),
        })
    }
    &&& forall|b: AccountId| b != who ==> post.ledger.account_of(b) == pre.ledger.account_of(b)
    &&& post.events@.len() == pre.events@.len() + 1
    &&& post.events@.drop_last() == pre.events@
    &&& is_meta_updated_event(post.events@.last(), who, key)
    &&& post.domains_by_owner == pre.domains_by_owner
    &&& post.domain_by_inner_value == pre.domain_by_inner_value
    &&& post.reserved_words == pre.reserved_words
    &&& post.supported_tlds == pre.supported_tlds
    &&& post.prices_config == pre.prices_config
    &&& post.domains_inserted == pre.domains_inserted
    &&& post.payment_beneficiary == pre.payment_beneficiary
    &&& post.block_number == pre.block_number
    &&& post.current_time == pre.current_time
    &&& post.min_domain_length == pre.min_domain_length
    &&& post.max_domains_per_account == pre.max_domains_per_account
    &&& post.reservation_period_limit == pre.reservation_period_limit
    &&& post.base_domain_deposit == pre.base_domain_deposit
    &&& post.outer_value_byte_deposit == pre.outer_value_byte_deposit
}

impl Registry {
    /// Where `set_domain_content` fails: ownership first, then the
    /// no-change rejection, then the content validity rule.
    pub open spec fn set_domain_content_err(
        self,
        origin: Origin,
        domain: DomainName,
        content: Content,
    ) -> Option<Error> {
        let key = lower_bytes(domain@);
        if self.owned_domain_err(origin, domain) is Some {
            self.owned_domain_err(origin, domain)
        } else if content.eq_spec(self.lookup_domain(key).unwrap().content) {
            Option::Some(Error::DomainContentNotChanged)
        } else if !content.is_valid() {
            Option::Some(Error::InvalidIpfsCid)
        } else {
            Option::None
        }
    }

    /// Where `set_outer_value` fails: ownership, the no-change rejection,
    /// then the ledger's ability to reserve a grown deposit.
    pub open spec fn set_outer_value_err(
        self,
        origin: Origin,
        domain: DomainName,
        value: Option<Vec<u8>>,
    ) -> Option<Error> {
        let key = lower_bytes(domain@);
        if self.owned_domain_err(origin, domain) is Some {
            self.owned_domain_err(origin, domain)
        } else {
            let m = self.lookup_domain(key).unwrap();
            if outer_value_eq(value, m.outer_value) {
                Option::Some(Error::OuterValueNotChanged)
            } else {
                let who = origin.signer();
                let new_dep = sat_mul_u64(
                    outer_len_of(value) as u64,
                    self.outer_value_byte_deposit,
                );
                if new_dep > m.outer_value_deposit && !self.ledger.can_reserve(
                    who,
                    new_dep - m.outer_value_deposit,
                ) {
                    Option::Some(Error::InsufficientBalance)
                } else {
                    Option::None
                }
            }
        }
    }

    /// Replaces a domain's content. Only the owner may do this; the new
    /// content must differ from the stored one and be valid.
    pub fn set_domain_content(
        &mut self,
        origin: Origin,
        domain: DomainName,
        content: Content,
    ) -> (r: Result<(), Error>)
        requires
            old(self).wf(),
            domain.wf(),
        ensures
            final(self).wf(),
            (match r {
                Result::Ok(()) => {
                    &&& old(self).set_domain_content_err(origin, domain, content) is None
                    &&& set_domain_content_post(
                        *old(self),
                        *final(self),
                        origin.signer(),
                        lower_bytes(domain@),
                        content,
                    )
                },
                Result::Err(e) => {
                    &&& old(self).set_domain_content_err(origin, domain, content)
                        == Option::Some(e)
                    &&& *final(self) == *old(self)
                },
            }),
    {
        let who = match origin {
            Origin::Signed(a) => a,
            _ => {
                return Result::Err(Error::BadOrigin);
            },
        };
        let domain_lc = lower_domain_then_bound(&domain);
        let ghost key = domain_lc@;
        let idx = match self.find_domain_index(&domain_lc.bytes) {
            Option::Some(i) => i,
            Option::None => {
                return Result::Err(Error::DomainNotFound);
            },
        };
        if who != self.domains[idx].1.owner {
            return Result::Err(Error::NotDomainOwner);
        }
        if content.eq_content(&self.domains[idx].1.content) {
            return Result::Err(Error::DomainContentNotChanged);
        }
        if !content.check_valid() {
            return Result::Err(Error::InvalidIpfsCid);
        }
        let ghost pre = *self;
        proof {
            lemma_find_assoc_at(self.domain_entries(), idx as int);
        }
        let (name, meta_old) = self.domains.remove(idx);
        let meta_new = DomainMeta {
            content: content,
            updated: Option::Some(
                WhoAndWhen { account: who, block: self.block_number, time: self.current_time },
            ),
            ..meta_old
        };
        let ghost meta_spec = meta_new;
        self.domains.insert(idx, (name, meta_new));
        proof {
            assert(self.domains@ =~= pre.domains@.update(
                idx as int,
                (pre.domains@[idx as int].0, meta_spec),
            ));
            lemma_assoc_distinct_update(pre.domain_entries(), idx as int, key, meta_spec);
            assert forall|i: int|
                0 <= i < self.domains@.len() implies (#[trigger] self.domains@[i]).0.wf() by {
                assert(self.domains@[i].0 == pre.domains@[i].0);
            }
        }
        self.events.push(Event::DomainMetaUpdated { who: who, domain: domain_lc });
        proof {
            assert(self.events@.drop_last() =~= pre.events@);
            assert(self.domain_entries() =~= pre.domain_entries().update(
                idx as int,
                (key, meta_spec),
            ));
            assert forall|k: Seq<u8>| true implies #[trigger] self.lookup_domain(k) == (if k
                == key {
                Option::Some(meta_spec)
            } else {
                pre.lookup_domain(k)
            }) by {
                lemma_find_assoc_update(pre.domain_entries(), idx as int, key, meta_spec, k);
            }
        }
        Result::Ok(())
    }

    /// Replaces a domain's outer value, adjusting the reserved deposit to
    /// the new byte length times the configured rate: a grown deposit is
    /// reserved in addition, a shrunk one released.
    pub fn set_outer_value(
        &mut self,
        origin: Origin,
        domain: DomainName,
        value: Option<Vec<u8>>,
    ) -> (r: Result<(), Error>)
        requires
            old(self).wf(),
            domain.wf(),
            (match value {
                Option::Some(v) => v@.len() <= MAX_OUTER_VALUE_LENGTH,
                Option::None => true,
            }),
        ensures
            final(self).wf(),
            (match r {
                Result::Ok(()) => {
                    &&& old(self).set_outer_value_err(origin, domain, value) is None
                    &&& set_outer_value_post(
                        *old(self),
                        *final(self),
                        origin.signer(),
                        lower_bytes(domain@),
                        value,
                    )
                },
                Result::Err(e) => {
                    &&& old(self).set_outer_value_err(origin, domain, value) == Option::Some(e)
                    &&& *final(self) == *old(self)
                },
            }),
    {
        let who = match origin {
            Origin::Signed(a) => a,
            _ => {
                return Result::Err(Error::BadOrigin);
            },
        };
        let domain_lc = lower_domain_then_bound(&domain);
        let ghost key = domain_lc@;
        let idx = match self.find_domain_index(&domain_lc.bytes) {
            Option::Some(i) => i,
            Option::None => {
                return Result::Err(Error::DomainNotFound);
            },
        };
        if who != self.domains[idx].1.owner {
            return Result::Err(Error::NotDomainOwner);
        }
        if outer_value_eq_exec(&value, &self.domains[idx].1.outer_value) {
            return Result::Err(Error::OuterValueNotChanged);
        }
        let rate = self.outer_value_byte_deposit;
        let new_dep = outer_deposit_of(&value, rate);
        let old_dep = self.domains[idx].1.outer_value_deposit;
        let ghost pre = *self;
        proof {
            lemma_find_assoc_at(self.domain_entries(), idx as int);
        }
        if new_dep > old_dep {
            match self.ledger.reserve(who, new_dep - old_dep) {
                Result::Ok(()) => {},
                Result::Err(_) => {
                    return Result::Err(Error::InsufficientBalance);
                },
            }
        } else {
            self.ledger.unreserve(who, old_dep - new_dep);
        }
        let (name, meta_old) = self.domains.remove(idx);
        let meta_new = DomainMeta {
            outer_value: value,
            outer_value_deposit: new_dep,
            updated: Option::Some(
                WhoAndWhen { account: who, block: self.block_number, time: self.current_time },
            ),
            ..meta_old
        };
        let ghost meta_spec = meta_new;
        self.domains.insert(idx, (name, meta_new));
        proof {
            assert(self.domains@ =~= pre.domains@.update(
                idx as int,
                (pre.domains@[idx as int].0, meta_spec),
            ));
            lemma_assoc_distinct_update(pre.domain_entries(), idx as int, key, meta_spec);
            assert forall|i: int|
                0 <= i < self.domains@.len() implies (#[trigger] self.domains@[i]).0.wf() by {
                assert(self.domains@[i].0 == pre.domains@[i].0);
            }
        }
        self.events.push(Event::DomainMetaUpdated { who: who, domain: domain_lc });
        proof {
            assert(self.events@.drop_last() =~= pre.events@);
            assert(self.domain_entries() =~= pre.domain_entries().update(
                idx as int,
                (key, meta_spec),
            ));
            assert forall|k: Seq<u8>| true implies #[trigger] self.lookup_domain(k) == (if k
                == key {
                Option::Some(meta_spec)
            } else {
                pre.lookup_domain(k)
            }) by {
                lemma_find_assoc_update(pre.domain_entries(), idx as int, key, meta_spec, k);
            }
        }
        Result::Ok(())
    }
}

/// Two states with the same stored sets agree on membership.
pub proof fn lemma_sets_preserved(a: Registry, b: Registry)
    requires
        b.supported_tlds == a.supported_tlds,
        b.reserved_words == a.reserved_words,
    ensures
        forall|w: Seq<u8>| #[trigger] b.tld_supported(w) == a.tld_supported(w),
        forall|w: Seq<u8>| #[trigger] b.word_reserved(w) == a.word_reserved(w),
{
    assert forall|w: Seq<u8>| #[trigger] b.tld_supported(w) == a.tld_supported(w) by {
        if b.tld_supported(w) {
            let cur = b.supported_tlds@;
            let wi = choose|wi: int| 0 <= wi < cur.len() && (#[trigger] cur[wi])@ == w;
            assert(a.supported_tlds@[wi]@ == w);
        }
        if a.tld_supported(w) {
            let cur = a.supported_tlds@;
            let wi = choose|wi: int| 0 <= wi < cur.len() && (#[trigger] cur[wi])@ == w;
            assert(b.supported_tlds@[wi]@ == w);
        }
    }
    assert forall|w: Seq<u8>| #[trigger] b.word_reserved(w) == a.word_reserved(w) by {
        if b.word_reserved(w) {
            let cur = b.reserved_words@;
            let wi = choose|wi: int| 0 <= wi < cur.len() && (#[trigger] cur[wi])@ == w;
            assert(a.reserved_words@[wi]@ == w);
        }
        if a.word_reserved(w) {
            let cur = a.reserved_words@;
            let wi = choose|wi: int| 0 <= wi < cur.len() && (#[trigger] cur[wi])@ == w;
            assert(b.reserved_words@[wi]@ == w);
        }
    }
}

impl Registry {
    /// The owner index is exactly synchronised with the records: a name
    /// stands in an account's list only if its record names that account as
    /// owner, and every registered name stands in its owner's list.
    pub open spec fn owner_index_consistent(self) -> bool {
        &&& forall|o: AccountId, j: int|
            0 <= j < self.owner_domain_views(o).len() ==> (match self.lookup_domain(
                #[trigger] self.owner_domain_views(o)[j],
            ) {
                Option::Some(m) => m.owner == o,
                Option::None => false,
            })
        &&& forall|k: Seq<u8>|
            match #[trigger] self.lookup_domain(k) {
                Option::Some(m) => self.owner_domain_views(m.owner).contains(k),
                Option::None => true,
            }
    }
}

impl Registry {
    /// Every inner-value index entry points at a live record that names
    /// exactly that owner and inner value.
    pub open spec fn inner_value_index_consistent(self) -> bool {
        forall|a: AccountId, v: InnerValue|
            match #[trigger] self.ivi_view(a, v) {
                Option::Some(k) => match self.lookup_domain(k) {
                    Option::Some(m) => m.owner == a && m.inner_value == Option::Some(v),
                    Option::None => false,
                },
                Option::None => true,
            }
    }
}

} // verus!
