//! A configuration builder and small helpers for setting up and inspecting
//! a registry, mirroring the accounts and names the tests work with.
use vstd::prelude::*;

use crate::domain::DOT;
use crate::domain::DomainName;
use crate::domain::MAX_DOMAIN_LENGTH;
use crate::domain::bound_domain;
use crate::domain::lower_bytes;
use crate::domain::lower_domain_then_bound;
use crate::domain::lemma_split_no_dot;
use crate::domain::lemma_split_prepend;
use crate::domain::split_domain_by_dot;
use crate::domain::split_dot;
use crate::domain::word_chars_valid;
use crate::ledger::AccountData;
use crate::pricing::price_for;
use crate::registry::Registry;
use crate::registry::lemma_sets_preserved;
use crate::types::AccountId;
use crate::types::Balance;
use crate::types::BlockNumber;
use crate::types::Content;
use crate::types::DomainDeposit;
use crate::types::InnerValue;
use crate::types::Origin;
use crate::types::outer_value_eq;

verus! {

pub const DOMAIN_REGISTRAR: AccountId = 0;

pub const DOMAIN_OWNER: AccountId = 1;

pub const DUMMY_ACCOUNT: AccountId = 2;

pub const PAYMENT_BENEFICIARY: AccountId = 3;

pub const ACCOUNT_A: AccountId = 10;

pub const ACCOUNT_B: AccountId = 20;

pub const DEFAULT_DOMAIN_DEPOSIT: Balance = 10;

pub fn origin_a() -> (r: Origin)
    ensures
        r == Origin::Signed(ACCOUNT_A),
{
    Origin::Signed(ACCOUNT_A)
}

pub fn origin_b() -> (r: Origin)
    ensures
        r == Origin::Signed(ACCOUNT_B),
{
    Origin::Signed(ACCOUNT_B)
}

pub fn domain_registrar_origin() -> (r: Option<Origin>)
    ensures
        r == Option::Some(Origin::Signed(DOMAIN_REGISTRAR)),
{
    Option::Some(Origin::Signed(DOMAIN_REGISTRAR))
}

/// The bytes of the default top-level domain, `sub`.
pub open spec fn default_tld_bytes() -> Seq<u8> {
    seq![115u8, 117u8, 98u8]
}

/// The default name: the longest registrable one, all uppercase, under the
/// default TLD.
pub open spec fn default_domain_bytes() -> Seq<u8> {
    Seq::new(59, |i: int| 65u8) + seq![DOT] + default_tld_bytes()
}

/// Its canonical (lowercased) form.
pub open spec fn default_domain_lc_bytes() -> Seq<u8> {
    Seq::new(59, |i: int| 97u8) + seq![DOT] + default_tld_bytes()
}

/// The default TLD's bytes satisfy the label character rules.
pub proof fn lemma_default_tld_valid()
    ensures
        word_chars_valid(default_tld_bytes()),
{
    let s = default_tld_bytes();
    assert(s[0] == 115u8 && s[1] == 117u8 && s[2] == 98u8);
    assert forall|i: int| 0 <= i < s.len() implies crate::domain::valid_domain_char(
        #[trigger] s[i],
    ) by {
        if i == 0 {
        } else if i == 1 {
        } else {
            assert(i == 2);
        }
    }
}

/// Lowercasing the default name lowercases exactly its `A` run.
pub proof fn lemma_default_domain_lc()
    ensures
        lower_bytes(default_domain_bytes()) == default_domain_lc_bytes(),
{
    let a = default_domain_bytes();
    let b = default_domain_lc_bytes();
    assert forall|i: int| 0 <= i < a.len() implies lower_bytes(a)[i] == b[i] by {
        assert(lower_bytes(a)[i] == crate::domain::lower_byte(a[i]));
        if i < 59 {
            assert(a[i] == 65u8 && b[i] == 97u8);
        } else if i == 59 {
            assert(a[i] == DOT && b[i] == DOT);
        } else {
            assert(a[i] == default_tld_bytes()[i - 60]);
            assert(b[i] == default_tld_bytes()[i - 60]);
            assert(a[i] == 115u8 || a[i] == 117u8 || a[i] == 98u8);
        }
    }
    assert(lower_bytes(a) =~= b);
}

pub fn default_tld() -> (r: DomainName)
    ensures
        r@ == default_tld_bytes(),
        r.wf(),
{
    let mut v: Vec<u8> = Vec::new();
    v.push(115);
    v.push(117);
    v.push(98);
    proof {
        assert(v@ =~= default_tld_bytes());
    }
    bound_domain(v)
}

pub fn default_domain() -> (r: DomainName)
    ensures
        r@ == default_domain_bytes(),
        r.wf(),
{
    let mut v: Vec<u8> = Vec::new();
    let mut i: usize = 0;
    while i < 59
        invariant
            i <= 59,
            v@.len() == i,
            forall|k: int| 0 <= k < i ==> v@[k] == 65u8,
        decreases 59 - i,
    {
        v.push(65);
        i = i + 1;
    }
    v.push(DOT);
    v.push(115);
    v.push(117);
    v.push(98);
    proof {
        assert(v@ =~= default_domain_bytes());
    }
    bound_domain(v)
}

pub fn default_domain_lc() -> (r: DomainName)
    ensures
        r@ == default_domain_lc_bytes(),
        r.wf(),
{
    let d = default_domain();
    let r = lower_domain_then_bound(&d);
    proof {
        lemma_default_domain_lc();
    }
    r
}

/// Joins a subdomain with the default TLD: `subdomain.sub`.
pub fn bound_domain_with_default_tld(subdomain: Vec<u8>) -> (r: DomainName)
    requires
        subdomain@.len() + 4 <= MAX_DOMAIN_LENGTH,
    ensures
        r@ == subdomain@ + seq![DOT] + default_tld_bytes(),
        r.wf(),
{
    let ghost sub = subdomain@;
    let mut v = subdomain;
    v.push(DOT);
    v.push(115);
    v.push(117);
    v.push(98);
    proof {
        assert(v@ =~= sub + seq![DOT] + default_tld_bytes());
    }
    bound_domain(v)
}

/// Joins a subdomain with a custom TLD: `subdomain.tld`.
pub fn bound_domain_with_custom_tld(subdomain: Vec<u8>, tld: Vec<u8>) -> (r: DomainName)
    requires
        subdomain@.len() + 1 + tld@.len() <= MAX_DOMAIN_LENGTH,
    ensures
        r@ == subdomain@ + seq![DOT] + tld@,
        r.wf(),
{
    let ghost sub = subdomain@;
    let ghost tl = tld@;
    let mut v = subdomain;
    let mut t = tld;
    v.push(DOT);
    v.append(&mut t);
    proof {
        assert(v@ =~= sub + seq![DOT] + tl);
    }
    bound_domain(v)
}

/// Splits a raw byte string as a bounded name.
pub fn split_domain_from(string: &[u8]) -> (r: Vec<DomainName>)
    requires
        string@.len() <= MAX_DOMAIN_LENGTH,
    ensures
        r@.map_values(|x: DomainName| x@) == split_dot(string@),
        forall|j: int| 0 <= j < r@.len() ==> (#[trigger] r@[j]).wf(),
        r@.len() >= 1,
{
    let mut v: Vec<u8> = Vec::new();
    let mut i: usize = 0;
    while i < string.len()
        invariant
            i <= string@.len(),
            v@ == string@.subrange(0, i as int),
        decreases string@.len() - i,
    {
        v.push(string[i]);
        proof {
            assert(v@ =~= string@.subrange(0, i + 1));
        }
        i = i + 1;
    }
    proof {
        assert(v@ =~= string@);
    }
    let d = bound_domain(v);
    split_domain_by_dot(&d)
}

/// The inner value of a registered domain.
pub fn get_inner_value(r: &Registry, domain: &DomainName) -> (v: Option<InnerValue>)
    requires
        r.lookup_domain(domain@) is Some,
    ensures
        v == r.lookup_domain(domain@).unwrap().inner_value,
{
    match r.registered_domain(domain) {
        Option::Some(m) => m.inner_value,
        Option::None => Option::None,
    }
}

/// The outer value of a registered domain.
pub fn get_outer_value(r: &Registry, domain: &DomainName) -> (v: Option<Vec<u8>>)
    requires
        r.lookup_domain(domain@) is Some,
    ensures
        outer_value_eq(v, r.lookup_domain(domain@).unwrap().outer_value),
{
    match r.registered_domain(domain) {
        Option::Some(m) => m.outer_value,
        Option::None => Option::None,
    }
}

/// The content of a registered domain.
pub fn get_domain_content(r: &Registry, domain: &DomainName) -> (c: Content)
    requires
        r.lookup_domain(domain@) is Some,
    ensures
        c.eq_spec(r.lookup_domain(domain@).unwrap().content),
{
    match r.registered_domain(domain) {
        Option::Some(m) => m.content,
        Option::None => Content::Empty,
    }
}

pub fn inner_value_account_domain_owner() -> (r: InnerValue)
    ensures
        r == InnerValue::Account(DOMAIN_OWNER),
{
    InnerValue::Account(DOMAIN_OWNER)
}

pub fn inner_value_space_id() -> (r: InnerValue)
    ensures
        r == InnerValue::Space(1),
{
    InnerValue::Space(1)
}

/// A run of `A` bytes of the requested length, the maximum by default.
pub fn default_outer_value(length: Option<usize>) -> (r: Vec<u8>)
    requires
        (match length {
            Option::Some(l) => l <= crate::registry::MAX_OUTER_VALUE_LENGTH,
            Option::None => true,
        }),
    ensures
        r@.len() == (match length {
            Option::Some(l) => l,
            Option::None => crate::registry::MAX_OUTER_VALUE_LENGTH,
        }),
        forall|i: int| 0 <= i < r@.len() ==> r@[i] == 65u8,
{
    let n = match length {
        Option::Some(l) => l,
        Option::None => crate::registry::MAX_OUTER_VALUE_LENGTH,
    };
    let mut v: Vec<u8> = Vec::new();
    let mut i: usize = 0;
    while i < n
        invariant
            i <= n,
            v@.len() == i,
            forall|k: int| 0 <= k < i ==> v@[k] == 65u8,
        decreases n - i,
    {
        v.push(65);
        i = i + 1;
    }
    v
}

/// A well-formed IPFS content reference (a 59-byte CID).
pub fn valid_content_ipfs() -> (r: Content)
    ensures
        r.is_valid(),
        (match r {
            Content::Ipfs(cid) => cid@.len() == 59 && (forall|i: int|
                0 <= i < cid@.len() ==> cid@[i] == 98u8),
            _ => false,
        }),
{
    Content::Ipfs(filled_bytes(98, 59))
}

/// A second, different well-formed IPFS content reference (a 46-byte CID).
pub fn another_valid_content_ipfs() -> (r: Content)
    ensures
        r.is_valid(),
        (match r {
            Content::Ipfs(cid) => cid@.len() == 46 && (forall|i: int|
                0 <= i < cid@.len() ==> cid@[i] == 81u8),
            _ => false,
        }),
{
    Content::Ipfs(filled_bytes(81, 46))
}

/// An IPFS content reference with a malformed CID.
pub fn invalid_content_ipfs() -> (r: Content)
    ensures
        !r.is_valid(),
        r is Ipfs,
{
    Content::Ipfs(filled_bytes(81, 14))
}

fn filled_bytes(b: u8, n: usize) -> (r: Vec<u8>)
    ensures
        r@.len() == n,
        forall|i: int| 0 <= i < n ==> r@[i] == b,
{
    let mut v: Vec<u8> = Vec::new();
    let mut i: usize = 0;
    while i < n
        invariant
            i <= n,
            v@.len() == i,
            forall|k: int| 0 <= k < i ==> v@[k] == b,
        decreases n - i,
    {
        v.push(b);
        i = i + 1;
    }
    v
}

/// Sets an account's spendable balance outright.
pub fn make_free_balance_be(r: &mut Registry, account: AccountId, balance: Balance)
    requires
        old(r).wf(),
    ensures
        final(r).wf(),
        final(r).ledger.account_of(account) == (AccountData {
            free: balance,
            reserved: old(r).ledger.reserved_of(account),
            locked: old(r).ledger.locked_of(account),
        }),
        forall|b: AccountId|
            b != account ==> final(r).ledger.account_of(b) == old(r).ledger.account_of(b),
        final(r).domains == old(r).domains,
        final(r).domains_by_owner == old(r).domains_by_owner,
        final(r).domain_by_inner_value == old(r).domain_by_inner_value,
        final(r).reserved_words == old(r).reserved_words,
        final(r).supported_tlds == old(r).supported_tlds,
        final(r).prices_config == old(r).prices_config,
        final(r).events == old(r).events,
        final(r).domains_inserted == old(r).domains_inserted,
        final(r).payment_beneficiary == old(r).payment_beneficiary,
        final(r).block_number == old(r).block_number,
        final(r).current_time == old(r).current_time,
        final(r).min_domain_length == old(r).min_domain_length,
        final(r).max_domains_per_account == old(r).max_domains_per_account,
        final(r).reservation_period_limit == old(r).reservation_period_limit,
        final(r).base_domain_deposit == old(r).base_domain_deposit,
        final(r).outer_value_byte_deposit == old(r).outer_value_byte_deposit,
{
    r.ledger.set_free(account, balance);
}

/// Funds an account and hands its id back.
pub fn account_with_balance(r: &mut Registry, account: AccountId, balance: Balance) -> (a:
    AccountId)
    requires
        old(r).wf(),
    ensures
        a == account,
        final(r).wf(),
        final(r).ledger.account_of(account) == (AccountData {
            free: balance,
            reserved: old(r).ledger.reserved_of(account),
            locked: old(r).ledger.locked_of(account),
        }),
        forall|b: AccountId|
            b != account ==> final(r).ledger.account_of(b) == old(r).ledger.account_of(b),
        final(r).domains == old(r).domains,
        final(r).domains_by_owner == old(r).domains_by_owner,
        final(r).domain_by_inner_value == old(r).domain_by_inner_value,
        final(r).reserved_words == old(r).reserved_words,
        final(r).supported_tlds == old(r).supported_tlds,
        final(r).prices_config == old(r).prices_config,
        final(r).events == old(r).events,
        final(r).domains_inserted == old(r).domains_inserted,
        final(r).payment_beneficiary == old(r).payment_beneficiary,
        final(r).block_number == old(r).block_number,
        final(r).current_time == old(r).current_time,
        final(r).min_domain_length == old(r).min_domain_length,
        final(r).max_domains_per_account == old(r).max_domains_per_account,
        final(r).reservation_period_limit == old(r).reservation_period_limit,
        final(r).base_domain_deposit == old(r).base_domain_deposit,
        final(r).outer_value_byte_deposit == old(r).outer_value_byte_deposit,
{
    make_free_balance_be(r, account, balance);
    account
}

/// The reserved balance an account currently holds.
pub fn get_reserved_balance(r: &Registry, who: AccountId) -> (b: Balance)
    ensures
        b == r.ledger.reserved_of(who),
{
    let d = r.ledger.get_account(who);
    d.reserved
}

/// Builds a registry in a chosen configuration, with the default TLD
/// supported.
pub struct ExtBuilder {
    pub min_domain_length: u32,
    pub max_domains_per_account: u32,
    pub reservation_period_limit: BlockNumber,
    pub base_domain_deposit: Balance,
    pub outer_value_byte_deposit: Balance,
    pub initial_prices_config: Vec<(u32, Balance)>,
}

impl Default for ExtBuilder {
    /// The configuration the tests start from.
    fn default() -> (r: ExtBuilder)
        ensures
            r.min_domain_length == 3,
            r.max_domains_per_account == 10,
            r.reservation_period_limit == 1000,
            r.base_domain_deposit == DEFAULT_DOMAIN_DEPOSIT,
            r.outer_value_byte_deposit == 1,
            r.initial_prices_config@ == seq![(4u32, 100u64), (5u32, 50u64), (6u32, 25u64)],
    {
        let mut prices: Vec<(u32, Balance)> = Vec::new();
        prices.push((4, 100));
        prices.push((5, 50));
        prices.push((6, 25));
        proof {
            assert(prices@ =~= seq![(4u32, 100u64), (5u32, 50u64), (6u32, 25u64)]);
        }
        ExtBuilder {
            min_domain_length: 3,
            max_domains_per_account: 10,
            reservation_period_limit: 1000,
            base_domain_deposit: DEFAULT_DOMAIN_DEPOSIT,
            outer_value_byte_deposit: 1,
            initial_prices_config: prices,
        }
    }
}

impl ExtBuilder {
    pub fn min_domain_length(self, min_domain_length: u32) -> (r: ExtBuilder)
        ensures
            r == (ExtBuilder { min_domain_length, ..self }),
    {
        ExtBuilder { min_domain_length, ..self }
    }

    pub fn max_domains_per_account(self, max_domains_per_account: u32) -> (r: ExtBuilder)
        ensures
            r == (ExtBuilder { max_domains_per_account, ..self }),
    {
        ExtBuilder { max_domains_per_account, ..self }
    }

    pub fn reservation_period_limit(self, reservation_period_limit: BlockNumber) -> (r: ExtBuilder)
        ensures
            r == (ExtBuilder { reservation_period_limit, ..self }),
    {
        ExtBuilder { reservation_period_limit, ..self }
    }

    pub fn base_domain_deposit(self, domain_deposit: Balance) -> (r: ExtBuilder)
        ensures
            r == (ExtBuilder { base_domain_deposit: domain_deposit, ..self }),
    {
        ExtBuilder { base_domain_deposit: domain_deposit, ..self }
    }

    pub fn outer_value_byte_deposit(self, outer_value_byte_deposit: Balance) -> (r: ExtBuilder)
        ensures
            r == (ExtBuilder { outer_value_byte_deposit, ..self }),
    {
        ExtBuilder { outer_value_byte_deposit, ..self }
    }

    pub fn initial_prices(self, initial_prices: Vec<(u32, Balance)>) -> (r: ExtBuilder)
        ensures
            r == (ExtBuilder { initial_prices_config: initial_prices, ..self }),
    {
        ExtBuilder { initial_prices_config: initial_prices, ..self }
    }

    /// Copies this configuration into a registry.
    pub fn set_configs(&self, r: &mut Registry)
        requires
            old(r).wf(),
        ensures
            final(r).wf(),
            final(r).min_domain_length == self.min_domain_length,
            final(r).max_domains_per_account == self.max_domains_per_account,
            final(r).reservation_period_limit == self.reservation_period_limit,
            final(r).base_domain_deposit == self.base_domain_deposit,
            final(r).outer_value_byte_deposit == self.outer_value_byte_deposit,
            final(r).prices_config@ == self.initial_prices_config@,
            final(r).domains == old(r).domains,
            final(r).domains_by_owner == old(r).domains_by_owner,
            final(r).domain_by_inner_value == old(r).domain_by_inner_value,
            final(r).reserved_words == old(r).reserved_words,
            final(r).supported_tlds == old(r).supported_tlds,
            final(r).ledger == old(r).ledger,
            final(r).events == old(r).events,
            final(r).domains_inserted == old(r).domains_inserted,
            final(r).payment_beneficiary == old(r).payment_beneficiary,
            final(r).block_number == old(r).block_number,
            final(r).current_time == old(r).current_time,
    {
        r.min_domain_length = self.min_domain_length;
        r.max_domains_per_account = self.max_domains_per_account;
        r.base_domain_deposit = self.base_domain_deposit;
        r.outer_value_byte_deposit = self.outer_value_byte_deposit;
        r.reservation_period_limit = self.reservation_period_limit;
        let mut prices: Vec<(u32, Balance)> = Vec::new();
        let mut i: usize = 0;
        while i < self.initial_prices_config.len()
            invariant
                i <= self.initial_prices_config@.len(),
                prices@ == self.initial_prices_config@.subrange(0, i as int),
            decreases self.initial_prices_config@.len() - i,
        {
            prices.push(self.initial_prices_config[i]);
            proof {
                assert(prices@ =~= self.initial_prices_config@.subrange(0, i + 1));
            }
            i = i + 1;
        }
        proof {
            assert(prices@ =~= self.initial_prices_config@);
        }
        r.prices_config = prices;
    }

    /// A fresh registry in this configuration: block one, the default
    /// payment beneficiary, and the default TLD supported.
    pub fn build(self) -> (r: Registry)
        ensures
            r.wf(),
            r.min_domain_length == self.min_domain_length,
            r.max_domains_per_account == self.max_domains_per_account,
            r.reservation_period_limit == self.reservation_period_limit,
            r.base_domain_deposit == self.base_domain_deposit,
            r.outer_value_byte_deposit == self.outer_value_byte_deposit,
            r.prices_config@ == self.initial_prices_config@,
            r.block_number == 1,
            r.current_time == 0,
            r.payment_beneficiary == PAYMENT_BENEFICIARY,
            r.domains@.len() == 0,
            r.domains_by_owner@.len() == 0,
            r.domain_by_inner_value@.len() == 0,
            r.domains_inserted == 0,
            r.events@.len() == 1,
            forall|w: Seq<u8>| #[trigger] r.tld_supported(w) <==> w == default_tld_bytes(),
            forall|w: Seq<u8>| !(#[trigger] r.word_reserved(w)),
            forall|a: AccountId| r.ledger.account_of(a) == AccountData::empty(),
    {
        let mut r = Registry::new();
        self.set_configs(&mut r);
        r.block_number = 1;
        r.payment_beneficiary = PAYMENT_BENEFICIARY;
        let mut tlds: Vec<DomainName> = Vec::new();
        tlds.push(default_tld());
        proof {
            lemma_default_tld_valid();
        }
        let ghost r0 = r;
        let res = r.support_tlds(Origin::Root, tlds);
        proof {
            assert(res is Ok);
            assert forall|w: Seq<u8>| #[trigger] r.tld_supported(w) <==> w
                == default_tld_bytes() by {
                if w == default_tld_bytes() {
                    assert(tlds@[0]@ == w);
                }
                if r.tld_supported(w) {
                    if r0.tld_supported(w) {
                        let cur = r0.supported_tlds@;
                        let wi = choose|wi: int| 0 <= wi < cur.len() && (#[trigger] cur[wi])@ == w;
                        assert(false);
                    } else {
                        let i = choose|i: int| 0 <= i < tlds@.len() && (#[trigger] tlds@[i])@ == w;
                        assert(i == 0);
                    }
                }
            }
            assert forall|w: Seq<u8>| !(#[trigger] r.word_reserved(w)) by {
                if r.word_reserved(w) {
                    let cur = r.reserved_words@;
                    let wi = choose|wi: int| 0 <= wi < cur.len() && (#[trigger] cur[wi])@ == w;
                }
            }
        }
        r
    }
}

impl ExtBuilder {
    /// A registry in this configuration with the default domain already
    /// registered: the owner was funded with exactly the price plus the
    /// base deposit and spent all of it.
    pub fn build_with_default_domain_registered(self) -> (r: Registry)
        requires
            self.min_domain_length <= 59,
            self.max_domains_per_account >= 1,
            self.reservation_period_limit >= 1000,
            price_for(self.initial_prices_config@, 59) is Some,
            price_for(self.initial_prices_config@, 59).unwrap() + self.base_domain_deposit
                <= u64::MAX,
        ensures
            r.wf(),
            r.min_domain_length == self.min_domain_length,
            r.max_domains_per_account == self.max_domains_per_account,
            r.reservation_period_limit == self.reservation_period_limit,
            r.base_domain_deposit == self.base_domain_deposit,
            r.outer_value_byte_deposit == self.outer_value_byte_deposit,
            r.prices_config@ == self.initial_prices_config@,
            r.block_number == 1,
            r.payment_beneficiary == PAYMENT_BENEFICIARY,
            ({
                let key = default_domain_lc_bytes();
                let price = price_for(self.initial_prices_config@, 59).unwrap();
                &&& r.lookup_domain(key) is Some
                &&& r.lookup_domain(key).unwrap().owner == DOMAIN_OWNER
                &&& r.lookup_domain(key).unwrap().domain_deposit == (DomainDeposit {
                    depositor: DOMAIN_OWNER,
                    amount: self.base_domain_deposit,
                })
                &&& r.lookup_domain(key).unwrap().outer_value_deposit == 0
                &&& r.lookup_domain(key).unwrap().outer_value is None
                &&& r.lookup_domain(key).unwrap().inner_value is None
                &&& r.ledger.reserved_of(DOMAIN_OWNER) == self.base_domain_deposit
                &&& r.ledger.free_of(DOMAIN_OWNER) == 0
                &&& r.ledger.locked_of(DOMAIN_OWNER) == 0
                &&& r.ledger.free_of(PAYMENT_BENEFICIARY) == price
                &&& r.owner_domain_views(DOMAIN_OWNER) == seq![key]
            }),
            forall|w: Seq<u8>| #[trigger] r.tld_supported(w) <==> w == default_tld_bytes(),
            forall|w: Seq<u8>| !(#[trigger] r.word_reserved(w)),
    {
        let base = self.base_domain_deposit;
        let mut r = self.build();
        let ghost key = default_domain_lc_bytes();
        proof {
            let a59 = Seq::new(59, |i: int| 97u8);
            assert(default_domain_lc_bytes() =~= a59 + seq![DOT] + default_tld_bytes());
            lemma_split_prepend(a59, default_tld_bytes());
            assert(default_tld_bytes()[0] == 115u8 && default_tld_bytes()[1] == 117u8
                && default_tld_bytes()[2] == 98u8);
            lemma_split_no_dot(default_tld_bytes());
            assert(split_dot(key) =~= seq![a59, default_tld_bytes()]);
            assert(split_dot(key)[0] == a59);
            assert(split_dot(key)[1] == default_tld_bytes());
            assert forall|i: int| 0 <= i < a59.len() implies crate::domain::valid_domain_char(
                #[trigger] a59[i],
            ) by {
                assert(a59[i] == 97u8);
            }
            assert(word_chars_valid(a59));
            lemma_default_tld_valid();
        }
        let domain_lc = default_domain_lc();
        let labels = split_domain_by_dot(&domain_lc);
        proof {
            assert(labels@.map_values(|x: DomainName| x@)[0] == split_dot(key)[0]);
            assert(labels@[0]@.len() == 59);
        }
        let price = match r.calculate_price(labels[0].as_bytes().as_slice()) {
            Option::Some(p) => p,
            Option::None => {
                proof {
                    assert(false);
                }
                0
            },
        };
        let ghost r0 = r;
        let _ = account_with_balance(&mut r, DOMAIN_OWNER, base + price);
        let ghost r1 = r;
        let expires_in = ExtBuilder::default().reservation_period_limit;
        let res = r.register_domain(
            Origin::Signed(DOMAIN_OWNER),
            Option::None,
            default_domain(),
            valid_content_ipfs(),
            expires_in,
        );
        proof {
            lemma_default_domain_lc();
            assert(r1.domain_entries().len() == 0);
            assert(r1.lookup_domain(key) is None);
            assert(crate::assoc::find_assoc(r1.domains_by_owner@, DOMAIN_OWNER) is None);
            assert(r1.owner_domains(DOMAIN_OWNER).len() == 0);
            lemma_sets_preserved(r0, r1);
            assert(res is Ok);
        }
        proof {
            let m = r.domain_entries().last().1;
            assert(r.domain_entries() =~= r1.domain_entries().push((key, m)));
            crate::assoc::lemma_find_assoc_push(r1.domain_entries(), key, m, key);
            assert(r.lookup_domain(key) == Option::Some(m));
            assert(r1.owner_domain_views(DOMAIN_OWNER) =~= Seq::<Seq<u8>>::empty());
            assert(r.owner_domain_views(DOMAIN_OWNER) =~= seq![key]);
            lemma_sets_preserved(r1, r);
        }
        r
    }
}

} // verus!
