use domains::domain::bound_domain;
use domains::domain::split_domain_by_dot;
use domains::domain::DomainName;
use domains::fixtures::account_with_balance;
use domains::fixtures::another_valid_content_ipfs;
use domains::fixtures::bound_domain_with_custom_tld;
use domains::fixtures::bound_domain_with_default_tld;
use domains::fixtures::default_domain;
use domains::fixtures::default_domain_lc;
use domains::fixtures::default_outer_value;
use domains::fixtures::default_tld;
use domains::fixtures::get_domain_content;
use domains::fixtures::get_inner_value;
use domains::fixtures::get_outer_value;
use domains::fixtures::get_reserved_balance;
use domains::fixtures::inner_value_account_domain_owner;
use domains::fixtures::inner_value_space_id;
use domains::fixtures::invalid_content_ipfs;
use domains::fixtures::origin_a;
use domains::fixtures::origin_b;
use domains::fixtures::split_domain_from;
use domains::fixtures::valid_content_ipfs;
use domains::fixtures::ExtBuilder;
use domains::fixtures::ACCOUNT_A;
use domains::fixtures::ACCOUNT_B;
use domains::fixtures::DEFAULT_DOMAIN_DEPOSIT;
use domains::fixtures::DOMAIN_OWNER;
use domains::fixtures::DOMAIN_REGISTRAR;
use domains::fixtures::DUMMY_ACCOUNT;
use domains::registry::Registry;
use domains::types::Content;
use domains::types::DomainDeposit;
use domains::types::DomainMeta;
use domains::types::Error;
use domains::types::Event;
use domains::types::InnerValue;
use domains::types::Origin;
use domains::types::WhoAndWhen;

type AccountId = u64;
type Balance = u64;
type BlockNumber = u64;

fn free_balance(r: &Registry, who: AccountId) -> Balance {
    r.ledger.get_account(who).free
}

fn domain_registrar_origin() -> Option<Origin> {
    domains::fixtures::domain_registrar_origin()
}

fn _register_domain(
    r: &mut Registry,
    origin: Option<Origin>,
    recipient: Option<Option<AccountId>>,
    domain: Option<DomainName>,
    content: Option<Content>,
    expires_in: Option<BlockNumber>,
) -> Result<(), Error> {
    r.register_domain(
        origin.unwrap_or(Origin::Signed(DOMAIN_OWNER)),
        recipient.unwrap_or_default(),
        domain.unwrap_or_else(default_domain),
        content.unwrap_or_else(valid_content_ipfs),
        expires_in.unwrap_or(ExtBuilder::default().reservation_period_limit),
    )
}

fn _force_register_domain_with_origin(r: &mut Registry, origin: Origin) -> Result<(), Error> {
    _register_domain(r, Some(origin), None, None, None, None)
}

fn _force_register_domain_with_expires_in(
    r: &mut Registry,
    expires_in: BlockNumber,
) -> Result<(), Error> {
    _register_domain(r, domain_registrar_origin(), None, None, None, Some(expires_in))
}

fn _force_register_domain_with_name(
    r: &mut Registry,
    domain_name: DomainName,
) -> Result<(), Error> {
    _register_domain(r, domain_registrar_origin(), None, Some(domain_name), None, None)
}

fn _register_default_domain(r: &mut Registry) -> Result<(), Error> {
    _register_domain(r, None, None, None, None, None)
}

fn _set_inner_value(
    r: &mut Registry,
    origin: Option<Origin>,
    domain: Option<DomainName>,
    value: Option<Option<InnerValue>>,
) -> Result<(), Error> {
    r.set_inner_value(
        origin.unwrap_or(Origin::Signed(DOMAIN_OWNER)),
        domain.unwrap_or_else(default_domain_lc),
        value.unwrap_or_else(|| Some(inner_value_account_domain_owner())),
    )
}

fn _set_inner_value_with_origin(r: &mut Registry, origin: Origin) -> Result<(), Error> {
    _set_inner_value(r, Some(origin), None, None)
}

fn _set_default_inner_value(r: &mut Registry) -> Result<(), Error> {
    _set_inner_value(r, None, None, None)
}

fn _set_outer_value(
    r: &mut Registry,
    origin: Option<Origin>,
    domain: Option<DomainName>,
    value: Option<Option<Vec<u8>>>,
) -> Result<(), Error> {
    r.set_outer_value(
        origin.unwrap_or(Origin::Signed(DOMAIN_OWNER)),
        domain.unwrap_or_else(default_domain_lc),
        value.unwrap_or_else(|| Some(default_outer_value(None))),
    )
}

fn _set_outer_value_with_origin(r: &mut Registry, origin: Origin) -> Result<(), Error> {
    _set_outer_value(r, Some(origin), None, None)
}

fn _set_outer_value_with_value(
    r: &mut Registry,
    value_opt: Option<Vec<u8>>,
) -> Result<(), Error> {
    _set_outer_value(r, None, None, Some(value_opt))
}

fn _set_default_outer_value(r: &mut Registry) -> Result<(), Error> {
    _set_outer_value(r, None, None, None)
}

fn _set_domain_content(
    r: &mut Registry,
    origin: Option<Origin>,
    domain: Option<DomainName>,
    content: Option<Content>,
) -> Result<(), Error> {
    r.set_domain_content(
        origin.unwrap_or(Origin::Signed(DOMAIN_OWNER)),
        domain.unwrap_or_else(default_domain_lc),
        content.unwrap_or_else(another_valid_content_ipfs),
    )
}

fn _set_domain_content_with_origin(r: &mut Registry, origin: Origin) -> Result<(), Error> {
    _set_domain_content(r, Some(origin), None, None)
}

fn _set_domain_content_with_content(r: &mut Registry, content: Content) -> Result<(), Error> {
    _set_domain_content(r, None, None, Some(content))
}

fn _set_default_domain_content(r: &mut Registry) -> Result<(), Error> {
    _set_domain_content(r, None, None, None)
}

// `register_domain` tests

fn test_register_domain(r: &mut Registry, caller: AccountId, recipient_opt: Option<AccountId>) {
    let recipient = recipient_opt.unwrap_or(caller);

    let expected_domain = default_domain();
    let expected_domain_lc = default_domain_lc();

    assert_eq!(get_reserved_balance(r, recipient), 0);

    let old_caller_balance = free_balance(r, caller);

    assert!(_register_domain(
        r,
        Some(Origin::Signed(caller)),
        Some(recipient_opt),
        None,
        None,
        None
    )
    .is_ok());

    // Check that the correct amount of tokens were withdrawn from caller balance.

    let price_paid = old_caller_balance - free_balance(r, caller) - DEFAULT_DOMAIN_DEPOSIT;
    let subdomain = split_domain_by_dot(&expected_domain_lc).first().unwrap().clone();
    assert_eq!(
        price_paid,
        r.calculate_price(subdomain.as_bytes().as_slice()).unwrap()
    );

    // Check that the correct amount of tokens were deposited to payment beneficiary balance.
    let payment_beneficiary = r.payment_beneficiary();
    assert_eq!(free_balance(r, payment_beneficiary), price_paid);

    assert_eq!(r.domains_by_owner(recipient), vec![expected_domain_lc.clone()]);

    let domain_meta = r.registered_domain(&expected_domain_lc).unwrap();
    assert_eq!(
        domain_meta,
        DomainMeta {
            created: WhoAndWhen { account: caller, block: 1, time: 0 },
            updated: None,
            expires_at: ExtBuilder::default().reservation_period_limit + 1,
            owner: recipient,
            content: valid_content_ipfs(),
            inner_value: None,
            outer_value: None,
            domain_deposit: DomainDeposit { depositor: caller, amount: DEFAULT_DOMAIN_DEPOSIT },
            outer_value_deposit: 0,
        }
    );

    assert_eq!(get_reserved_balance(r, caller), DEFAULT_DOMAIN_DEPOSIT);

    assert_eq!(
        r.events().last(),
        Some(&Event::DomainRegistered { who: caller, recipient, domain: expected_domain })
    );
}

#[test]
fn register_domain_should_work() {
    let mut r = ExtBuilder::default()
        .base_domain_deposit(DEFAULT_DOMAIN_DEPOSIT)
        .build();
    let caller_and_recipient = account_with_balance(&mut r, DOMAIN_OWNER, Balance::MAX);

    test_register_domain(&mut r, caller_and_recipient, None);
}

#[test]
fn register_domain_should_work_with_alt_recipient() {
    let mut r = ExtBuilder::default()
        .base_domain_deposit(DEFAULT_DOMAIN_DEPOSIT)
        .build();
    let caller = account_with_balance(&mut r, DOMAIN_REGISTRAR, Balance::MAX);
    let recipient = account_with_balance(&mut r, DOMAIN_OWNER, Balance::MAX);

    test_register_domain(&mut r, caller, Some(recipient));
}

#[test]
fn register_domain_should_fail_when_domain_already_owned() {
    let mut r = ExtBuilder::default().build_with_default_domain_registered();
    assert_eq!(
        _register_default_domain(&mut r),
        Err(Error::DomainAlreadyOwned)
    );
}

#[test]
fn register_domain_should_fail_when_too_many_domains_registered() {
    let mut r = ExtBuilder::default().max_domains_per_account(1).build();
    let _ = account_with_balance(&mut r, DOMAIN_REGISTRAR, Balance::MAX);
    let _ = account_with_balance(&mut r, DOMAIN_OWNER, Balance::MAX);

    let domain_one = bound_domain_with_default_tld(b"domain-one".to_vec());
    let domain_two = bound_domain_with_default_tld(b"domain-two".to_vec());

    assert!(_force_register_domain_with_name(&mut r, domain_one).is_ok());
    assert_eq!(
        _force_register_domain_with_name(&mut r, domain_two),
        Err(Error::TooManyDomainsPerAccount)
    );
}

#[test]
fn register_domain_should_fail_when_balance_is_insufficient() {
    let mut r = ExtBuilder::default()
        .base_domain_deposit(2)
        .initial_prices(vec![(1, 3)])
        .build();
    let _ = account_with_balance(&mut r, DOMAIN_OWNER, 2);

    assert_eq!(
        _register_default_domain(&mut r),
        Err(Error::InsufficientBalanceToRegisterDomain)
    );
}

#[test]
fn register_domain_should_fail_when_insufficient_balance_to_reserve_balance() {
    let mut r = ExtBuilder::default()
        .base_domain_deposit(1)
        .initial_prices(vec![(1, 1)])
        .build();
    let caller = account_with_balance(&mut r, DOMAIN_OWNER, 2);

    // Just a barrier to prevent the test from failing due to the InsufficientBalance after reserving token
    r.ledger.set_lock(*b"1       ", caller, 2);

    assert_eq!(
        _register_default_domain(&mut r),
        Err(Error::InsufficientBalanceToReserveDeposit)
    );
}

#[test]
fn force_register_domain_should_fail_with_bad_origin() {
    let mut r = ExtBuilder::default().build();
    assert_eq!(
        _force_register_domain_with_origin(&mut r, Origin::Unsigned),
        Err(Error::BadOrigin)
    );
}

#[test]
fn register_domain_should_fail_with_tld_not_supported() {
    let mut r = ExtBuilder::default().build();
    assert_eq!(
        _force_register_domain_with_name(
            &mut r,
            bound_domain_with_custom_tld(b"domain".to_vec(), b"unsupported-tld".to_vec()),
        ),
        Err(Error::TldNotSupported)
    );
}

#[test]
fn force_register_domain_should_fail_when_reservation_period_zero() {
    let mut r = ExtBuilder::default().build();
    assert_eq!(
        _force_register_domain_with_expires_in(&mut r, 0),
        Err(Error::ZeroReservationPeriod)
    );
}

#[test]
fn force_register_domain_should_fail_when_reservation_above_limit() {
    let mut r = ExtBuilder::default().reservation_period_limit(1000).build();
    assert_eq!(
        _force_register_domain_with_expires_in(&mut r, 1001),
        Err(Error::TooBigRegistrationPeriod)
    );
}

#[test]
fn register_domain_should_fail_when_domain_reserved() {
    let mut r = ExtBuilder::default().build();
    let word = bound_domain(b"splitword".to_vec());
    let domain = bound_domain_with_default_tld(b"split-wo-rd".to_vec());

    assert!(r.reserve_words(Origin::Root, vec![word]).is_ok());

    assert_eq!(
        r.register_domain(
            Origin::Signed(DOMAIN_OWNER),
            None,
            domain,
            valid_content_ipfs(),
            ExtBuilder::default().reservation_period_limit,
        ),
        Err(Error::DomainIsReserved)
    );
}

// `set_inner_value` tests

#[test]
fn set_inner_value_should_work() {
    let mut r = ExtBuilder::default().build_with_default_domain_registered();
    let domain_lc = default_domain_lc();
    let old_value = get_inner_value(&r, &domain_lc);

    assert!(_set_default_inner_value(&mut r).is_ok());

    let result_value = get_inner_value(&r, &domain_lc);
    assert!(old_value != result_value);

    let expected_value = Some(inner_value_account_domain_owner());
    assert_eq!(expected_value, result_value);

    assert_eq!(
        r.domain_by_inner_value(DOMAIN_OWNER, expected_value.unwrap()),
        Some(default_domain_lc()),
    );

    assert_eq!(
        r.events().last(),
        Some(&Event::DomainMetaUpdated { who: DOMAIN_OWNER, domain: domain_lc })
    );
}

#[test]
fn set_inner_value_should_work_when_same_for_different_domains() {
    let domain_one = bound_domain_with_default_tld(b"domain-one".to_vec());
    let domain_two = bound_domain_with_default_tld(b"domain-two".to_vec());

    let mut r = ExtBuilder::default().base_domain_deposit(0).build();

    let subdomain_one = split_domain_by_dot(&domain_one).first().cloned().unwrap();
    let first_domain_price = r
        .calculate_price(subdomain_one.as_bytes().as_slice())
        .unwrap();

    let subdomain_two = split_domain_by_dot(&domain_two).first().cloned().unwrap();
    let second_domain_price = r
        .calculate_price(subdomain_two.as_bytes().as_slice())
        .unwrap();

    // +1 here is to avoid KeepAlive error
    let _ = account_with_balance(&mut r, ACCOUNT_A, first_domain_price + 1);
    let _ = account_with_balance(&mut r, ACCOUNT_B, second_domain_price + 1);

    assert!(r
        .register_domain(origin_a(), None, domain_one.clone(), valid_content_ipfs(), 1)
        .is_ok());
    assert!(r
        .register_domain(origin_b(), None, domain_two.clone(), valid_content_ipfs(), 1)
        .is_ok());

    assert!(r
        .set_inner_value(origin_a(), domain_one.clone(), Some(inner_value_space_id()))
        .is_ok());
    assert!(r
        .set_inner_value(origin_b(), domain_two.clone(), Some(inner_value_space_id()))
        .is_ok());

    assert_eq!(
        r.domain_by_inner_value(ACCOUNT_A, inner_value_space_id()),
        Some(domain_one.clone()),
    );
    assert_eq!(
        r.domain_by_inner_value(ACCOUNT_B, inner_value_space_id()),
        Some(domain_two.clone()),
    );

    // Checking that free balance left is that one extra token
    assert_eq!(free_balance(&r, ACCOUNT_A), 1);
    assert_eq!(free_balance(&r, ACCOUNT_B), 1);

    assert!(r
        .events()
        .contains(&Event::DomainMetaUpdated { who: ACCOUNT_A, domain: domain_one }));

    assert!(r
        .events()
        .contains(&Event::DomainMetaUpdated { who: ACCOUNT_B, domain: domain_two }));
}

#[test]
fn set_inner_value_should_work_when_value_changes() {
    let mut r = ExtBuilder::default().build_with_default_domain_registered();
    let domain_lc = default_domain_lc();
    let initial_value = inner_value_account_domain_owner();
    let new_value = inner_value_space_id();

    assert!(_set_default_inner_value(&mut r).is_ok());

    assert!(r
        .set_inner_value(
            Origin::Signed(DOMAIN_OWNER),
            domain_lc.clone(),
            Some(new_value.clone()),
        )
        .is_ok());

    assert_eq!(r.domain_by_inner_value(DOMAIN_OWNER, initial_value), None);
    assert_eq!(
        r.domain_by_inner_value(DOMAIN_OWNER, new_value),
        Some(default_domain_lc())
    );

    assert_eq!(Some(new_value), get_inner_value(&r, &domain_lc));
}

#[test]
fn set_inner_value_should_fail_when_not_domain_owner() {
    let mut r = ExtBuilder::default().build_with_default_domain_registered();
    assert_eq!(
        _set_inner_value_with_origin(&mut r, Origin::Signed(DUMMY_ACCOUNT)),
        Err(Error::NotDomainOwner)
    );
}

#[test]
fn set_inner_value_should_fail_when_inner_value_not_differ() {
    let mut r = ExtBuilder::default().build_with_default_domain_registered();
    assert!(_set_default_inner_value(&mut r).is_ok());

    assert_eq!(
        _set_default_inner_value(&mut r),
        Err(Error::InnerValueNotChanged)
    );
}

#[test]
fn force_set_inner_value_should_work() {
    let mut r = ExtBuilder::default().build_with_default_domain_registered();
    assert!(r
        .force_set_inner_value(
            Origin::Root,
            default_domain_lc(),
            Some(inner_value_account_domain_owner()),
        )
        .is_ok());
}

#[test]
fn force_set_inner_value_should_fail_when_origin_not_root() {
    let mut r = ExtBuilder::default().build_with_default_domain_registered();
    assert_eq!(
        r.force_set_inner_value(
            Origin::Signed(DOMAIN_OWNER),
            default_domain_lc(),
            Some(inner_value_account_domain_owner()),
        ),
        Err(Error::BadOrigin)
    );
}

// `set_outer_value` tests

#[test]
fn set_outer_value_should_work() {
    const LOCAL_BYTE_DEPOSIT: Balance = 1;

    let mut r = ExtBuilder::default()
        .base_domain_deposit(DEFAULT_DOMAIN_DEPOSIT)
        .outer_value_byte_deposit(LOCAL_BYTE_DEPOSIT)
        .build_with_default_domain_registered();
    let owner = account_with_balance(&mut r, DOMAIN_OWNER, Balance::MAX);

    let domain_lc = default_domain_lc();
    let old_value = get_outer_value(&r, &domain_lc);

    assert!(_set_default_outer_value(&mut r).is_ok());

    let expected_value = Some(default_outer_value(None));
    let result_value = get_outer_value(&r, &domain_lc);

    assert!(old_value != result_value);
    assert_eq!(expected_value, result_value);

    let reserved_balance = get_reserved_balance(&r, owner);
    assert_eq!(
        reserved_balance,
        expected_value.unwrap().len() as u64 * LOCAL_BYTE_DEPOSIT + DEFAULT_DOMAIN_DEPOSIT
    );

    assert_eq!(
        r.events().last(),
        Some(&Event::DomainMetaUpdated { who: owner, domain: domain_lc })
    );
}

#[test]
fn set_outer_value_should_reserve_correct_deposit_when_outer_value_keep_changing() {
    const LOCAL_BYTE_DEPOSIT_INIT: Balance = 1;
    let domain_deposit = ExtBuilder::default().base_domain_deposit;

    let mut r = ExtBuilder::default()
        .outer_value_byte_deposit(LOCAL_BYTE_DEPOSIT_INIT)
        .build_with_default_domain_registered();
    let owner = account_with_balance(&mut r, DOMAIN_OWNER, Balance::MAX);
    let calc_deposit = |value: usize| value as Balance * LOCAL_BYTE_DEPOSIT_INIT + domain_deposit;

    let initial_value = default_outer_value(Some(10));
    let updated_value = default_outer_value(Some(20));

    // Set outer value with length 10 and ensure that an appropriate deposit reserved
    assert!(_set_outer_value_with_value(&mut r, Some(initial_value.clone())).is_ok());
    assert_eq!(get_reserved_balance(&r, owner), calc_deposit(initial_value.len()));

    // Set outer value with length 20 and ensure that deposit has increased
    assert!(_set_outer_value_with_value(&mut r, Some(updated_value.clone())).is_ok());
    assert_eq!(get_reserved_balance(&r, owner), calc_deposit(updated_value.len()));

    // Set outer value with length 10 and ensure that an appropriate deposit decreased
    assert!(_set_outer_value_with_value(&mut r, Some(initial_value.clone())).is_ok());
    assert_eq!(get_reserved_balance(&r, owner), calc_deposit(initial_value.len()));

    // Remove outer value and ensure that deposit was unreserved
    assert!(_set_outer_value_with_value(&mut r, None).is_ok());
    assert_eq!(get_reserved_balance(&r, owner), calc_deposit(0));
}

#[test]
fn set_outer_value_should_fail_when_not_domain_owner() {
    let mut r = ExtBuilder::default().build_with_default_domain_registered();
    assert_eq!(
        _set_outer_value_with_origin(&mut r, Origin::Signed(DUMMY_ACCOUNT)),
        Err(Error::NotDomainOwner)
    );
}

#[test]
fn set_outer_value_should_fail_when_value_not_differ() {
    let mut r = ExtBuilder::default().build_with_default_domain_registered();
    let _ = account_with_balance(&mut r, DOMAIN_OWNER, Balance::MAX);

    assert!(_set_default_outer_value(&mut r).is_ok());

    assert_eq!(
        _set_default_outer_value(&mut r),
        Err(Error::OuterValueNotChanged)
    );
}

#[test]
fn set_outer_value_should_fail_when_balance_is_insufficient() {
    const LOCAL_BYTE_DEPOSIT: Balance = 1;

    let mut r = ExtBuilder::default()
        .outer_value_byte_deposit(LOCAL_BYTE_DEPOSIT)
        .build_with_default_domain_registered();

    // At this point account has 0 free balance
    assert_eq!(
        _set_default_outer_value(&mut r),
        Err(Error::InsufficientBalance)
    );
}

// `set_domain_content` tests

#[test]
fn set_domain_content_should_work() {
    let mut r = ExtBuilder::default().build_with_default_domain_registered();
    let owner = account_with_balance(&mut r, DOMAIN_OWNER, Balance::MAX);

    let domain_lc = default_domain_lc();
    let old_content = get_domain_content(&r, &domain_lc);

    assert!(_set_default_domain_content(&mut r).is_ok());

    let result_content = get_domain_content(&r, &domain_lc);

    assert!(old_content != result_content);
    assert_eq!(another_valid_content_ipfs(), result_content);

    assert_eq!(
        r.events().last(),
        Some(&Event::DomainMetaUpdated { who: owner, domain: domain_lc })
    );
}

#[test]
fn set_domain_content_should_fail_when_not_domain_owner() {
    let mut r = ExtBuilder::default().build_with_default_domain_registered();
    assert_eq!(
        _set_domain_content_with_origin(&mut r, Origin::Signed(DUMMY_ACCOUNT)),
        Err(Error::NotDomainOwner)
    );
}

#[test]
fn set_domain_content_should_fail_when_content_not_differ() {
    let mut r = ExtBuilder::default().build_with_default_domain_registered();
    assert!(_set_default_domain_content(&mut r).is_ok());

    assert_eq!(
        _set_default_domain_content(&mut r),
        Err(Error::DomainContentNotChanged)
    );
}

#[test]
fn set_domain_content_should_fail_when_content_is_invalid() {
    let mut r = ExtBuilder::default().build_with_default_domain_registered();
    assert_eq!(
        _set_domain_content_with_content(&mut r, invalid_content_ipfs()),
        Err(Error::InvalidIpfsCid)
    );
}

#[test]
fn set_payment_beneficiary_should_work() {
    let mut r = ExtBuilder::default().build();
    let old_beneficiary = r.payment_beneficiary();
    let new_beneficiary = DUMMY_ACCOUNT;

    assert!(old_beneficiary != new_beneficiary);

    assert!(r
        .set_payment_beneficiary(Origin::Root, new_beneficiary)
        .is_ok());

    assert_eq!(r.payment_beneficiary(), new_beneficiary);
}

#[test]
fn set_prices_config_should_work() {
    let old_prices = vec![(1, 80), (2, 40), (3, 20)];

    let mut r = ExtBuilder::default().initial_prices(old_prices.clone()).build();
    let new_prices = vec![(1, 100), (2, 50), (3, 25)];

    assert_eq!(r.prices_config(), old_prices);

    assert!(r.set_prices_config(Origin::Root, new_prices.clone()).is_ok());

    assert_eq!(r.prices_config(), new_prices);
}

// `reserve_domains` tests

#[test]
fn reserve_words_should_work() {
    let mut r = ExtBuilder::default().build();
    let domains_list = vec![
        bound_domain(b"word-one".to_vec()),
        bound_domain(b"word-two".to_vec()),
        bound_domain(b"word-three".to_vec()),
    ];

    assert!(r.reserve_words(Origin::Root, domains_list.clone()).is_ok());

    assert!(r.is_word_reserved(&domains_list[0]));
    assert!(r.is_word_reserved(&domains_list[1]));
    assert!(r.is_word_reserved(&domains_list[2]));

    assert_eq!(r.events().last(), Some(&Event::NewWordsReserved { count: 3 }));
}

#[test]
fn reserve_words_should_fail_when_word_is_invalid() {
    let mut r = ExtBuilder::default().build();
    let domains_list = vec![bound_domain_with_default_tld(b"domain--one".to_vec())];

    assert_eq!(
        r.reserve_words(Origin::Root, domains_list),
        Err(Error::DomainContainsInvalidChar)
    );
}

// `support_tlds` tests

#[test]
fn support_tlds_should_work() {
    let mut r = ExtBuilder::default().build();
    assert!(r.support_tlds(Origin::Root, vec![default_tld()]).is_ok());

    assert!(r.is_tld_supported(default_tld()));
    assert_eq!(r.events().last(), Some(&Event::NewTldsSupported { count: 1 }));
}

#[test]
fn support_tlds_should_fail_when_tld_is_invalid() {
    let mut r = ExtBuilder::default().build();
    let tlds_list = vec![bound_domain_with_default_tld(b"domain--one".to_vec())];

    assert_eq!(
        r.support_tlds(Origin::Root, tlds_list),
        Err(Error::DomainContainsInvalidChar)
    );
}

// Test domain name validation function

#[test]
fn ensure_valid_domain_should_work() {
    let r = ExtBuilder::default().min_domain_length(3).build();
    assert!(r.ensure_valid_domain(&split_domain_from(b"abcde.sub")).is_ok());
    assert!(r.ensure_valid_domain(&split_domain_from(b"a-b-c.sub")).is_ok());
    assert!(r.ensure_valid_domain(&split_domain_from(b"12345.sub")).is_ok());

    assert_eq!(
        r.ensure_valid_domain(&split_domain_from(b"a.sub")),
        Err(Error::DomainIsTooShort)
    );
    assert_eq!(
        r.ensure_valid_domain(&split_domain_from(b"-ab.sub")),
        Err(Error::DomainContainsInvalidChar)
    );
    assert_eq!(
        r.ensure_valid_domain(&split_domain_from(b"ab-.sub")),
        Err(Error::DomainContainsInvalidChar)
    );
    assert_eq!(
        r.ensure_valid_domain(&split_domain_from(b"a--b.sub")),
        Err(Error::DomainContainsInvalidChar)
    );
}

// Test domain price calculation function

#[test]
fn calculate_price_should_work() {
    // The lengths and prices of domains are deliberately unordered to test the sorting function
    let r = ExtBuilder::default()
        .initial_prices(vec![(7, 1), (6, 4), (5, 20), (4, 100)])
        .build();
    assert_eq!(r.calculate_price(b"sub".as_slice()), None);
    assert_eq!(r.calculate_price(b"subd".as_slice()), Some(100));
    assert_eq!(r.calculate_price(b"subdo".as_slice()), Some(20));
    assert_eq!(r.calculate_price(b"subdom".as_slice()), Some(4));
    assert_eq!(r.calculate_price(b"subdoma".as_slice()), Some(1));
    assert_eq!(r.calculate_price(b"subdomain".as_slice()), Some(1));
}
