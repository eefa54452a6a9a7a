use domains::domain::bound_domain;
use domains::domain::lower_domain_then_bound;
use domains::domain::split_domain_by_dot;
use domains::fixtures::account_with_balance;
use domains::fixtures::default_domain;
use domains::fixtures::default_domain_lc;
use domains::fixtures::default_outer_value;
use domains::fixtures::get_reserved_balance;
use domains::fixtures::valid_content_ipfs;
use domains::fixtures::ExtBuilder;
use domains::fixtures::ACCOUNT_A;
use domains::fixtures::DOMAIN_OWNER;
use domains::registry::Registry;
use domains::types::Error;
use domains::types::Event;
use domains::types::InnerValue;
use domains::types::Origin;

fn free_balance_of(r: &Registry, who: u64) -> u64 {
    r.ledger.get_account(who).free
}

#[test]
fn lowercasing_is_idempotent() {
    let name = bound_domain(b"AbC-9.SuB".to_vec());
    let once = lower_domain_then_bound(&name);
    let twice = lower_domain_then_bound(&once);
    assert_eq!(once, twice);
    assert_eq!(once.to_vec(), b"abc-9.sub".to_vec());
}

#[test]
fn split_then_join_rebuilds_name() {
    for raw in [
        b"my-name.sub".to_vec(),
        b"a.b.c".to_vec(),
        b"nodots".to_vec(),
        b".a.".to_vec(),
        b"a..sub".to_vec(),
        b"".to_vec(),
    ] {
        let name = bound_domain(raw.clone());
        let labels = split_domain_by_dot(&name);
        let mut rebuilt: Vec<u8> = Vec::new();
        for (i, label) in labels.iter().enumerate() {
            if i > 0 {
                rebuilt.push(b'.');
            }
            rebuilt.extend_from_slice(label.as_bytes());
        }
        assert_eq!(rebuilt, raw);
    }
}

#[test]
fn registration_adds_exactly_one_owner_entry() {
    let mut r = ExtBuilder::default().build();
    let _ = account_with_balance(&mut r, DOMAIN_OWNER, u64::MAX);
    let before_owner = r.domains_by_owner(DOMAIN_OWNER);
    let before_other = r.domains_by_owner(ACCOUNT_A);

    assert!(r
        .register_domain(
            Origin::Signed(DOMAIN_OWNER),
            None,
            default_domain(),
            valid_content_ipfs(),
            1000,
        )
        .is_ok());

    let after_owner = r.domains_by_owner(DOMAIN_OWNER);
    assert_eq!(after_owner.len(), before_owner.len() + 1);
    assert_eq!(after_owner.last(), Some(&default_domain_lc()));
    assert_eq!(r.domains_by_owner(ACCOUNT_A), before_other);
}

#[test]
fn calculate_price_uses_tightest_lower_bound() {
    let r = ExtBuilder::default()
        .initial_prices(vec![(4, 100), (5, 50), (6, 25)])
        .build();
    assert_eq!(r.calculate_price(b"abc".as_slice()), None);
    assert_eq!(r.calculate_price(b"abcd".as_slice()), Some(100));
    assert_eq!(r.calculate_price(b"abcde".as_slice()), Some(50));
    assert_eq!(r.calculate_price(b"abcdefghi".as_slice()), Some(25));
}

#[test]
fn register_with_exact_balance_stores_lowercased_key() {
    let mut r = ExtBuilder::default()
        .initial_prices(vec![(4, 100), (5, 50), (6, 25)])
        .base_domain_deposit(10)
        .build();
    // The default name's subdomain is 59 bytes long: the cheapest tier.
    let price = 25;
    let _ = account_with_balance(&mut r, DOMAIN_OWNER, price + 10);

    assert!(r
        .register_domain(
            Origin::Signed(DOMAIN_OWNER),
            None,
            default_domain(),
            valid_content_ipfs(),
            1000,
        )
        .is_ok());

    assert_eq!(get_reserved_balance(&r, DOMAIN_OWNER), 10);
    assert_eq!(free_balance_of(&r, DOMAIN_OWNER), 0);
    assert_eq!(free_balance_of(&r, r.payment_beneficiary()), price);

    // The record sits under the canonical key only; the event keeps the case.
    assert!(r.registered_domain(&default_domain_lc()).is_some());
    assert!(r.registered_domain(&default_domain()).is_none());
    assert_eq!(
        r.events().last(),
        Some(&Event::DomainRegistered {
            who: DOMAIN_OWNER,
            recipient: DOMAIN_OWNER,
            domain: default_domain(),
        })
    );
}

#[test]
fn unsupported_tld_leaves_state_unchanged() {
    let mut r = ExtBuilder::default().build();
    let _ = account_with_balance(&mut r, DOMAIN_OWNER, 1000);
    let domain = bound_domain(b"domain.nosuchtld".to_vec());

    assert_eq!(
        r.register_domain(
            Origin::Signed(DOMAIN_OWNER),
            None,
            domain,
            valid_content_ipfs(),
            1000,
        ),
        Err(Error::TldNotSupported)
    );

    assert_eq!(free_balance_of(&r, DOMAIN_OWNER), 1000);
    assert_eq!(get_reserved_balance(&r, DOMAIN_OWNER), 0);
    assert!(r
        .registered_domain(&bound_domain(b"domain.nosuchtld".to_vec()))
        .is_none());
    assert_eq!(r.domains_by_owner(DOMAIN_OWNER).len(), 0);
}

#[test]
fn set_inner_value_fails_on_unregistered_domain() {
    let mut r = ExtBuilder::default().build();
    assert_eq!(
        r.set_inner_value(
            Origin::Signed(DOMAIN_OWNER),
            bound_domain(b"ghost.sub".to_vec()),
            Some(InnerValue::Space(1)),
        ),
        Err(Error::DomainNotFound)
    );
}

#[test]
fn register_fails_with_too_many_labels() {
    let mut r = ExtBuilder::default().build();
    let _ = account_with_balance(&mut r, DOMAIN_OWNER, 1000);
    assert_eq!(
        r.register_domain(
            Origin::Signed(DOMAIN_OWNER),
            None,
            bound_domain(b"abc.def.sub".to_vec()),
            valid_content_ipfs(),
            1000,
        ),
        Err(Error::TooManyLabels)
    );
}

#[test]
fn register_fails_when_no_price_tier_applies() {
    let mut r = ExtBuilder::default().build();
    let _ = account_with_balance(&mut r, DOMAIN_OWNER, 1000);
    // A three-byte subdomain is below every configured breakpoint.
    assert_eq!(
        r.register_domain(
            Origin::Signed(DOMAIN_OWNER),
            None,
            bound_domain(b"abc.sub".to_vec()),
            valid_content_ipfs(),
            1000,
        ),
        Err(Error::CannotCalculatePrice)
    );
}

#[test]
fn outer_value_deposit_is_length_times_rate() {
    let mut r = ExtBuilder::default()
        .outer_value_byte_deposit(2)
        .build_with_default_domain_registered();
    let base = ExtBuilder::default().base_domain_deposit;
    let _ = account_with_balance(&mut r, DOMAIN_OWNER, 1000);

    assert!(r
        .set_outer_value(
            Origin::Signed(DOMAIN_OWNER),
            default_domain_lc(),
            Some(default_outer_value(Some(10))),
        )
        .is_ok());
    assert_eq!(get_reserved_balance(&r, DOMAIN_OWNER), base + 10 * 2);

    assert!(r
        .set_outer_value(Origin::Signed(DOMAIN_OWNER), default_domain_lc(), None)
        .is_ok());
    assert_eq!(get_reserved_balance(&r, DOMAIN_OWNER), base);
}

#[test]
fn register_empty_name_fails() {
    let mut r = ExtBuilder::default().build();
    let _ = account_with_balance(&mut r, DOMAIN_OWNER, 1000);
    assert_eq!(
        r.register_domain(
            Origin::Signed(DOMAIN_OWNER),
            None,
            bound_domain(Vec::new()),
            valid_content_ipfs(),
            1000,
        ),
        Err(Error::TldNotSupported)
    );
}

#[test]
fn calculate_price_keeps_first_of_equal_breakpoints() {
    let r = ExtBuilder::default()
        .initial_prices(vec![(4, 100), (4, 7)])
        .build();
    assert_eq!(r.calculate_price(b"abcde".as_slice()), Some(100));
}
