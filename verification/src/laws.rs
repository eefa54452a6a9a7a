//! Laws relating the registry's operations, proved from the contracts the
//! operations themselves state. The lowercasing-idempotence and
//! split-then-join laws live next to the domain-name model in [`crate::domain`];
//! the owner-index monotonicity of registration is part of
//! `Registry::register_domain`'s own postcondition.
use vstd::prelude::*;

use crate::domain::lower_bytes;
use crate::domain::DomainName;
use crate::ledger::min_bal;
use crate::ledger::sat_add_u64;
use crate::ledger::sat_mul_u64;
use crate::registry::MAX_OUTER_VALUE_LENGTH;
use crate::registry::Registry;
use crate::registry::outer_len_of;
use crate::registry::set_inner_value_post;
use crate::registry::set_outer_value_post;
use crate::types::AccountId;
use crate::types::Error;
use crate::types::InnerValue;
use crate::types::Origin;

verus! {

/// Setting the same inner value twice in a row is rejected, not re-applied:
/// after one successful `set_inner_value`, a second call by the same signer
/// with the same domain and value fails with `InnerValueNotChanged` (and, by
/// `set_inner_value`'s own contract, an erring call leaves the registry
/// unchanged).
pub proof fn lemma_set_inner_value_idempotent_reject(
    pre: Registry,
    post: Registry,
    origin: Origin,
    domain: DomainName,
    value: Option<InnerValue>,
)
    requires
        origin.is_signed(),
        pre.lookup_domain(lower_bytes(domain@)) is Some,
        origin.signer() == pre.lookup_domain(lower_bytes(domain@)).unwrap().owner,
        set_inner_value_post(pre, post, origin.signer(), lower_bytes(domain@), value),
    ensures
        post.set_inner_value_err(origin, domain, value) == Option::Some(
            Error::InnerValueNotChanged,
        ),
{
    let key = lower_bytes(domain@);
    assert(post.lookup_domain(key).unwrap().owner == origin.signer());
    assert(post.lookup_domain(key).unwrap().inner_value == value);
}

/// The reserved-balance bookkeeping of an outer-value change is exact: the
/// stored outer-value deposit becomes the new byte length times the
/// configured rate (zero when the value is cleared), and the owner's
/// reserved balance moves by precisely the difference between the new and
/// the old deposit. The bounds asked for say only that the arithmetic stays
/// representable and that the old deposit is indeed held in reserve.
pub proof fn lemma_outer_value_deposit_exact(
    pre: Registry,
    post: Registry,
    who: AccountId,
    key: Seq<u8>,
    value: Option<Vec<u8>>,
)
    requires
        pre.lookup_domain(key) is Some,
        set_outer_value_post(pre, post, who, key, value),
        outer_len_of(value) <= MAX_OUTER_VALUE_LENGTH,
        outer_len_of(value) * pre.outer_value_byte_deposit <= u64::MAX,
        pre.ledger.reserved_of(who) >= pre.lookup_domain(key).unwrap().outer_value_deposit,
        pre.ledger.reserved_of(who) + outer_len_of(value) * pre.outer_value_byte_deposit
            <= u64::MAX,
        pre.ledger.free_of(who) + pre.lookup_domain(key).unwrap().outer_value_deposit
            <= u64::MAX,
    ensures
        post.lookup_domain(key).unwrap().outer_value_deposit == outer_len_of(value)
            * pre.outer_value_byte_deposit,
        post.ledger.reserved_of(who) - pre.ledger.reserved_of(who) == outer_len_of(value)
            * pre.outer_value_byte_deposit - pre.lookup_domain(key).unwrap().outer_value_deposit,
{
    let old_dep = pre.lookup_domain(key).unwrap().outer_value_deposit;
    let new_dep = sat_mul_u64(outer_len_of(value) as u64, pre.outer_value_byte_deposit);
    assert(new_dep == outer_len_of(value) * pre.outer_value_byte_deposit);
    if new_dep > old_dep {
    } else {
        assert(min_bal(old_dep - new_dep, pre.ledger.reserved_of(who) as int) == old_dep
            - new_dep);
        assert(sat_add_u64(pre.ledger.free_of(who), (old_dep - new_dep) as u64) == pre
            .ledger.free_of(who) + (old_dep - new_dep));
    }
}

/// Registration keeps the owner index exactly synchronised with the record
/// map. The hypotheses are `Registry::register_domain`'s own success
/// postconditions: the record map gains exactly the new canonical name, the
/// recipient's list gains exactly that name, and no other list moves.
pub proof fn lemma_register_preserves_owner_index(
    pre: Registry,
    post: Registry,
    rec: AccountId,
    key: Seq<u8>,
    meta: crate::types::DomainMeta,
)
    requires
        pre.owner_index_consistent(),
        pre.lookup_domain(key) is None,
        meta.owner == rec,
        post.domain_entries() == pre.domain_entries().push((key, meta)),
        post.owner_domain_views(rec) == pre.owner_domain_views(rec).push(key),
        forall|o: AccountId|
            o != rec ==> #[trigger] post.owner_domain_views(o) == pre.owner_domain_views(o),
    ensures
        post.owner_index_consistent(),
{
    assert forall|k: Seq<u8>| true implies #[trigger] post.lookup_domain(k) == (if k == key {
        Option::Some(meta)
    } else {
        pre.lookup_domain(k)
    }) by {
        crate::assoc::lemma_find_assoc_push(pre.domain_entries(), key, meta, k);
    }
    assert forall|o: AccountId, j: int|
        0 <= j < post.owner_domain_views(o).len() implies (match post.lookup_domain(
        #[trigger] post.owner_domain_views(o)[j],
    ) {
        Option::Some(m) => m.owner == o,
        Option::None => false,
    }) by {
        if o == rec && j == pre.owner_domain_views(rec).len() {
            assert(post.owner_domain_views(o)[j] == key);
        } else {
            assert(post.owner_domain_views(o)[j] == pre.owner_domain_views(o)[j]);
            assert(pre.owner_domain_views(o)[j] != key);
        }
    }
    assert forall|k: Seq<u8>| true implies (match #[trigger] post.lookup_domain(k) {
        Option::Some(m) => post.owner_domain_views(m.owner).contains(k),
        Option::None => true,
    }) by {
        if k == key {
            let views = post.owner_domain_views(rec);
            assert(views[views.len() - 1] == key);
        } else {
            match pre.lookup_domain(k) {
                Option::Some(m) => {
                    let j = choose|j: int|
                        0 <= j < pre.owner_domain_views(m.owner).len()
                            && pre.owner_domain_views(m.owner)[j] == k;
                    assert(post.owner_domain_views(m.owner)[j] == k);
                },
                Option::None => {},
            }
        }
    }
}

/// Rewriting one record without changing its owner (as the inner-value,
/// outer-value and content operations do) keeps the owner index exactly
/// synchronised. The hypotheses are those operations' own postconditions.
pub proof fn lemma_meta_update_preserves_owner_index(
    pre: Registry,
    post: Registry,
    key: Seq<u8>,
    m2: crate::types::DomainMeta,
)
    requires
        pre.owner_index_consistent(),
        pre.lookup_domain(key) is Some,
        m2.owner == pre.lookup_domain(key).unwrap().owner,
        post.lookup_domain(key) == Option::Some(m2),
        forall|k: Seq<u8>| k != key ==> #[trigger] post.lookup_domain(k) == pre.lookup_domain(k),
        forall|o: AccountId| #[trigger] post.owner_domain_views(o) == pre.owner_domain_views(o),
    ensures
        post.owner_index_consistent(),
{
    assert forall|o: AccountId, j: int|
        0 <= j < post.owner_domain_views(o).len() implies (match post.lookup_domain(
        #[trigger] post.owner_domain_views(o)[j],
    ) {
        Option::Some(m) => m.owner == o,
        Option::None => false,
    }) by {
        let k = post.owner_domain_views(o)[j];
        assert(pre.owner_domain_views(o)[j] == k);
    }
    assert forall|k: Seq<u8>| true implies (match #[trigger] post.lookup_domain(k) {
        Option::Some(m) => post.owner_domain_views(m.owner).contains(k),
        Option::None => true,
    }) by {
        match post.lookup_domain(k) {
            Option::Some(m) => {
                let owner = m.owner;
                assert(pre.lookup_domain(k) is Some);
                assert(pre.lookup_domain(k).unwrap().owner == owner);
                let j = choose|j: int|
                    0 <= j < pre.owner_domain_views(owner).len() && pre.owner_domain_views(
                        owner,
                    )[j] == k;
                assert(post.owner_domain_views(owner)[j] == k);
            },
            Option::None => {},
        }
    }
}

/// An inner-value change keeps every inner-value index entry pointing at a
/// live record with exactly that owner and value: the new pair points at the
/// rewritten record, the old pair is gone, and every untouched pair still
/// points where it did. The hypotheses are `Registry::set_inner_value`'s own
/// success postconditions.
pub proof fn lemma_set_inner_value_preserves_index(
    pre: Registry,
    post: Registry,
    who: AccountId,
    key: Seq<u8>,
    value: Option<InnerValue>,
)
    requires
        pre.inner_value_index_consistent(),
        pre.lookup_domain(key) is Some,
        pre.lookup_domain(key).unwrap().owner == who,
        set_inner_value_post(pre, post, who, key, value),
    ensures
        post.inner_value_index_consistent(),
{
    let m = pre.lookup_domain(key).unwrap();
    assert forall|a: AccountId, v: InnerValue| true implies (match #[trigger] post.ivi_view(
        a,
        v,
    ) {
        Option::Some(k) => match post.lookup_domain(k) {
            Option::Some(m3) => m3.owner == a && m3.inner_value == Option::Some(v),
            Option::None => false,
        },
        Option::None => true,
    }) by {
        if a == who && Option::Some(v) == value {
        } else if a == who && Option::Some(v) == m.inner_value {
        } else {
            match pre.ivi_view(a, v) {
                Option::Some(k) => {
                    let m1 = pre.lookup_domain(k).unwrap();
                    assert(m1.owner == a && m1.inner_value == Option::Some(v));
                    assert(k != key);
                },
                Option::None => {},
            }
        }
    }
}

} // verus!
