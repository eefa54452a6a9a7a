//! The pricing engine: maps a subdomain's byte length to a registration
//! price through a configurable length/price table with tightest-lower-bound
//! lookup.
use vstd::prelude::*;

use crate::types::Balance;

verus! {

/// The tier that applies to a label length: among the configured entries
/// whose length does not exceed it, the one with the greatest length (the
/// earliest such entry when lengths repeat). `None` when the label is
/// shorter than every configured length.
pub open spec fn best_price_entry(table: Seq<(u32, Balance)>, len: nat) -> Option<(u32, Balance)>
    decreases table.len(),
{
    if table.len() == 0 {
        Option::None
    } else {
        let prev = best_price_entry(table.drop_last(), len);
        let last = table.last();
        if last.0 as nat <= len {
            match prev {
                Option::None => Option::Some(last),
                Option::Some(e) => if last.0 > e.0 {
                    Option::Some(last)
                } else {
                    Option::Some(e)
                },
            }
        } else {
            prev
        }
    }
}

/// The configured price for a subdomain of the given byte length.
pub open spec fn price_for(table: Seq<(u32, Balance)>, len: nat) -> Option<Balance> {
    match best_price_entry(table, len) {
        Option::Some(e) => Option::Some(e.1),
        Option::None => Option::None,
    }
}

/// Finds the applicable price in a table left exactly as the administrator
/// supplied it; no ordering of the entries is assumed.
pub fn calculate_price_in(table: &Vec<(u32, Balance)>, subdomain_len: usize) -> (r: Option<
    Balance,
>)
    ensures
        r == price_for(table@, subdomain_len as nat),
{
    let mut best: Option<(u32, Balance)> = Option::None;
    let mut i: usize = 0;
    while i < table.len()
        invariant
            i <= table@.len(),
            best == best_price_entry(table@.subrange(0, i as int), subdomain_len as nat),
        decreases table@.len() - i,
    {
        proof {
            assert(table@.subrange(0, i + 1).drop_last() =~= table@.subrange(0, i as int));
            assert(table@.subrange(0, i + 1).last() == table@[i as int]);
        }
        let (l, p) = table[i];
        if l as usize <= subdomain_len {
            match best {
                Option::None => {
                    best = Option::Some((l, p));
                },
                Option::Some((bl, _)) => {
                    if l > bl {
                        best = Option::Some((l, p));
                    }
                },
            }
        }
        i = i + 1;
    }
    proof {
        assert(table@.subrange(0, table@.len() as int) =~= table@);
    }
    match best {
        Option::Some((_, p)) => Option::Some(p),
        Option::None => Option::None,
    }
}

} // verus!
