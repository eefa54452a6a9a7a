//! The domain-name model: length-bounded byte strings, canonical lowercasing,
//! and splitting a dotted name into its labels.
use vstd::prelude::*;

verus! {

/// Longest byte length a full dotted domain name may have.
pub const MAX_DOMAIN_LENGTH: usize = 63;

/// The ASCII dot that separates labels.
pub const DOT: u8 = 46;

/// The ASCII hyphen, the one punctuation character a label may contain.
pub const HYPHEN: u8 = 45;

/// ASCII code points bounding the character classes a label may use.
pub const UPPER_A: u8 = 65;

pub const UPPER_Z: u8 = 90;

pub const LOWER_A: u8 = 97;

pub const LOWER_Z: u8 = 122;

pub const DIGIT_0: u8 = 48;

pub const DIGIT_9: u8 = 57;

/// A length-bounded byte string holding a dotted domain name or a single label.
#[derive(Clone, PartialEq, Eq, Debug)]
pub struct DomainName {
    pub bytes: Vec<u8>,
}

impl View for DomainName {
    type V = Seq<u8>;

    open spec fn view(&self) -> Seq<u8> {
        self.bytes@
    }
}

impl DomainName {
    /// The length bound every stored name obeys.
    pub open spec fn wf(self) -> bool {
        self@.len() <= MAX_DOMAIN_LENGTH
    }

    pub fn len(&self) -> (n: usize)
        ensures
            n == self@.len(),
    {
        self.bytes.len()
    }

    pub fn as_bytes(&self) -> (r: &Vec<u8>)
        ensures
            r@ == self@,
    {
        &self.bytes
    }

    /// A fresh copy of the same bytes.
    pub fn duplicate(&self) -> (r: DomainName)
        ensures
            r@ == self@,
    {
        DomainName { bytes: clone_bytes(&self.bytes) }
    }

    pub fn to_vec(&self) -> (r: Vec<u8>)
        ensures
            r@ == self@,
    {
        clone_bytes(&self.bytes)
    }
}

/// A fresh copy of a byte vector.
pub fn clone_bytes(v: &Vec<u8>) -> (r: Vec<u8>)
    ensures
        r@ == v@,
{
    let mut r: Vec<u8> = Vec::new();
    let mut i: usize = 0;
    while i < v.len()
        invariant
            i <= v@.len(),
            r@ == v@.subrange(0, i as int),
        decreases v@.len() - i,
    {
        r.push(v[i]);
        proof {
            assert(r@ =~= v@.subrange(0, i + 1));
        }
        i = i + 1;
    }
    proof {
        assert(r@ =~= v@);
    }
    r
}

/// Whether two byte vectors hold the same bytes.
pub fn bytes_eq(a: &Vec<u8>, b: &Vec<u8>) -> (r: bool)
    ensures
        r == (a@ == b@),
{
    if a.len() != b.len() {
        return false;
    }
    let mut i: usize = 0;
    while i < a.len()
        invariant
            i <= a@.len(),
            a@.len() == b@.len(),
            forall|k: int| 0 <= k < i ==> a@[k] == b@[k],
        decreases a@.len() - i,
    {
        if a[i] != b[i] {
            return false;
        }
        i = i + 1;
    }
    proof {
        assert(a@ =~= b@);
    }
    true
}

/// Wraps raw bytes into a bounded name; callers reject longer inputs first.
pub fn bound_domain(bytes: Vec<u8>) -> (r: DomainName)
    requires
        bytes@.len() <= MAX_DOMAIN_LENGTH,
    ensures
        r@ == bytes@,
        r.wf(),
{
    DomainName { bytes }
}

/// The canonical form of one byte: ASCII uppercase mapped to lowercase.
pub open spec fn lower_byte(b: u8) -> u8 {
    if UPPER_A <= b && b <= UPPER_Z {
        (b + 32) as u8
    } else {
        b
    }
}

/// The canonical (lowercased) form of a byte string.
pub open spec fn lower_bytes(s: Seq<u8>) -> Seq<u8> {
    s.map_values(|b: u8| lower_byte(b))
}

/// Lowercasing is idempotent: canonicalising a canonical name changes nothing.
pub proof fn lemma_lower_idempotent(s: Seq<u8>)
    ensures
        lower_bytes(lower_bytes(s)) == lower_bytes(s),
{
    assert forall|i: int| 0 <= i < s.len() implies lower_byte(
        #[trigger] lower_bytes(s)[i],
    ) == lower_bytes(s)[i] by {
        assert(lower_bytes(s)[i] == lower_byte(s[i]));
    }
    assert(lower_bytes(lower_bytes(s)) =~= lower_bytes(s));
}

/// Returns the canonical (fully lowercased) copy of a name.
pub fn lower_domain_then_bound(d: &DomainName) -> (r: DomainName)
    requires
        d.wf(),
    ensures
        r@ == lower_bytes(d@),
        r.wf(),
{
    let s = &d.bytes;
    let mut out: Vec<u8> = Vec::new();
    let mut i: usize = 0;
    while i < s.len()
        invariant
            i <= s@.len(),
            out@.len() == i,
            forall|k: int| 0 <= k < i ==> out@[k] == lower_byte(#[trigger] s@[k]),
        decreases s@.len() - i,
    {
        let b = s[i];
        if UPPER_A <= b && b <= UPPER_Z {
            out.push(b + 32);
        } else {
            out.push(b);
        }
        i = i + 1;
    }
    proof {
        assert(out@ =~= lower_bytes(d@));
    }
    DomainName { bytes: out }
}

/// Joins labels back into a dotted byte string.
pub open spec fn join_dot(labels: Seq<Seq<u8>>) -> Seq<u8>
    decreases labels.len(),
{
    if labels.len() == 0 {
        Seq::empty()
    } else if labels.len() == 1 {
        labels[0]
    } else {
        labels[0] + seq![DOT] + join_dot(labels.drop_first())
    }
}

/// Splits a byte string on every dot; boundary dots yield empty labels.
pub open spec fn split_dot(s: Seq<u8>) -> Seq<Seq<u8>>
    decreases s.len(),
{
    if s.len() == 0 {
        seq![Seq::<u8>::empty()]
    } else if s[0] == DOT {
        seq![Seq::<u8>::empty()] + split_dot(s.drop_first())
    } else {
        let rest = split_dot(s.drop_first());
        seq![seq![s[0]] + rest[0]] + rest.drop_first()
    }
}

pub proof fn lemma_split_dot_len(s: Seq<u8>)
    ensures
        split_dot(s).len() >= 1,
    decreases s.len(),
{
    if s.len() == 0 {
    } else {
        lemma_split_dot_len(s.drop_first());
    }
}

/// Splitting a dot-free string yields that one label.
pub proof fn lemma_split_no_dot(s: Seq<u8>)
    requires
        forall|i: int| 0 <= i < s.len() ==> s[i] != DOT,
    ensures
        split_dot(s) == seq![s],
    decreases s.len(),
{
    if s.len() == 0 {
        assert(split_dot(s) =~~= seq![s]);
    } else {
        lemma_split_no_dot(s.drop_first());
        let rest = split_dot(s.drop_first());
        assert(rest == seq![s.drop_first()]);
        assert(seq![s[0]] + rest[0] =~= s);
        assert(rest.drop_first() =~= Seq::<Seq<u8>>::empty());
        assert(split_dot(s) =~= seq![s]);
    }
}

/// Splitting `a . b` with a dot-free `a` peels off `a` as the first label.
pub proof fn lemma_split_prepend(a: Seq<u8>, b: Seq<u8>)
    requires
        forall|i: int| 0 <= i < a.len() ==> a[i] != DOT,
    ensures
        split_dot(a + seq![DOT] + b) == seq![a] + split_dot(b),
    decreases a.len(),
{
    let s = a + seq![DOT] + b;
    if a.len() == 0 {
        assert(s.drop_first() =~= b);
        assert(s[0] == DOT);
        assert(seq![Seq::<u8>::empty()] =~~= seq![a]);
        assert(split_dot(s) == seq![a] + split_dot(b));
    } else {
        lemma_split_prepend(a.drop_first(), b);
        assert(s[0] == a[0]);
        assert(s.drop_first() =~= a.drop_first() + seq![DOT] + b);
        let rest = split_dot(s.drop_first());
        assert(rest == seq![a.drop_first()] + split_dot(b));
        lemma_split_dot_len(b);
        assert(rest[0] == a.drop_first());
        assert(seq![s[0]] + rest[0] =~= a);
        assert(rest.drop_first() =~= split_dot(b));
        assert(split_dot(s) =~= seq![a] + split_dot(b));
    }
}

/// Rejoining the labels of a split with dots rebuilds the original bytes.
pub proof fn lemma_split_then_join(s: Seq<u8>)
    ensures
        join_dot(split_dot(s)) == s,
    decreases s.len(),
{
    if s.len() == 0 {
        assert(join_dot(split_dot(s)) =~= s);
    } else if s[0] == DOT {
        lemma_split_then_join(s.drop_first());
        lemma_split_dot_len(s.drop_first());
        let rest = split_dot(s.drop_first());
        let whole = seq![Seq::<u8>::empty()] + rest;
        assert(whole.drop_first() =~= rest);
        assert(whole.len() >= 2);
        assert(join_dot(whole) == whole[0] + seq![DOT] + join_dot(rest));
        assert(whole[0] + seq![DOT] + join_dot(rest) =~= s);
    } else {
        lemma_split_then_join(s.drop_first());
        lemma_split_dot_len(s.drop_first());
        let rest = split_dot(s.drop_first());
        let whole = seq![seq![s[0]] + rest[0]] + rest.drop_first();
        if rest.len() == 1 {
            assert(join_dot(rest) == rest[0]);
            assert(whole.len() == 1);
            assert(join_dot(whole) == seq![s[0]] + rest[0]);
            assert(seq![s[0]] + rest[0] =~= s);
        } else {
            assert(whole.drop_first() =~= rest.drop_first());
            assert(join_dot(rest) == rest[0] + seq![DOT] + join_dot(rest.drop_first()));
            assert(join_dot(whole) == (seq![s[0]] + rest[0]) + seq![DOT] + join_dot(
                rest.drop_first(),
            ));
            assert((seq![s[0]] + rest[0]) + seq![DOT] + join_dot(rest.drop_first()) =~= seq![s[0]]
                + join_dot(rest));
            assert(seq![s[0]] + join_dot(rest) =~= s);
        }
    }
}

/// Splits a name on every literal dot; the last element is the TLD.
pub fn split_domain_by_dot(d: &DomainName) -> (r: Vec<DomainName>)
    requires
        d.wf(),
    ensures
        r@.map_values(|x: DomainName| x@) == split_dot(d@),
        forall|j: int| 0 <= j < r@.len() ==> (#[trigger] r@[j]).wf(),
        r@.len() >= 1,
{
    let s = &d.bytes;
    let n = s.len();
    let mut done: Vec<DomainName> = Vec::new();
    let mut cur: Vec<u8> = Vec::new();
    let ghost mut label_start: int = 0;
    let mut i: usize = 0;
    proof {
        assert(s@.skip(0) =~= s@);
        assert(done@.map_values(|x: DomainName| x@) + split_dot(s@) =~= split_dot(s@));
        assert(cur@ =~= s@.subrange(0, 0));
    }
    while i < n
        invariant
            i <= n,
            n == s@.len(),
            s@.len() <= MAX_DOMAIN_LENGTH,
            0 <= label_start <= i,
            cur@ == s@.subrange(label_start, i as int),
            forall|k: int| label_start <= k < i ==> s@[k] != DOT,
            split_dot(s@) == done@.map_values(|x: DomainName| x@) + split_dot(
                s@.skip(label_start),
            ),
            forall|j: int| 0 <= j < done@.len() ==> (#[trigger] done@[j]).wf(),
        decreases n - i,
    {
        let b = s[i];
        if b == DOT {
            proof {
                assert(s@.skip(label_start) =~= cur@ + seq![DOT] + s@.skip(i + 1));
                lemma_split_prepend(cur@, s@.skip(i + 1));
            }
            let ghost old_done = done@;
            let finished = DomainName { bytes: cur };
            done.push(finished);
            cur = Vec::new();
            proof {
                assert(done@.map_values(|x: DomainName| x@) =~= old_done.map_values(
                    |x: DomainName| x@,
                ).push(s@.subrange(label_start, i as int)));
                label_start = i + 1;
                assert(done@.map_values(|x: DomainName| x@) + split_dot(s@.skip(label_start))
                    =~= split_dot(s@));
                assert(cur@ =~= s@.subrange(label_start, i + 1));
            }
        } else {
            cur.push(b);
            proof {
                assert(cur@ =~= s@.subrange(label_start, i + 1));
            }
        }
        i = i + 1;
    }
    proof {
        assert(s@.skip(label_start) =~= cur@);
        lemma_split_no_dot(cur@);
    }
    let ghost old_done = done@;
    done.push(DomainName { bytes: cur });
    proof {
        assert(done@.map_values(|x: DomainName| x@) =~= old_done.map_values(|x: DomainName| x@)
            + split_dot(s@.skip(label_start)));
        lemma_split_dot_len(s@);
    }
    done
}

/// The label with every hyphen removed; reserved words are matched this way.
pub open spec fn strip_hyphens(s: Seq<u8>) -> Seq<u8>
    decreases s.len(),
{
    if s.len() == 0 {
        Seq::empty()
    } else {
        let r = strip_hyphens(s.drop_last());
        if s.last() == HYPHEN {
            r
        } else {
            r.push(s.last())
        }
    }
}

/// Removes every hyphen from a label.
pub fn strip_hyphens_exec(word: &DomainName) -> (r: DomainName)
    requires
        word.wf(),
    ensures
        r@ == strip_hyphens(word@),
        r.wf(),
{
    let s = &word.bytes;
    let mut out: Vec<u8> = Vec::new();
    let mut i: usize = 0;
    while i < s.len()
        invariant
            i <= s@.len(),
            out@ == strip_hyphens(s@.subrange(0, i as int)),
            out@.len() <= i,
        decreases s@.len() - i,
    {
        proof {
            assert(s@.subrange(0, i + 1).drop_last() =~= s@.subrange(0, i as int));
        }
        let b = s[i];
        if b != HYPHEN {
            out.push(b);
        }
        i = i + 1;
    }
    proof {
        assert(s@.subrange(0, s@.len() as int) =~= s@);
    }
    DomainName { bytes: out }
}

/// The character-class and hyphen-placement rules a single label must obey:
/// only ASCII alphanumerics and hyphens, no hyphen at either end, and no two
/// hyphens in a row.
pub open spec fn valid_domain_char(b: u8) -> bool {
    (LOWER_A <= b && b <= LOWER_Z) || (UPPER_A <= b && b <= UPPER_Z) || (DIGIT_0 <= b && b <= DIGIT_9) || b == HYPHEN
}

pub open spec fn word_chars_valid(s: Seq<u8>) -> bool {
    &&& forall|i: int| 0 <= i < s.len() ==> valid_domain_char(#[trigger] s[i])
    &&& s.len() > 0 ==> s[0] != HYPHEN && s[s.len() - 1] != HYPHEN
    &&& forall|i: int| 0 < i < s.len() ==> !(#[trigger] s[i] == HYPHEN && s[i - 1] == HYPHEN)
}

/// Checks one label against the character rules.
pub fn check_word_chars(word: &DomainName) -> (r: bool)
    ensures
        r == word_chars_valid(word@),
{
    let s = &word.bytes;
    let n = s.len();
    let mut i: usize = 0;
    while i < n
        invariant
            i <= n,
            n == s@.len(),
            s@ == word@,
            forall|k: int| 0 <= k < i ==> valid_domain_char(#[trigger] s@[k]),
            i > 0 ==> s@[0] != HYPHEN,
            forall|k: int| 0 < k < i ==> !(#[trigger] s@[k] == HYPHEN && s@[k - 1] == HYPHEN),
            forall|k: int| 0 <= k < i && k + 1 == n ==> s@[k] != HYPHEN,
        decreases n - i,
    {
        let b = s[i];
        let is_alnum = (LOWER_A <= b && b <= LOWER_Z) || (UPPER_A <= b && b <= UPPER_Z) || (DIGIT_0 <= b && b
            <= DIGIT_9);
        if !is_alnum && b != HYPHEN {
            proof {
                assert(!valid_domain_char(word@[i as int]));
                assert(!word_chars_valid(word@));
            }
            return false;
        }
        if b == HYPHEN {
            if i == 0 || i + 1 == n {
                proof {
                    assert(word@[i as int] == HYPHEN);
                    assert(word@.len() > 0);
                    assert(!word_chars_valid(word@));
                }
                return false;
            }
            if s[i - 1] == HYPHEN {
                proof {
                    assert(word@[i as int] == HYPHEN && word@[i as int - 1] == HYPHEN);
                    assert(!word_chars_valid(word@));
                }
                return false;
            }
        }
        i = i + 1;
    }
    true
}

} // verus!
