//! Versioned names `BASE__N`: each base and version give a different name.

use vstd::prelude::*;

use crate::text::{decimal, digit_char};

verus! {

/// The name of version `v` of `base`.
pub open spec fn versioned(base: Seq<char>, v: nat) -> Seq<char> {
    base + seq!['_', '_'] + decimal(v)
}

/// Whether `c` is a decimal digit.
pub open spec fn is_digit(c: char) -> bool {
    '0' <= c <= '9'
}

proof fn lemma_digit_char(d: nat)
    requires
        d < 10,
    ensures
        is_digit(digit_char(d)),
        forall|e: nat| e < 10 && #[trigger] digit_char(e) == digit_char(d) ==> e == d,
{
}

/// A numeral is a non-empty string of digits, and a numeral of ten or more
/// has at least two digits.
pub proof fn lemma_decimal_digits(n: nat)
    ensures
        decimal(n).len() >= 1,
        n >= 10 ==> decimal(n).len() >= 2,
        forall|i: int| 0 <= i < decimal(n).len() ==> is_digit(#[trigger] decimal(n)[i]),
    decreases n,
{
    lemma_digit_char(n % 10);
    if n >= 10 {
        lemma_decimal_digits(n / 10);
        let p = decimal(n / 10);
        assert forall|i: int| 0 <= i < decimal(n).len() implies is_digit(#[trigger] decimal(n)[i]) by {
            if i < p.len() {
                assert(decimal(n)[i] == p[i]);
            }
        }
    }
}

/// Different numbers have different numerals.
pub proof fn lemma_decimal_injective(a: nat, b: nat)
    requires
        decimal(a) == decimal(b),
    ensures
        a == b,
    decreases a,
{
    lemma_decimal_digits(a);
    lemma_decimal_digits(b);
    if a < 10 && b < 10 {
        lemma_digit_char(a);
        assert(decimal(a) == seq![digit_char(a)]);
        assert(decimal(b) == seq![digit_char(b)]);
        assert(seq![digit_char(a)][0] == digit_char(a));
        assert(seq![digit_char(b)][0] == digit_char(b));
        assert(digit_char(a) == digit_char(b));
    } else if a >= 10 && b >= 10 {
        let da = decimal(a);
        let db = decimal(b);
        assert(da.last() == db.last());
        lemma_digit_char(a % 10);
        assert(digit_char(a % 10) == digit_char(b % 10));
        assert(da.drop_last() =~= decimal(a / 10));
        assert(db.drop_last() =~= decimal(b / 10));
        lemma_decimal_injective(a / 10, b / 10);
    } else {
        assert(decimal(a).len() != decimal(b).len());
    }
}

/// A versioned name determines its base and its version.
pub proof fn lemma_versioned_injective(b1: Seq<char>, v1: nat, b2: Seq<char>, v2: nat)
    requires
        versioned(b1, v1) == versioned(b2, v2),
    ensures
        b1 == b2,
        v1 == v2,
{
    let s = versioned(b1, v1);
    let d1 = decimal(v1);
    let d2 = decimal(v2);
    lemma_decimal_digits(v1);
    lemma_decimal_digits(v2);
    assert(s.len() == b1.len() + 2 + d1.len());
    assert(s.len() == b2.len() + 2 + d2.len());
    if d1.len() < d2.len() {
        let p = s.len() - d1.len() - 1;
        assert(s[p] == '_');
        assert(s[p] == d2[p - b2.len() - 2]);
        assert(is_digit(d2[p - b2.len() - 2]));
    } else if d2.len() < d1.len() {
        let p = s.len() - d2.len() - 1;
        assert(s[p] == '_');
        assert(s[p] == d1[p - b1.len() - 2]);
        assert(is_digit(d1[p - b1.len() - 2]));
    } else {
        assert(d1 =~= s.subrange(s.len() - d1.len(), s.len() as int));
        assert(d2 =~= s.subrange(s.len() - d2.len(), s.len() as int));
        lemma_decimal_injective(v1, v2);
        assert(b1 =~= s.subrange(0, b1.len() as int));
        assert(b2 =~= s.subrange(0, b2.len() as int));
    }
}

/// Whether `x` is one of `log[lo..hi]`.
pub open spec fn occurs_in(log: Seq<Seq<char>>, lo: int, hi: int, x: Seq<char>) -> bool {
    exists|k: int| lo <= k < hi && #[trigger] log[k] == x
}

/// The names of `t` are distinct and each is one of `log[lo..hi]`.
pub open spec fn drawn_from(t: Seq<Seq<char>>, log: Seq<Seq<char>>, lo: int, hi: int) -> bool {
    &&& t.no_duplicates()
    &&& forall|i: int| 0 <= i < t.len() ==> #[trigger] occurs_in(log, lo, hi, t[i])
}

/// Names drawn from two disjoint stretches of a log without repeats are
/// distinct.
pub proof fn lemma_drawn_concat(t1: Seq<Seq<char>>, t2: Seq<Seq<char>>, log: Seq<Seq<char>>, a: int, b: int, c: int)
    requires
        0 <= a <= b <= c <= log.len(),
        log.no_duplicates(),
        drawn_from(t1, log, a, b),
        drawn_from(t2, log, b, c),
    ensures
        drawn_from(t1 + t2, log, a, c),
{
    let t = t1 + t2;
    assert forall|i: int, j: int| 0 <= i < t.len() && 0 <= j < t.len() && i != j implies t[i] != t[j] by {
        if i < t1.len() && j >= t1.len() {
            assert(occurs_in(log, a, b, t1[i]));
            assert(occurs_in(log, b, c, t2[j - t1.len()]));
            let ki = choose|k: int| a <= k < b && #[trigger] log[k] == t1[i];
            let kj = choose|k: int| b <= k < c && #[trigger] log[k] == t2[j - t1.len()];
            assert(ki != kj);
        } else if j < t1.len() && i >= t1.len() {
            assert(occurs_in(log, a, b, t1[j]));
            assert(occurs_in(log, b, c, t2[i - t1.len()]));
            let kj = choose|k: int| a <= k < b && #[trigger] log[k] == t1[j];
            let ki = choose|k: int| b <= k < c && #[trigger] log[k] == t2[i - t1.len()];
            assert(ki != kj);
        } else if i < t1.len() {
            assert(t[i] == t1[i] && t[j] == t1[j]);
        } else {
            assert(t[i] == t2[i - t1.len()] && t[j] == t2[j - t1.len()]);
        }
    }
    assert forall|i: int| 0 <= i < t.len() implies #[trigger] occurs_in(log, a, c, t[i]) by {
        if i < t1.len() {
            assert(occurs_in(log, a, b, t1[i]));
            let k = choose|k: int| a <= k < b && #[trigger] log[k] == t1[i];
            assert(log[k] == t[i]);
        } else {
            assert(occurs_in(log, b, c, t2[i - t1.len()]));
            let k = choose|k: int| b <= k < c && #[trigger] log[k] == t2[i - t1.len()];
            assert(log[k] == t[i]);
        }
    }
}

/// `log2` begins with `log1`.
pub open spec fn log_extends(log2: Seq<Seq<char>>, log1: Seq<Seq<char>>) -> bool {
    &&& log1.len() <= log2.len()
    &&& forall|i: int| 0 <= i < log1.len() ==> #[trigger] log2[i] == log1[i]
}

/// Drawing from a stretch stays true of a longer log with the same start,
/// and of a wider stretch.
pub proof fn lemma_drawn_extend(t: Seq<Seq<char>>, log: Seq<Seq<char>>, log2: Seq<Seq<char>>, a: int, b: int, a2: int, b2: int)
    requires
        drawn_from(t, log, a, b),
        0 <= a2 <= a,
        b <= b2 <= log2.len(),
        b <= log.len(),
        log_extends(log2, log),
    ensures
        drawn_from(t, log2, a2, b2),
{
    assert forall|i: int| 0 <= i < t.len() implies #[trigger] occurs_in(log2, a2, b2, t[i]) by {
        assert(occurs_in(log, a, b, t[i]));
        let k = choose|k: int| a <= k < b && #[trigger] log[k] == t[i];
        assert(log2[k] == t[i]);
    }
}

/// No name is drawn from an empty stretch.
pub proof fn lemma_drawn_empty(log: Seq<Seq<char>>, a: int)
    ensures
        drawn_from(Seq::empty(), log, a, a),
{
}

/// The one name at `log[k]` is drawn from `log[k..k + 1]`.
pub proof fn lemma_drawn_single(log: Seq<Seq<char>>, k: int)
    requires
        0 <= k < log.len(),
    ensures
        drawn_from(seq![log[k]], log, k, k + 1),
{
    assert(log[k] == seq![log[k]][0]);
    assert(occurs_in(log, k, k + 1, seq![log[k]][0]));
}

/// Names drawn from two disjoint stretches of a log without repeats are
/// distinct, and all lie in a stretch that covers both.
pub proof fn lemma_drawn_union(
    t1: Seq<Seq<char>>,
    t2: Seq<Seq<char>>,
    log: Seq<Seq<char>>,
    a1: int,
    b1: int,
    a2: int,
    b2: int,
    lo: int,
    hi: int,
)
    requires
        log.no_duplicates(),
        drawn_from(t1, log, a1, b1),
        drawn_from(t2, log, a2, b2),
        b1 <= a2 || b2 <= a1,
        0 <= lo,
        lo <= a1,
        lo <= a2,
        b1 <= hi,
        b2 <= hi,
        hi <= log.len(),
    ensures
        drawn_from(t1 + t2, log, lo, hi),
{
    let t = t1 + t2;
    assert forall|i: int, j: int| 0 <= i < t.len() && 0 <= j < t.len() && i != j implies t[i] != t[j] by {
        if i < t1.len() && j >= t1.len() {
            assert(occurs_in(log, a1, b1, t1[i]));
            assert(occurs_in(log, a2, b2, t2[j - t1.len()]));
            let ki = choose|k: int| a1 <= k < b1 && #[trigger] log[k] == t1[i];
            let kj = choose|k: int| a2 <= k < b2 && #[trigger] log[k] == t2[j - t1.len()];
            assert(ki != kj);
        } else if j < t1.len() && i >= t1.len() {
            assert(occurs_in(log, a1, b1, t1[j]));
            assert(occurs_in(log, a2, b2, t2[i - t1.len()]));
            let kj = choose|k: int| a1 <= k < b1 && #[trigger] log[k] == t1[j];
            let ki = choose|k: int| a2 <= k < b2 && #[trigger] log[k] == t2[i - t1.len()];
            assert(ki != kj);
        } else if i < t1.len() {
            assert(t[i] == t1[i] && t[j] == t1[j]);
        } else {
            assert(t[i] == t2[i - t1.len()] && t[j] == t2[j - t1.len()]);
        }
    }
    assert forall|i: int| 0 <= i < t.len() implies #[trigger] occurs_in(log, lo, hi, t[i]) by {
        if i < t1.len() {
            assert(occurs_in(log, a1, b1, t1[i]));
            let k = choose|k: int| a1 <= k < b1 && #[trigger] log[k] == t1[i];
            assert(log[k] == t[i]);
        } else {
            assert(occurs_in(log, a2, b2, t2[i - t1.len()]));
            let k = choose|k: int| a2 <= k < b2 && #[trigger] log[k] == t2[i - t1.len()];
            assert(log[k] == t[i]);
        }
    }
}

} // verus!
