use vstd::prelude::*;

verus! {

/// The characters of `s`, in order.
pub fn chars_of(s: &str) -> (out: Vec<char>)
    ensures
        out@ == s@,
{
    let mut out: Vec<char> = Vec::new();
    for c in it: s.chars()
        invariant
            out@ == it.seq().take(it.index() as int),
            it.seq() == s@,
    {
        out.push(c);
    }
    out
}

/// Appends one character to a string.
#[verifier::external_body]
pub(crate) fn push_char(s: &mut String, c: char)
    ensures
        final(s)@ == old(s)@.push(c),
{
    s.push(c);
}


} // verus!

verus! {

/// An owned copy of `s`.
pub fn str_to_string(s: &str) -> (r: String)
    ensures
        r@ == s@,
{
    s.to_owned()
}

/// Whether `a` and `b` hold the same characters.
pub fn string_eq(a: &String, b: &String) -> (r: bool)
    ensures
        r == (a@ == b@),
{
    *a == *b
}

/// A copy of `s`.
pub fn copy_string(s: &String) -> (r: String)
    ensures
        r == *s,
        r@ == s@,
{
    s.clone()
}

} // verus!

verus! {

pub open spec fn is_space(c: char) -> bool {
    c == ' ' || c == '\t' || c == '\n' || c == '\r'
}

pub fn space(c: char) -> (r: bool)
    ensures
        r == is_space(c),
{
    c == ' ' || c == '\t' || c == '\n' || c == '\r'
}

/// The bounds of `chars[start..end]` with surrounding spaces removed.
pub fn trim_bounds(chars: &Vec<char>, start: usize, end: usize) -> (r: (usize, usize))
    requires
        start <= end <= chars@.len(),
    ensures
        start <= r.0 <= r.1 <= end,
        forall|k: int| start <= k < r.0 ==> is_space(#[trigger] chars@[k]),
        forall|k: int| r.1 <= k < end ==> is_space(#[trigger] chars@[k]),
        r.0 < r.1 ==> !is_space(chars@[r.0 as int]) && !is_space(chars@[r.1 - 1]),
{
    let mut a = start;
    while a < end && space(chars[a])
        invariant
            start <= a <= end <= chars@.len(),
            forall|k: int| start <= k < a ==> is_space(#[trigger] chars@[k]),
        decreases end - a,
    {
        a += 1;
    }
    let mut b = end;
    while b > a && space(chars[b - 1])
        invariant
            a <= b <= end <= chars@.len(),
            forall|k: int| b <= k < end ==> is_space(#[trigger] chars@[k]),
        decreases b,
    {
        b -= 1;
    }
    (a, b)
}

/// `s` without its leading spaces.
pub open spec fn trim_front(s: Seq<char>) -> Seq<char>
    decreases s.len(),
{
    if s.len() > 0 && is_space(s[0]) {
        trim_front(s.drop_first())
    } else {
        s
    }
}

/// `s` without its trailing spaces.
pub open spec fn trim_back(s: Seq<char>) -> Seq<char>
    decreases s.len(),
{
    if s.len() > 0 && is_space(s.last()) {
        trim_back(s.drop_last())
    } else {
        s
    }
}

/// `s` without its surrounding spaces.
pub open spec fn trim(s: Seq<char>) -> Seq<char> {
    trim_back(trim_front(s))
}

proof fn lemma_trim_front(s: Seq<char>, k: int)
    requires
        0 <= k <= s.len(),
        forall|j: int| 0 <= j < k ==> is_space(#[trigger] s[j]),
        k < s.len() ==> !is_space(s[k]),
    ensures
        trim_front(s) == s.subrange(k, s.len() as int),
    decreases k,
{
    if k == 0 {
        assert(s.subrange(0, s.len() as int) =~= s);
    } else {
        let t = s.drop_first();
        assert forall|j: int| 0 <= j < k - 1 implies is_space(#[trigger] t[j]) by {
            assert(t[j] == s[j + 1]);
        }
        lemma_trim_front(t, k - 1);
        assert(t.subrange(k - 1, t.len() as int) =~= s.subrange(k, s.len() as int));
    }
}

proof fn lemma_trim_back(s: Seq<char>, k: int)
    requires
        0 <= k <= s.len(),
        forall|j: int| k <= j < s.len() ==> is_space(#[trigger] s[j]),
        k > 0 ==> !is_space(s[k - 1]),
    ensures
        trim_back(s) == s.subrange(0, k),
    decreases s.len() - k,
{
    if k == s.len() {
        assert(s.subrange(0, k) =~= s);
    } else {
        let t = s.drop_last();
        lemma_trim_back(t, k);
        assert(t.subrange(0, k) =~= s.subrange(0, k));
    }
}

/// The bounds that `trim_bounds` finds delimit the trimmed characters.
pub proof fn lemma_trim_bounds(chars: Seq<char>, start: int, end: int, a: int, b: int)
    requires
        0 <= start <= a <= b <= end <= chars.len(),
        forall|k: int| start <= k < a ==> is_space(#[trigger] chars[k]),
        forall|k: int| b <= k < end ==> is_space(#[trigger] chars[k]),
        a < b ==> !is_space(chars[a]) && !is_space(chars[b - 1]),
    ensures
        chars.subrange(a, b) == trim(chars.subrange(start, end)),
{
    let s = chars.subrange(start, end);
    if a < b {
        lemma_trim_front(s, a - start);
        let f = s.subrange(a - start, s.len() as int);
        assert(f =~= chars.subrange(a, end));
        lemma_trim_back(f, b - a);
        assert(f.subrange(0, b - a) =~= chars.subrange(a, b));
    } else {
        lemma_trim_front(s, s.len() as int);
        assert(s.subrange(s.len() as int, s.len() as int) =~= Seq::<char>::empty());
        assert(chars.subrange(a, b) =~= Seq::<char>::empty());
    }
}

/// `chars[at..end]` begins with `prefix`.
pub open spec fn has_prefix(chars: Seq<char>, at: int, end: int, prefix: Seq<char>) -> bool {
    at + prefix.len() <= end && chars.subrange(at, at + prefix.len()) == prefix
}

/// Decides `has_prefix`.
pub fn starts_with_at(chars: &Vec<char>, at: usize, end: usize, prefix: &str) -> (r: bool)
    requires
        at <= end <= chars@.len(),
    ensures
        r == has_prefix(chars@, at as int, end as int, prefix@),
{
    let p = chars_of(prefix);
    if end - at < p.len() {
        return false;
    }
    let mut i: usize = 0;
    while i < p.len()
        invariant
            i <= p@.len(),
            p@ == prefix@,
            at + p@.len() <= end <= chars@.len(),
            forall|k: int| 0 <= k < i ==> chars@[at + k] == p@[k],
        decreases p.len() - i,
    {
        if chars[at + i] != p[i] {
            assert(chars@.subrange(at as int, at + p@.len())[i as int] != p@[i as int]);
            return false;
        }
        i += 1;
    }
    assert(chars@.subrange(at as int, at + p@.len()) =~= p@);
    true
}

/// The first position in `[start, end)` where `needle` occurs within `chars[..end]`.
pub fn find_from(chars: &Vec<char>, start: usize, end: usize, needle: &str) -> (r: Option<usize>)
    requires
        start <= end <= chars@.len(),
    ensures
        match r {
            Some(k) => start <= k && has_prefix(chars@, k as int, end as int, needle@) && forall|j: int|
                start <= j < k ==> !#[trigger] has_prefix(chars@, j, end as int, needle@),
            None => forall|j: int| start <= j <= end ==> !#[trigger] has_prefix(chars@, j, end as int, needle@),
        },
{
    let mut k = start;
    loop
        invariant
            start <= k <= end,
            end <= chars@.len(),
            forall|j: int| start <= j < k ==> !#[trigger] has_prefix(chars@, j, end as int, needle@),
        decreases end - k,
    {
        if starts_with_at(chars, k, end, needle) {
            return Some(k);
        }
        if k == end {
            return None;
        }
        k += 1;
    }
}

/// The characters `chars[start..end]` as a string.
pub fn slice_string(chars: &Vec<char>, start: usize, end: usize) -> (r: String)
    requires
        start <= end <= chars@.len(),
    ensures
        r@ == chars@.subrange(start as int, end as int),
{
    crate::lexer::string_between(chars, start, end)
}

/// `a` comes before `b` in the lexicographic order of their characters
/// (a proper prefix comes first).
pub open spec fn seq_less(a: Seq<char>, b: Seq<char>) -> bool
    decreases a.len(),
{
    if a.len() == 0 {
        b.len() > 0
    } else if b.len() == 0 {
        false
    } else if a[0] != b[0] {
        (a[0] as int) < (b[0] as int)
    } else {
        seq_less(a.drop_first(), b.drop_first())
    }
}

/// The lexicographic order is irreflexive and asymmetric.
pub proof fn lemma_seq_less_asym(a: Seq<char>, b: Seq<char>)
    ensures
        !seq_less(a, a),
        seq_less(a, b) ==> !seq_less(b, a),
    decreases a.len(),
{
    if a.len() > 0 {
        lemma_seq_less_asym(a.drop_first(), a.drop_first());
        if b.len() > 0 {
            lemma_seq_less_asym(a.drop_first(), b.drop_first());
        }
    }
}

/// Of two different strings, one comes first.
pub proof fn lemma_seq_less_total(a: Seq<char>, b: Seq<char>)
    ensures
        a != b ==> seq_less(a, b) || seq_less(b, a),
    decreases a.len(),
{
    if a.len() > 0 && b.len() > 0 {
        lemma_seq_less_total(a.drop_first(), b.drop_first());
        if a[0] == b[0] && a.drop_first() == b.drop_first() {
            assert(a =~= seq![a[0]] + a.drop_first());
            assert(b =~= seq![b[0]] + b.drop_first());
        }
    } else if a.len() == 0 && b.len() == 0 {
        assert(a =~= b);
    }
}

/// The lexicographic order is transitive.
pub proof fn lemma_seq_less_trans(a: Seq<char>, b: Seq<char>, c: Seq<char>)
    requires
        seq_less(a, b),
        seq_less(b, c),
    ensures
        seq_less(a, c),
    decreases a.len(),
{
    if a.len() > 0 && b.len() > 0 && c.len() > 0 && a[0] == b[0] && b[0] == c[0] {
        lemma_seq_less_trans(a.drop_first(), b.drop_first(), c.drop_first());
    }
}

/// Decides `seq_less`.
pub fn string_less(a: &String, b: &String) -> (r: bool)
    ensures
        r == seq_less(a@, b@),
{
    let x = chars_of(a.as_str());
    let y = chars_of(b.as_str());
    let mut i: usize = 0;
    assert(x@.skip(0) =~= x@ && y@.skip(0) =~= y@);
    while i < x.len() && i < y.len()
        invariant
            i <= x@.len(),
            i <= y@.len(),
            x@ == a@,
            y@ == b@,
            seq_less(a@, b@) == seq_less(x@.skip(i as int), y@.skip(i as int)),
        decreases x.len() - i,
    {
        let ghost xs = x@.skip(i as int);
        let ghost ys = y@.skip(i as int);
        assert(xs[0] == x@[i as int] && ys[0] == y@[i as int]);
        if x[i] != y[i] {
            return x[i] < y[i];
        }
        assert(xs.drop_first() =~= x@.skip(i + 1));
        assert(ys.drop_first() =~= y@.skip(i + 1));
        i += 1;
    }
    assert(x@.skip(i as int).len() == 0 || y@.skip(i as int).len() == 0);
    x.len() < y.len()
}

} // verus!

verus! {

/// Appends the characters of `t` to `s`.
pub fn push_str(s: &mut String, t: &str)
    ensures
        final(s)@ == old(s)@ + t@,
{
    let chars = chars_of(t);
    let ghost start = s@;
    let mut i: usize = 0;
    while i < chars.len()
        invariant
            i <= chars@.len(),
            chars@ == t@,
            s@ == start + chars@.take(i as int),
        decreases chars.len() - i,
    {
        push_char(s, chars[i]);
        assert(start + chars@.take(i as int) + seq![chars@[i as int]] =~= start + chars@.take(i + 1));
        i += 1;
    }
    assert(chars@.take(i as int) =~= chars@);
}

/// Appends the characters of `t` to `s`.
pub fn push_string(s: &mut String, t: &String)
    ensures
        final(s)@ == old(s)@ + t@,
{
    push_str(s, t.as_str());
}

/// The digit character for `d` (below ten).
pub open spec fn digit_char(d: nat) -> char {
    if d == 0 { '0' } else if d == 1 { '1' } else if d == 2 { '2' } else if d == 3 { '3' } else if d == 4 { '4' }
    else if d == 5 { '5' } else if d == 6 { '6' } else if d == 7 { '7' } else if d == 8 { '8' } else { '9' }
}

/// The decimal numeral of `n`, without leading zeros.
pub open spec fn decimal(n: nat) -> Seq<char>
    decreases n,
{
    if n < 10 {
        seq![digit_char(n)]
    } else {
        decimal(n / 10).push(digit_char(n % 10))
    }
}

/// Appends the decimal numeral of `n` to `s`.
pub fn push_u64(s: &mut String, n: u64)
    ensures
        final(s)@ == old(s)@ + decimal(n as nat),
    decreases n,
{
    if n >= 10 {
        push_u64(s, n / 10);
    }
    let d = n % 10;
    let c = if d == 0 { '0' } else if d == 1 { '1' } else if d == 2 { '2' } else if d == 3 { '3' } else if d == 4 {
        '4'
    } else if d == 5 { '5' } else if d == 6 { '6' } else if d == 7 { '7' } else if d == 8 { '8' } else { '9' };
    let ghost before = s@;
    push_char(s, c);
    proof {
        if n >= 10 {
            assert(decimal(n as nat) == decimal((n / 10) as nat).push(digit_char((n % 10) as nat)));
        }
    }
}

/// Sorts `v` by the characters of its strings and drops repeated strings.
pub(crate) fn sorted_unique(v: Vec<String>) -> (out: Vec<String>)
    ensures
        forall|n: Seq<char>| #[trigger] listed(out@, n) <==> listed(v@, n),
        strictly_sorted(out@),
{
    let mut out: Vec<String> = Vec::new();
    let mut i: usize = 0;
    while i < v.len()
        invariant
            i <= v@.len(),
            forall|n: Seq<char>| #[trigger] listed(out@, n) <==> listed(v@.subrange(0, i as int), n),
            strictly_sorted(out@),
        decreases v.len() - i,
    {
        let s = &v[i];
        let mut pos: usize = 0;
        let mut dup = false;
        while pos < out.len()
            invariant
                pos <= out@.len(),
                dup ==> pos < out@.len() && out@[pos as int]@ == s@,
                !dup ==> forall|k: int| 0 <= k < pos ==> seq_less((#[trigger] out@[k])@, s@),
            ensures
                pos <= out@.len(),
                dup ==> pos < out@.len() && out@[pos as int]@ == s@,
                !dup ==> forall|k: int| 0 <= k < pos ==> seq_less((#[trigger] out@[k])@, s@),
                !dup && pos < out@.len() ==> seq_less(s@, out@[pos as int]@),
            decreases out.len() - pos,
        {
            if string_eq(&out[pos], s) {
                dup = true;
                break;
            }
            if string_less(s, &out[pos]) {
                break;
            }
            proof {
                lemma_seq_less_total(s@, out@[pos as int]@);
            }
            pos += 1;
        }
        let ghost before = out@;
        if !dup {
            proof {
                if pos < before.len() {
                    assert(seq_less(s@, before[pos as int]@));
                    assert forall|k: int| pos <= k < before.len() implies seq_less(s@, (#[trigger] before[k])@) by {
                        if k > pos {
                            lemma_seq_less_trans(s@, before[pos as int]@, before[k]@);
                        }
                    }
                }
            }
            let c = copy_string(s);
            out.insert(pos, c);
            proof {
                assert forall|a: int, b: int| 0 <= a < b < out@.len() implies seq_less(
                    (#[trigger] out@[a])@,
                    (#[trigger] out@[b])@,
                ) by {
                    if a < pos && b < pos {
                        assert(out@[a] == before[a] && out@[b] == before[b]);
                    } else if a < pos && b == pos {
                        assert(out@[a] == before[a]);
                    } else if a < pos {
                        assert(out@[a] == before[a] && out@[b] == before[b - 1]);
                        lemma_seq_less_trans(before[a]@, s@, before[b - 1]@);
                    } else if a == pos {
                        assert(out@[b] == before[b - 1]);
                    } else {
                        assert(out@[a] == before[a - 1] && out@[b] == before[b - 1]);
                    }
                }
                assert forall|n: Seq<char>| #[trigger] listed(out@, n) <==> listed(before, n) || c@ == n by {
                    if listed(before, n) {
                        let k = choose|k: int| 0 <= k < before.len() && (#[trigger] before[k])@ == n;
                        if k < pos {
                            assert(out@[k] == before[k]);
                        } else {
                            assert(out@[k + 1] == before[k]);
                        }
                    }
                    if c@ == n {
                        assert(out@[pos as int] == c);
                    }
                    if listed(out@, n) {
                        let k = choose|k: int| 0 <= k < out@.len() && (#[trigger] out@[k])@ == n;
                        if k < pos {
                            assert(out@[k] == before[k]);
                        } else if k > pos {
                            assert(out@[k] == before[k - 1]);
                        }
                    }
                }
            }
        }
        proof {
            let w = v@.subrange(0, i + 1);
            assert(w =~= v@.subrange(0, i as int).push(v@[i as int]));
            lemma_listed_push(v@.subrange(0, i as int), v@[i as int]);
            if dup {
                assert(listed(before, s@));
            }
        }
        i += 1;
    }
    proof {
        assert(v@.subrange(0, v@.len() as int) =~= v@);
    }
    out
}


/// Each string of `v` comes before the next one.
pub open spec fn strictly_sorted(v: Seq<String>) -> bool {
    forall|a: int, b: int| 0 <= a < b < v.len() ==> seq_less((#[trigger] v[a])@, (#[trigger] v[b])@)
}

/// Some string of `v` holds the characters `n`.
pub open spec fn listed(v: Seq<String>, n: Seq<char>) -> bool {
    exists|i: int| 0 <= i < v.len() && (#[trigger] v[i])@ == n
}

pub proof fn lemma_listed_push(v: Seq<String>, s: String)
    ensures
        forall|n: Seq<char>| #[trigger] listed(v.push(s), n) <==> listed(v, n) || s@ == n,
{
    assert forall|n: Seq<char>| #[trigger] listed(v.push(s), n) <==> listed(v, n) || s@ == n by {
        if listed(v, n) {
            let i = choose|i: int| 0 <= i < v.len() && (#[trigger] v[i])@ == n;
            assert(v.push(s)[i] == v[i]);
        }
        if s@ == n {
            assert(v.push(s)[v.len() as int] == s);
        }
        if listed(v.push(s), n) {
            let i = choose|i: int| 0 <= i < v.push(s).len() && (#[trigger] v.push(s)[i])@ == n;
            if i < v.len() {
                assert(v[i] == v.push(s)[i]);
            }
        }
    }
}

} // verus!
