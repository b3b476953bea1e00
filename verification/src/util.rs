use vstd::prelude::*;

verus! {

/// A copy of a vector of `Copy` values.
pub fn copy_vec<T: Copy>(v: &Vec<T>) -> (r: Vec<T>)
    ensures
        r@ == v@,
{
    let mut r: Vec<T> = Vec::new();
    let mut i: usize = 0;
    while i < v.len()
        invariant
            0 <= i <= v@.len(),
            r@ =~= v@.subrange(0, i as int),
        decreases v@.len() - i,
    {
        r.push(v[i]);
        i = i + 1;
    }
    assert(r@ =~= v@);
    r
}

/// A copy of a vector of strings.
pub fn copy_strings(v: &Vec<String>) -> (r: Vec<String>)
    ensures
        r@ == v@,
{
    let mut r: Vec<String> = Vec::new();
    let mut i: usize = 0;
    while i < v.len()
        invariant
            0 <= i <= v@.len(),
            r@ =~= v@.subrange(0, i as int),
        decreases v@.len() - i,
    {
        r.push(v[i].clone());
        i = i + 1;
    }
    assert(r@ =~= v@);
    r
}

/// A copy of an optional string.
pub fn copy_opt_string(o: &Option<String>) -> (r: Option<String>)
    ensures
        r == *o,
{
    match o {
        None => None,
        Some(s) => Some(s.clone()),
    }
}

/// The exact product of two 64-bit values, computed in 128 bits.
pub fn mul_wide(a: u64, b: u64) -> (r: u128)
    ensures
        r == a * b,
{
    assert(a * b <= u64::MAX * u64::MAX) by (nonlinear_arith)
        requires
            a <= u64::MAX,
            b <= u64::MAX,
    ;
    (a as u128) * (b as u128)
}

/// `a * b / c`, rounded down, for `b <= c`: a share of `a` in the proportion `b : c`.
pub fn mul_div(a: u64, b: u64, c: u64) -> (r: u64)
    requires
        0 < c,
        b <= c,
    ensures
        r as int == (a as int * b as int) / (c as int),
        r <= a,
{
    let prod: u128 = mul_wide(a, b);
    let q: u128 = prod / (c as u128);
    assert(q <= a) by (nonlinear_arith)
        requires
            q == prod / (c as u128),
            prod == a * b,
            b <= c,
            0 < c,
    {
        assert(a * b <= a * c);
        assert(a * c / (c as int) == a);
    }
    q as u64
}

/// The integer square root: the largest `r` with `r * r <= n`.
pub open spec fn is_isqrt(n: int, r: int) -> bool {
    0 <= r && r * r <= n < (r + 1) * (r + 1)
}

/// The integer square root of a 128-bit value (it always fits in 64 bits).
pub fn isqrt_u128(n: u128) -> (r: u64)
    ensures
        is_isqrt(n as int, r as int),
{
    let mut lo: u128 = 0;
    let mut hi: u128 = 0x1_0000_0000_0000_0000;
    assert(hi * hi > n) by (nonlinear_arith)
        requires
            hi == 0x1_0000_0000_0000_0000u128,
            n <= u128::MAX,
    ;
    while hi - lo > 1
        invariant
            lo < hi <= 0x1_0000_0000_0000_0000u128,
            lo * lo <= n,
            n < hi * hi,
        decreases hi - lo,
    {
        let mid = lo + (hi - lo) / 2;
        assert(mid < 0x1_0000_0000_0000_0000u128);
        assert(mid * mid <= 0xffff_ffff_ffff_ffffu128 * 0xffff_ffff_ffff_ffffu128) by (nonlinear_arith)
            requires
                mid <= 0xffff_ffff_ffff_ffffu128,
        ;
        if mid * mid <= n {
            lo = mid;
        } else {
            hi = mid;
        }
    }
    assert(hi == lo + 1);
    lo as u64
}

/// The first position in `s` whose element satisfies `p`, if any.
pub open spec fn find_first<T>(s: Seq<T>, p: spec_fn(T) -> bool) -> Option<int> {
    if exists|i: int| 0 <= i < s.len() && p(s[i]) {
        Some(
            choose|i: int|
                0 <= i < s.len() && p(s[i]) && (forall|j: int| 0 <= j < i ==> !p(#[trigger] s[j])),
        )
    } else {
        None
    }
}

proof fn lemma_min_witness<T>(s: Seq<T>, p: spec_fn(T) -> bool, k: int)
    requires
        0 <= k < s.len(),
        p(s[k]),
    ensures
        exists|i: int|
            0 <= i < s.len() && p(s[i]) && (forall|j: int| 0 <= j < i ==> !p(#[trigger] s[j])),
    decreases k,
{
    if exists|j: int| 0 <= j < k && p(s[j]) {
        let j = choose|j: int| 0 <= j < k && p(s[j]);
        lemma_min_witness(s, p, j);
    } else {
        assert(forall|j: int| 0 <= j < k ==> !p(#[trigger] s[j]));
    }
}

/// What `find_first` gives: the least satisfying position, or `None` when there is none.
pub proof fn lemma_find_first<T>(s: Seq<T>, p: spec_fn(T) -> bool)
    ensures
        find_first(s, p) matches Some(i) ==> {
            &&& 0 <= i < s.len()
            &&& p(s[i])
            &&& forall|j: int| 0 <= j < i ==> !p(#[trigger] s[j])
        },
        find_first(s, p) is None ==> forall|j: int| 0 <= j < s.len() ==> !p(#[trigger] s[j]),
{
    if exists|i: int| 0 <= i < s.len() && p(s[i]) {
        let k = choose|i: int| 0 <= i < s.len() && p(s[i]);
        lemma_min_witness(s, p, k);
    }
}

/// `find_first` gives `i` when `i` satisfies `p` and no earlier position does.
pub proof fn lemma_find_first_at<T>(s: Seq<T>, p: spec_fn(T) -> bool, i: int)
    requires
        0 <= i < s.len(),
        p(s[i]),
        forall|j: int| 0 <= j < i ==> !p(#[trigger] s[j]),
    ensures
        find_first(s, p) == Some(i),
{
    lemma_find_first(s, p);
    let k = find_first(s, p).unwrap();
    if k < i {
        assert(!p(s[k]));
    } else if k > i {
        assert(!p(s[i]));
    }
}

/// `find_first` gives `None` when no position satisfies `p`.
pub proof fn lemma_find_first_none<T>(s: Seq<T>, p: spec_fn(T) -> bool)
    requires
        forall|j: int| 0 <= j < s.len() ==> !p(#[trigger] s[j]),
    ensures
        find_first(s, p) is None,
{
}

/// The decimal digit character for `d` (`d < 10`).
pub open spec fn digit_char(d: int) -> char {
    if d == 0 { '0' } else if d == 1 { '1' } else if d == 2 { '2' } else if d == 3 { '3' }
    else if d == 4 { '4' } else if d == 5 { '5' } else if d == 6 { '6' } else if d == 7 { '7' }
    else if d == 8 { '8' } else { '9' }
}

/// The decimal representation of `x`, without leading zeros.
pub open spec fn decimal_spec(x: nat) -> Seq<char>
    decreases x,
{
    if x < 10 {
        seq![digit_char(x as int)]
    } else {
        decimal_spec(x / 10).push(digit_char((x % 10) as int))
    }
}

fn digit(d: u64) -> (c: char)
    requires
        d < 10,
    ensures
        c == digit_char(d as int),
{
    if d == 0 { '0' } else if d == 1 { '1' } else if d == 2 { '2' } else if d == 3 { '3' }
    else if d == 4 { '4' } else if d == 5 { '5' } else if d == 6 { '6' } else if d == 7 { '7' }
    else if d == 8 { '8' } else { '9' }
}

/// Append the decimal representation of `x`.
pub fn push_decimal(s: &mut String, x: u64)
    ensures
        final(s)@ == old(s)@ + decimal_spec(x as nat),
    decreases x,
{
    if x >= 10 {
        push_decimal(s, x / 10);
    }
    let c = digit(x % 10);
    crate::hash_utils::string_push(s, c);
    assert(final(s)@ =~= old(s)@ + decimal_spec(x as nat));
}

/// Calls `String::push_str`: the string's characters are appended at the end.
#[verifier::external_body]
pub(crate) fn push_str(s: &mut String, t: &str)
    ensures
        final(s)@ == old(s)@ + t@,
{
    s.push_str(t)
}

/// Whether `s` is in ascending order.
pub open spec fn ascending(s: Seq<u64>) -> bool {
    forall|a: int, b: int| 0 <= a < b < s.len() ==> s[a] <= s[b]
}

/// The values of `v` in ascending order.
pub fn sort_u64(v: Vec<u64>) -> (r: Vec<u64>)
    ensures
        ascending(r@),
        r@.to_multiset() == v@.to_multiset(),
        r@.len() == v@.len(),
{
    let mut r: Vec<u64> = Vec::new();
    let mut rest = v;
    let ghost all = rest@;
    let mut i: usize = 0;
    let n: usize = rest.len();
    broadcast use vstd::seq_lib::group_to_multiset_ensures;
    while rest.len() > 0
        invariant
            n == all.len(),
            0 <= i <= n,
            rest@ == all.skip(i as int),
            ascending(r@),
            r@.len() == i,
            r@.to_multiset() == all.take(i as int).to_multiset(),
        decreases rest.len(),
    {
        let x = rest.remove(0);
        assert(x == all[i as int]);
        let mut k: usize = 0;
        while k < r.len() && r[k] <= x
            invariant
                0 <= k <= r@.len(),
                forall|m: int| 0 <= m < k ==> r@[m] <= x,
            decreases r@.len() - k,
        {
            k = k + 1;
        }
        let ghost r0 = r@;
        r.insert(k, x);
        proof {
            assert(r@ == r0.insert(k as int, x));
            assert forall|a: int, b: int| 0 <= a < b < r@.len() implies r@[a] <= r@[b] by {
                if k < r0.len() {
                    assert(r0[k as int] > x);
                }
                if a < k && b == k {
                } else if a == k && b > k {
                    assert(r@[b] == r0[b - 1]);
                    if b - 1 > k {
                        assert(r0[k as int] <= r0[b - 1]);
                    }
                } else if a < k && b > k {
                    assert(r@[b] == r0[b - 1]);
                }
            }
            vstd::seq_lib::to_multiset_insert(r0, k as int, x);
            assert(all.take(i + 1) =~= all.take(i as int).push(x));
            vstd::seq_lib::to_multiset_build(all.take(i as int), x);
        }
        assert(rest@ =~= all.skip(i + 1));
        i = i + 1;
    }
    assert(all.take(n as int) =~= all);
    r
}

/// A copy that holds the same as the original.
pub trait DeepCopy: View + Sized {
    fn deep_copy(&self) -> (r: Self)
        ensures
            r@ == self@,
    ;
}

/// A copy of each element, in order.
pub fn copy_all<T: DeepCopy>(v: &Vec<T>) -> (r: Vec<T>)
    ensures
        r@.map_values(|x: T| x@) == v@.map_values(|x: T| x@),
{
    let mut r: Vec<T> = Vec::new();
    let mut i: usize = 0;
    while i < v.len()
        invariant
            0 <= i <= v@.len(),
            r@.len() == i,
            forall|j: int| 0 <= j < i ==> (#[trigger] r@[j])@ == v@[j]@,
        decreases v@.len() - i,
    {
        let c = v[i].deep_copy();
        r.push(c);
        i = i + 1;
    }
    assert(r@.map_values(|x: T| x@) =~= v@.map_values(|x: T| x@));
    r
}

/// `q = x / d` is the largest integer whose multiple by `d` stays within `x`.
pub proof fn lemma_floor_div(x: int, d: int)
    requires
        x >= 0,
        d > 0,
    ensures
        (x / d) * d <= x < (x / d + 1) * d,
        x / d >= 0,
{
    vstd::arithmetic::div_mod::lemma_fundamental_div_mod(x, d);
    vstd::arithmetic::div_mod::lemma_mod_bound(x, d);
    assert((x / d) * d == d * (x / d)) by (nonlinear_arith);
    assert((x / d + 1) * d == d * (x / d) + d) by (nonlinear_arith);
    assert(x / d >= 0) by (nonlinear_arith)
        requires
            x >= 0,
            d > 0,
            x == d * (x / d) + x % d,
            0 <= x % d < d,
    ;
}

proof fn lemma_decimal_len(x: nat)
    ensures
        decimal_spec(x).len() >= 1,
        x >= 10 ==> decimal_spec(x).len() >= 2,
    decreases x,
{
    if x >= 10 {
        lemma_decimal_len(x / 10);
    }
}

/// Different numbers have different decimal representations.
pub proof fn lemma_decimal_injective(x: nat, y: nat)
    requires
        decimal_spec(x) == decimal_spec(y),
    ensures
        x == y,
    decreases x,
{
    lemma_decimal_len(x);
    lemma_decimal_len(y);
    if x < 10 && y < 10 {
        assert(decimal_spec(x)[0] == digit_char(x as int));
        assert(decimal_spec(y)[0] == digit_char(y as int));
    } else if x >= 10 && y >= 10 {
        let dx = decimal_spec(x);
        let dy = decimal_spec(y);
        assert(dx.last() == digit_char((x % 10) as int));
        assert(dy.last() == digit_char((y % 10) as int));
        assert(dx.drop_last() =~= decimal_spec(x / 10));
        assert(dy.drop_last() =~= decimal_spec(y / 10));
        lemma_decimal_injective(x / 10, y / 10);
        assert(x == 10 * (x / 10) + x % 10);
        assert(y == 10 * (y / 10) + y % 10);
    }
}

/// A number written between a fixed prefix and suffix can be read back: two such texts that
/// are equal hold the same number.
pub proof fn lemma_framed_decimal_injective(pre: Seq<char>, suf: Seq<char>, x: nat, y: nat)
    requires
        pre + decimal_spec(x) + suf == pre + decimal_spec(y) + suf,
    ensures
        x == y,
{
    let sx = pre + decimal_spec(x) + suf;
    let sy = pre + decimal_spec(y) + suf;
    assert(sx.subrange(pre.len() as int, sx.len() - suf.len()) =~= decimal_spec(x));
    assert(sy.subrange(pre.len() as int, sy.len() - suf.len()) =~= decimal_spec(y));
    lemma_decimal_injective(x, y);
}

} // verus!
