use vstd::prelude::*;
use vstd::arithmetic::power2::{pow2, lemma_pow2_unfold, lemma_pow2_pos};
use vstd::arithmetic::div_mod::lemma_div_denominator;
use crate::bit::Bit;
use crate::num::{Integer, Number, pattern, lemma_pow2_128};

verus! {

/// The lowest `n` bits of `x`, least significant first.
pub open spec fn bits_lsb(x: nat, n: nat) -> Seq<bool>
    decreases n,
{
    if n == 0 {
        Seq::empty()
    } else {
        seq![x % 2 == 1] + bits_lsb(x / 2, (n - 1) as nat)
    }
}

/// The number whose bits, least significant first, are `s`.
pub open spec fn from_bits_lsb(s: Seq<bool>) -> nat
    decreases s.len(),
{
    if s.len() == 0 {
        0
    } else {
        (if s[0] { 1nat } else { 0nat }) + 2 * from_bits_lsb(s.drop_first())
    }
}

/// The full-width bit pattern of `x`, most significant first.
pub open spec fn bits_msb<T: Number>(x: T) -> Seq<bool> {
    bits_lsb(pattern(x.value(), T::spec_width()) as nat, T::spec_width()).reverse()
}

/// The number whose `w`-bit pattern is that of `p` read backwards.
pub open spec fn reversed_pattern(p: nat, w: nat) -> nat {
    from_bits_lsb(bits_lsb(p, w).reverse())
}

/// The number of leading elements of `s` equal to `b`.
pub open spec fn leading_run(s: Seq<bool>, b: bool) -> nat
    decreases s.len(),
{
    if s.len() == 0 || s[0] != b {
        0
    } else {
        1 + leading_run(s.drop_first(), b)
    }
}

pub proof fn lemma_bits_lsb_len(x: nat, n: nat)
    ensures
        bits_lsb(x, n).len() == n,
    decreases n,
{
    if n > 0 {
        lemma_bits_lsb_len(x / 2, (n - 1) as nat);
    }
}

/// Bit `i` of `bits_lsb(x, n)` is the `i`-th binary digit of `x`.
pub proof fn lemma_bits_lsb_index(x: nat, n: nat, i: nat)
    requires
        i < n,
    ensures
        bits_lsb(x, n)[i as int] == ((x / pow2(i)) % 2 == 1),
    decreases n,
{
    lemma_bits_lsb_len(x, n);
    if i == 0 {
        assert(pow2(0) == 1) by { vstd::arithmetic::power2::lemma2_to64(); }
    } else {
        lemma_bits_lsb_index(x / 2, (n - 1) as nat, (i - 1) as nat);
        lemma_pow2_unfold(i);
        lemma_pow2_pos((i - 1) as nat);
        lemma_div_denominator(x as int, 2, pow2((i - 1) as nat) as int);
    }
}

/// Reading the bits of a sequence back gives the sequence.
pub proof fn lemma_bits_of_from_bits(s: Seq<bool>)
    ensures
        bits_lsb(from_bits_lsb(s), s.len()) == s,
        from_bits_lsb(s) < pow2(s.len()),
    decreases s.len(),
{
    if s.len() == 0 {
        assert(bits_lsb(from_bits_lsb(s), 0) =~= s);
        assert(pow2(0) == 1) by { vstd::arithmetic::power2::lemma2_to64(); }
    } else {
        let t = s.drop_first();
        lemma_bits_of_from_bits(t);
        let v = from_bits_lsb(s);
        let b: nat = if s[0] { 1 } else { 0 };
        assert(v % 2 == b && v / 2 == from_bits_lsb(t)) by (nonlinear_arith)
            requires v == b + 2 * from_bits_lsb(t), b < 2;
        lemma_pow2_unfold(s.len());
        assert(bits_lsb(v, s.len()) =~= s);
    }
}

/// Taking the lowest `n` bits of `x` and reading them back gives `x` modulo `2^n`.
pub proof fn lemma_from_bits_of_bits(x: nat, n: nat)
    ensures
        from_bits_lsb(bits_lsb(x, n)) == x % pow2(n),
    decreases n,
{
    if n == 0 {
        assert(pow2(0) == 1) by { vstd::arithmetic::power2::lemma2_to64(); }
        assert(bits_lsb(x, n) =~= Seq::<bool>::empty());
    } else {
        lemma_from_bits_of_bits(x / 2, (n - 1) as nat);
        lemma_bits_lsb_len(x, n);
        assert(bits_lsb(x, n).drop_first() =~= bits_lsb(x / 2, (n - 1) as nat));
        lemma_pow2_unfold(n);
        lemma_pow2_pos((n - 1) as nat);
        vstd::arithmetic::div_mod::lemma_mod_breakdown(x as int, 2, pow2((n - 1) as nat) as int);
    }
}

/// Reversing the bit order twice gives back the pattern.
pub proof fn lemma_reverse_bits_involution(p: nat, w: nat)
    requires
        p < pow2(w),
    ensures
        reversed_pattern(reversed_pattern(p, w), w) == p,
{
    let s = bits_lsb(p, w);
    lemma_bits_lsb_len(p, w);
    let r = s.reverse();
    assert(r.len() == w);
    lemma_bits_of_from_bits(r);
    assert(r.reverse() =~= s);
    lemma_from_bits_of_bits(p, w);
    vstd::arithmetic::div_mod::lemma_small_mod(p, pow2(w));
}

/// Two values of one type with the same bit pattern are the same value.
pub proof fn lemma_pattern_injective<T: Number>(x: T, y: T)
    requires
        pattern(x.value(), T::spec_width()) == pattern(y.value(), T::spec_width()),
    ensures
        x == y,
{
    T::lemma_bounds();
    T::lemma_range(x);
    T::lemma_range(y);
    if T::spec_min() < 0 {
        lemma_pow2_unfold(T::spec_width());
    }
    T::lemma_value_injective(x, y);
}

/// Reversing the bits of a value twice gives back the value: for `y` whose
/// pattern is that of `x` reversed and `z` whose pattern is that of `y` reversed,
/// `z` is `x`.
pub proof fn lemma_reverse_bits_twice<T: Number>(x: T, y: T, z: T)
    requires
        pattern(y.value(), T::spec_width())
            == reversed_pattern(pattern(x.value(), T::spec_width()) as nat, T::spec_width()),
        pattern(z.value(), T::spec_width())
            == reversed_pattern(pattern(y.value(), T::spec_width()) as nat, T::spec_width()),
    ensures
        z == x,
{
    T::lemma_bounds();
    T::lemma_range(x);
    T::lemma_range(y);
    lemma_reverse_bits_involution(pattern(x.value(), T::spec_width()) as nat, T::spec_width());
    lemma_pattern_injective(x, z);
}

/// Every element before the end of a leading run equals the run's value.
pub proof fn lemma_leading_run(s: Seq<bool>, b: bool)
    ensures
        leading_run(s, b) <= s.len(),
        forall|i: int| 0 <= i < leading_run(s, b) ==> s[i] == b,
        leading_run(s, b) < s.len() ==> s[leading_run(s, b) as int] != b,
    decreases s.len(),
{
    if s.len() > 0 && s[0] == b {
        lemma_leading_run(s.drop_first(), b);
        assert forall|i: int| 0 <= i < leading_run(s, b) implies s[i] == b by {
            if i > 0 {
                assert(s[i] == s.drop_first()[i - 1]);
            }
        }
    }
}

/// `2^k`.
pub fn pow2_u128(k: u32) -> (r: u128)
    requires
        k < 128,
    ensures
        r == pow2(k as nat),
{
    let mut r: u128 = 1;
    let mut i: u32 = 0;
    proof {
        vstd::arithmetic::power2::lemma2_to64();
        lemma_pow2_128();
    }
    while i < k
        invariant
            i <= k < 128,
            r == pow2(i as nat),
        decreases k - i,
    {
        proof {
            lemma_pow2_128();
            lemma_pow2_unfold((i + 1) as nat);
            vstd::arithmetic::power2::lemma_pow2_strictly_increases((i + 1) as nat, 128);
        }
        r = r * 2;
        i = i + 1;
    }
    r
}

/// The full-width bit pattern of `x`, most significant first.
pub fn pattern_bits<T: Number>(x: T) -> (r: Vec<bool>)
    ensures
        r@ == bits_msb(x),
        r@.len() == T::spec_width(),
{
    proof { T::lemma_bounds(); T::lemma_range(x); }
    let w = T::bit_width();
    let raw = x.to_raw();
    let mut lsb: Vec<bool> = Vec::new();
    let mut cur: u128 = raw;
    let mut i: u32 = 0;
    proof { vstd::arithmetic::power2::lemma2_to64(); }
    while i < w
        invariant
            i <= w == T::spec_width() <= 128,
            raw == pattern(x.value(), T::spec_width()),
            cur == raw as nat / pow2(i as nat),
            lsb@.len() == i,
            forall|j: int| 0 <= j < i ==> lsb@[j] == ((raw as nat / pow2(j as nat)) % 2 == 1),
        decreases w - i,
    {
        lsb.push(cur % 2 == 1);
        proof {
            lemma_pow2_unfold((i + 1) as nat);
            lemma_pow2_pos(i as nat);
            lemma_div_denominator(raw as int, pow2(i as nat) as int, 2);
            vstd::arithmetic::mul::lemma_mul_is_commutative(pow2(i as nat) as int, 2);
        }
        cur = cur / 2;
        i = i + 1;
    }
    let ghost lsb_spec = bits_lsb(raw as nat, w as nat);
    proof {
        lemma_bits_lsb_len(raw as nat, w as nat);
        assert forall|j: int| 0 <= j < w implies lsb@[j] == lsb_spec[j] by {
            lemma_bits_lsb_index(raw as nat, w as nat, j as nat);
        }
        assert(lsb@ =~= lsb_spec);
    }
    let mut r: Vec<bool> = Vec::new();
    let mut k: usize = lsb.len();
    while k > 0
        invariant
            k <= lsb@.len() == w,
            r@.len() == w - k,
            forall|j: int| 0 <= j < w - k ==> r@[j] == lsb@[w - 1 - j],
        decreases k,
    {
        k = k - 1;
        r.push(lsb[k]);
    }
    assert(r@ =~= lsb_spec.reverse());
    r
}

proof fn lemma_leading_run_exact(s: Seq<bool>, b: bool, n: nat)
    requires
        n <= s.len(),
        forall|j: int| 0 <= j < n ==> s[j] == b,
        n == s.len() || s[n as int] != b,
    ensures
        leading_run(s, b) == n,
    decreases n,
{
    if n > 0 {
        let t = s.drop_first();
        assert forall|j: int| 0 <= j < n - 1 implies t[j] == b by {
            assert(t[j] == s[j + 1]);
        }
        if n < s.len() {
            assert(t[n - 1] == s[n as int]);
        }
        lemma_leading_run_exact(t, b, (n - 1) as nat);
    }
}

/// The number of leading elements of `v` equal to `b`.
fn count_leading(v: &Vec<bool>, b: bool) -> (r: u32)
    requires
        v@.len() <= 128,
    ensures
        r == leading_run(v@, b),
{
    let mut i: usize = 0;
    while i < v.len() && v[i] == b
        invariant
            i <= v@.len() <= 128,
            forall|j: int| 0 <= j < i ==> v@[j] == b,
        decreases v@.len() - i,
    {
        i = i + 1;
    }
    proof { lemma_leading_run_exact(v@, b, i as nat); }
    i as u32
}

/// The number of trailing elements of `v` equal to `b`.
fn count_trailing(v: &Vec<bool>, b: bool) -> (r: u32)
    requires
        v@.len() <= 128,
    ensures
        r == leading_run(v@.reverse(), b),
{
    let n = v.len();
    let mut k: usize = n;
    while k > 0 && v[k - 1] == b
        invariant
            k <= n == v@.len() <= 128,
            forall|j: int| k <= j < n ==> v@[j] == b,
        decreases k,
    {
        k = k - 1;
    }
    let ghost s = v@.reverse();
    proof {
        assert forall|j: int| 0 <= j < n - k implies s[j] == b by {
            assert(s[j] == v@[n - 1 - j]);
        }
        if k > 0 {
            assert(s[(n - k) as int] == v@[k - 1]);
        }
        lemma_leading_run_exact(s, b, (n - k) as nat);
    }
    (n - k) as u32
}

/// Number of leading zeros in the full-width bit pattern.
pub fn leading_zeros<T: Number>(x: T) -> (r: u32)
    ensures
        r == leading_run(bits_msb(x), false),
{
    proof { T::lemma_bounds(); }
    count_leading(&pattern_bits(x), false)
}

/// Number of leading ones in the full-width bit pattern.
pub fn leading_ones<T: Number>(x: T) -> (r: u32)
    ensures
        r == leading_run(bits_msb(x), true),
{
    proof { T::lemma_bounds(); }
    count_leading(&pattern_bits(x), true)
}

/// Number of trailing zeros in the full-width bit pattern.
pub fn trailing_zeros<T: Number>(x: T) -> (r: u32)
    ensures
        r == leading_run(bits_msb(x).reverse(), false),
{
    proof { T::lemma_bounds(); }
    count_trailing(&pattern_bits(x), false)
}

/// Number of trailing ones in the full-width bit pattern.
pub fn trailing_ones<T: Number>(x: T) -> (r: u32)
    ensures
        r == leading_run(bits_msb(x).reverse(), true),
{
    proof { T::lemma_bounds(); }
    count_trailing(&pattern_bits(x), true)
}

/// The value whose full-width bit pattern is that of `x` in reverse order.
pub fn reverse_bits<T: Number>(x: T) -> (r: T)
    ensures
        pattern(r.value(), T::spec_width())
            == reversed_pattern(pattern(x.value(), T::spec_width()) as nat, T::spec_width()),
{
    proof { T::lemma_bounds(); T::lemma_range(x); }
    let v = pattern_bits(x);
    let w = v.len();
    let ghost s = v@;
    proof { lemma_bits_lsb_len(pattern(x.value(), T::spec_width()) as nat, T::spec_width()); }
    let mut out: u128 = 0;
    let mut j: usize = w;
    proof { assert(s.subrange(w as int, w as int) =~= Seq::<bool>::empty()); }
    while j > 0
        invariant
            j <= w == s.len() <= 128,
            s == v@,
            out == from_bits_lsb(s.subrange(j as int, w as int)),
        decreases j,
    {
        proof {
            lemma_bits_of_from_bits(s.subrange(j as int, w as int));
            if w - j < 127 {
                vstd::arithmetic::power2::lemma_pow2_strictly_increases((w - j) as nat, 127);
            }
            lemma_pow2_unfold(128);
            lemma_pow2_128();
            assert(s.subrange(j - 1, w as int).drop_first() =~= s.subrange(j as int, w as int));
        }
        j = j - 1;
        out = out * 2 + if v[j] { 1 } else { 0 };
    }
    proof {
        assert(s.subrange(0, w as int) =~= s);
        lemma_bits_of_from_bits(s);
    }
    T::from_raw(out)
}

/// The number whose bits, most significant first, are `c`.
fn value_of_msb(c: &Vec<bool>) -> (r: u128)
    requires
        c@.len() <= 128,
    ensures
        r == from_bits_lsb(c@.reverse()),
{
    let n = c.len();
    let mut out: u128 = 0;
    let mut i: usize = 0;
    proof { assert(c@.subrange(0, 0).reverse() =~= Seq::<bool>::empty()); }
    while i < n
        invariant
            i <= n == c@.len() <= 128,
            out == from_bits_lsb(c@.subrange(0, i as int).reverse()),
        decreases n - i,
    {
        proof {
            let t = c@.subrange(0, i as int).reverse();
            lemma_bits_of_from_bits(t);
            if i < 127 {
                vstd::arithmetic::power2::lemma_pow2_strictly_increases(i as nat, 127);
            }
            lemma_pow2_unfold(128);
            lemma_pow2_128();
            let u = c@.subrange(0, i + 1).reverse();
            assert(u.drop_first() =~= t);
            assert(u[0] == c@[i as int]);
        }
        out = out * 2 + if c[i] { 1 } else { 0 };
        i = i + 1;
    }
    proof { assert(c@.subrange(0, n as int) =~= c@); }
    out
}

/// The value whose full-width bit pattern, most significant first, is `c`.
fn from_pattern_bits<T: Number>(c: &Vec<bool>) -> (r: T)
    requires
        c@.len() == T::spec_width(),
    ensures
        bits_msb(r) == c@,
{
    proof { T::lemma_bounds(); }
    let raw = value_of_msb(c);
    let ghost t = c@.reverse();
    proof { lemma_bits_of_from_bits(t); }
    let r = T::from_raw(raw);
    proof { assert(t.reverse() =~= c@); }
    r
}

/// The bitwise combination of two full-width patterns: AND, OR, or else XOR.
fn combine<T: Number>(a: T, b: T, and: bool, or: bool) -> (r: T)
    ensures
        bits_msb(r) == Seq::new(T::spec_width(), |i: int| bit_op(bits_msb(a)[i], bits_msb(b)[i], and, or)),
{
    proof { T::lemma_bounds(); }
    let va = pattern_bits(a);
    let vb = pattern_bits(b);
    let mut c: Vec<bool> = Vec::new();
    let mut i: usize = 0;
    while i < va.len()
        invariant
            i <= va@.len() == vb@.len() == T::spec_width(),
            va@ == bits_msb(a),
            vb@ == bits_msb(b),
            c@.len() == i,
            forall|j: int| 0 <= j < i ==> c@[j] == bit_op(va@[j], vb@[j], and, or),
        decreases va@.len() - i,
    {
        let x = va[i];
        let y = vb[i];
        let z = if and { x && y } else if or { x || y } else { x != y };
        c.push(z);
        i = i + 1;
    }
    let r = from_pattern_bits::<T>(&c);
    assert(c@ =~= Seq::new(T::spec_width(), |i: int| bit_op(bits_msb(a)[i], bits_msb(b)[i], and, or)));
    r
}

/// One bit of a bitwise operation: AND, OR, or else XOR.
pub open spec fn bit_op(x: bool, y: bool, and: bool, or: bool) -> bool {
    if and { x && y } else if or { x || y } else { x != y }
}

/// Bitwise AND of the full-width patterns.
pub fn bit_and<T: Integer>(a: T, b: T) -> (r: T)
    ensures
        bits_msb(r) == Seq::new(T::spec_width(), |i: int| bits_msb(a)[i] && bits_msb(b)[i]),
{
    let r = combine(a, b, true, false);
    assert(bits_msb(r) =~= Seq::new(T::spec_width(), |i: int| bits_msb(a)[i] && bits_msb(b)[i]));
    r
}

/// Bitwise OR of the full-width patterns.
pub fn bit_or<T: Integer>(a: T, b: T) -> (r: T)
    ensures
        bits_msb(r) == Seq::new(T::spec_width(), |i: int| bits_msb(a)[i] || bits_msb(b)[i]),
{
    let r = combine(a, b, false, true);
    assert(bits_msb(r) =~= Seq::new(T::spec_width(), |i: int| bits_msb(a)[i] || bits_msb(b)[i]));
    r
}

/// Bitwise XOR of the full-width patterns.
pub fn bit_xor<T: Integer>(a: T, b: T) -> (r: T)
    ensures
        bits_msb(r) == Seq::new(T::spec_width(), |i: int| bits_msb(a)[i] != bits_msb(b)[i]),
{
    let r = combine(a, b, false, false);
    assert(bits_msb(r) =~= Seq::new(T::spec_width(), |i: int| bits_msb(a)[i] != bits_msb(b)[i]));
    r
}

/// A finite sequence of the bits of a number, most significant first, padded with
/// leading zeros to the full width of its type.
pub struct Bits<T: Number> {
    n: T,
    flag: u32,
    len: u32,
    zeros: u32,
}

impl<T: Number> Bits<T> {
    /// The state is consistent: `zeros` leading zeros, then `len` significant bits.
    pub closed spec fn wf(self) -> bool {
        &&& self.zeros == leading_run(bits_msb(self.n), false)
        &&& self.len + self.zeros == T::spec_width()
        &&& self.flag <= T::spec_width()
    }

    /// The number being decomposed.
    pub closed spec fn source(self) -> T {
        self.n
    }

    /// The bits still to come.
    pub closed spec fn remaining(self) -> Seq<Bit> {
        bits_msb(self.n).subrange(self.flag as int, T::spec_width() as int).map_values(
            |b: bool| Bit::of_bool(b),
        )
    }

    pub fn new(n: T) -> (r: Bits<T>)
        ensures
            r.wf(),
            r.source() == n,
            r.remaining() == bits_msb(n).map_values(|b: bool| Bit::of_bool(b)),
            r.remaining().len() == T::spec_width(),
    {
        proof {
            T::lemma_bounds();
            lemma_bits_lsb_len(pattern(n.value(), T::spec_width()) as nat, T::spec_width());
            lemma_leading_run(bits_msb(n), false);
        }
        let zeros = leading_zeros(n);
        let r = Bits { n, flag: 0, len: T::bit_width() - zeros, zeros };
        assert(bits_msb(n).subrange(0, T::spec_width() as int) =~= bits_msb(n));
        r
    }

    pub fn number(self) -> (r: T)
        ensures
            r == self.source(),
    {
        self.n
    }

    /// The next bit, or `None` once all of them have been produced.
    pub fn next(&mut self) -> (r: Option<Bit>)
        requires
            old(self).wf(),
        ensures
            final(self).wf(),
            final(self).source() == old(self).source(),
            old(self).remaining().len() > 0 ==> r == Some(old(self).remaining()[0])
                && final(self).remaining() == old(self).remaining().drop_first(),
            old(self).remaining().len() == 0 ==> r.is_none() && final(self).remaining()
                == old(self).remaining(),
    {
        proof {
            T::lemma_bounds();
            T::lemma_range(self.n);
            lemma_bits_lsb_len(pattern(self.n.value(), T::spec_width()) as nat, T::spec_width());
            lemma_leading_run(bits_msb(self.n), false);
        }
        let ghost s = bits_msb(self.n);
        let ghost w = T::spec_width() as int;
        let ghost f = self.flag as int;
        if self.flag < self.zeros {
            self.flag = self.flag + 1;
            assert(self.remaining() =~= old(self).remaining().drop_first());
            Some(Bit::Zero)
        } else if self.flag < self.zeros + self.len {
            let p = self.zeros + self.len - 1 - self.flag;
            let raw = self.n.to_raw();
            let d = pow2_u128(p);
            proof {
                lemma_pow2_pos(p as nat);
                lemma_bits_lsb_index(raw as nat, w as nat, p as nat);
                assert(s[f] == bits_lsb(raw as nat, w as nat)[p as int]);
            }
            let b = Bit::from_u8_unchecked(((raw / d) % 2) as u8);
            self.flag = self.flag + 1;
            assert(self.remaining() =~= old(self).remaining().drop_first());
            Some(b)
        } else {
            None
        }
    }
}

/// The bits of `x`, most significant first, over the full width of its type.
pub fn bits<T: Number>(x: T) -> (r: Bits<T>)
    ensures
        r.wf(),
        r.source() == x,
        r.remaining() == bits_msb(x).map_values(|b: bool| Bit::of_bool(b)),
        r.remaining().len() == T::spec_width(),
{
    Bits::new(x)
}

} // verus!
