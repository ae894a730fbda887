use vstd::prelude::*;
use vstd::arithmetic::power::{pow, lemma_pow_increases, lemma_pow_positive};
use vstd::arithmetic::power2::{pow2, lemma_pow2_unfold};
use vstd::arithmetic::logarithm::log;
use vstd::arithmetic::div_mod::lemma_div_denominator;
use crate::num::{Number, abs, lemma_pow2_128};

verus! {

/// The decimal digits of `m`, most significant first; zero has the single digit 0.
pub open spec fn decimal_digits(m: nat) -> Seq<u8>
    decreases m,
{
    if m < 10 {
        seq![m as u8]
    } else {
        decimal_digits(m / 10).push((m % 10) as u8)
    }
}

/// The number written by a sequence of decimal digits, most significant first.
pub open spec fn from_decimal(s: Seq<u8>) -> nat
    decreases s.len(),
{
    if s.len() == 0 {
        0
    } else {
        10 * from_decimal(s.drop_last()) + s.last() as nat
    }
}

pub proof fn lemma_decimal_digits_len(m: nat)
    ensures
        decimal_digits(m).len() == 1 + log(10, m as int),
        pow(10, (decimal_digits(m).len() - 1) as nat) <= if m == 0 { 1 } else { m },
    decreases m,
{
    reveal(log);
    reveal(pow);
    if m >= 10 {
        lemma_decimal_digits_len(m / 10);
        let l = decimal_digits(m / 10).len();
        assert(pow(10, l as nat) == 10 * pow(10, (l - 1) as nat));
        assert(10 * (m / 10) <= m) by {
            vstd::arithmetic::div_mod::lemma_fundamental_div_mod(m as int, 10);
        }
    } else {
        reveal(pow);
    }
}

/// Digit `i` of `m` is `m / 10^(len - 1 - i) % 10`.
pub proof fn lemma_decimal_digits_index(m: nat, i: int)
    requires
        0 <= i < decimal_digits(m).len(),
    ensures
        decimal_digits(m)[i] as nat == (m / pow(10, (decimal_digits(m).len() - 1 - i) as nat) as nat) % 10,
    decreases m,
{
    let l = decimal_digits(m).len();
    reveal(pow);
    assert(pow(10, 0) == 1);
    if m < 10 {
        assert(m / 1 == m);
    } else if i == l - 1 {
        assert(decimal_digits(m)[i] == (m % 10) as u8);
        assert(m / 1 == m);
    } else {
        lemma_decimal_digits_len(m);
        lemma_decimal_digits_len(m / 10);
        assert(decimal_digits(m)[i] == decimal_digits(m / 10)[i]);
        lemma_decimal_digits_index(m / 10, i);
        let e = (l - 2 - i) as nat;
        lemma_pow_positive(10, e);
        assert(pow(10, (e + 1) as nat) == 10 * pow(10, e));
        assert((l - 1 - i) as nat == (e + 1) as nat);
        lemma_div_denominator(m as int, 10, pow(10, e));
    }
}

/// The digits of a number are decimal digits, the first is not zero unless the
/// number is zero, and read back they give the number.
pub proof fn lemma_decimal_digits_render(m: nat)
    ensures
        forall|i: int| 0 <= i < decimal_digits(m).len() ==> decimal_digits(m)[i] < 10,
        m > 0 ==> decimal_digits(m)[0] != 0,
        from_decimal(decimal_digits(m)) == m,
    decreases m,
{
    if m >= 10 {
        lemma_decimal_digits_render(m / 10);
        let s = decimal_digits(m);
        assert(s.drop_last() =~= decimal_digits(m / 10));
        assert(s.last() as nat == m % 10);
        vstd::arithmetic::div_mod::lemma_fundamental_div_mod(m as int, 10);
        assert(from_decimal(s) == 10 * from_decimal(decimal_digits(m / 10)) + s.last() as nat);
        assert(s[0] == decimal_digits(m / 10)[0]);
    } else {
        let s = decimal_digits(m);
        assert(s.drop_last() =~= Seq::<u8>::empty());
        assert(from_decimal(s.drop_last()) == 0);
        assert(from_decimal(s) == 10 * from_decimal(s.drop_last()) + s.last() as nat);
    }
}

/// `10^k`.
fn pow10_u128(k: u32) -> (r: u128)
    requires
        pow(10, k as nat) <= u128::MAX,
    ensures
        r == pow(10, k as nat),
{
    let mut r: u128 = 1;
    let mut i: u32 = 0;
    proof { reveal(pow); }
    while i < k
        invariant
            i <= k,
            pow(10, k as nat) <= u128::MAX,
            r == pow(10, i as nat),
        decreases k - i,
    {
        proof {
            lemma_pow_increases(10, (i + 1) as nat, k as nat);
            reveal(pow);
        }
        r = r * 10;
        i = i + 1;
    }
    r
}

/// Integer logarithm of `n` to base `b`, with the logarithm of 0 taken as 0.
pub(crate) fn log_u128(n: u128, b: u128) -> (r: u32)
    requires
        b >= 2,
    ensures
        r == log(b as int, n as int),
        r < 128,
{
    let mut cur: u128 = n;
    let mut k: u32 = 0;
    proof { vstd::arithmetic::power2::lemma2_to64(); }
    while cur >= b
        invariant
            b >= 2,
            k < 128,
            k + log(b as int, cur as int) == log(b as int, n as int),
            cur * pow2(k as nat) <= n,
            cur >= 1 || n == 0,
        decreases cur,
    {
        proof {
            reveal(log);
            let q = cur / b;
            vstd::arithmetic::div_mod::lemma_fundamental_div_mod(cur as int, b as int);
            assert(q * 2 <= cur) by (nonlinear_arith)
                requires cur == b * q + cur % b, cur % b >= 0, b >= 2, q >= 0;
            lemma_pow2_unfold((k + 1) as nat);
            assert(q * pow2((k + 1) as nat) <= n) by (nonlinear_arith)
                requires q * 2 <= cur, pow2((k + 1) as nat) == 2 * pow2(k as nat),
                    cur * pow2(k as nat) <= n, pow2(k as nat) >= 0;
            assert(q >= 1) by (nonlinear_arith)
                requires cur == b * q + cur % b, cur % b < b, cur >= b;
            lemma_pow2_128();
            if k + 1 >= 128 {
                if k + 1 > 128 {
                    vstd::arithmetic::power2::lemma_pow2_strictly_increases(128, (k + 1) as nat);
                }
                assert(q * pow2((k + 1) as nat) >= pow2((k + 1) as nat)) by (nonlinear_arith)
                    requires q >= 1, pow2((k + 1) as nat) >= 0;
            }
        }
        cur = cur / b;
        k = k + 1;
    }
    proof { reveal(log); }
    k
}

/// A finite sequence of the decimal digits of a number's magnitude, most significant first.
pub struct Digits<T: Number> {
    n: T,
    flag: usize,
    len: usize,
}

impl<T: Number> Digits<T> {
    /// The cursor lies within the digits, whose count is fixed at construction.
    #[verifier::type_invariant]
    pub closed spec fn wf(self) -> bool {
        &&& self.len == decimal_digits(abs(self.n.value()) as nat).len()
        &&& self.flag <= self.len <= 128
    }

    /// The number being decomposed.
    pub closed spec fn source(self) -> T {
        self.n
    }

    /// The digits still to come.
    pub closed spec fn remaining(self) -> Seq<u8> {
        decimal_digits(abs(self.n.value()) as nat).subrange(self.flag as int, self.len as int)
    }

    pub fn new(n: T) -> (r: Digits<T>)
        ensures
            r.wf(),
            r.source() == n,
            r.remaining() == decimal_digits(abs(n.value()) as nat),
    {
        let m = n.magnitude();
        proof { lemma_decimal_digits_len(m as nat); }
        let len = log_u128(m, 10) as usize + 1;
        let r = Digits { n, flag: 0, len };
        assert(decimal_digits(m as nat).subrange(0, len as int) =~= decimal_digits(m as nat));
        r
    }

    pub fn number(self) -> (r: T)
        ensures
            r == self.source(),
    {
        self.n
    }

    /// The next digit, or `None` once all of them have been produced.
    pub fn next(&mut self) -> (r: Option<u8>)
        ensures
            final(self).wf(),
            final(self).source() == old(self).source(),
            old(self).remaining().len() > 0 ==> r == Some(old(self).remaining()[0])
                && final(self).remaining() == old(self).remaining().drop_first(),
            old(self).remaining().len() == 0 ==> r.is_none() && final(self).remaining()
                == old(self).remaining(),
    {
        proof { use_type_invariant(&*self); }
        if self.flag < self.len {
            let m = self.n.magnitude();
            let ghost s = decimal_digits(m as nat);
            self.flag = self.flag + 1;
            let e = (self.len - self.flag) as u32;
            proof {
                lemma_decimal_digits_len(m as nat);
                lemma_pow_increases(10, e as nat, (s.len() - 1) as nat);
                lemma_pow_positive(10, e as nat);
                lemma_decimal_digits_index(m as nat, self.flag - 1);
            }
            let d = pow10_u128(e);
            let digit = ((m / d) % 10) as u8;
            assert(digit == s[self.flag - 1]);
            assert(old(self).remaining()[0] == s[self.flag - 1]);
            assert(self.remaining() =~= old(self).remaining().drop_first());
            Some(digit)
        } else {
            None
        }
    }
}

impl<T: Number> Digits<T> {
    /// The digits still to come, collected; `self` is left as it is.
    pub fn to_vec(&self) -> (r: Vec<u8>)
        ensures
            r@ == self.remaining(),
    {
        proof { use_type_invariant(self); }
        let mut c = Digits { n: self.n, flag: self.flag, len: self.len };
        let mut out: Vec<u8> = Vec::new();
        loop
            invariant
                out@ + c.remaining() == self.remaining(),
            ensures
                out@ == self.remaining(),
            decreases c.remaining().len(),
        {
            match c.next() {
                Some(d) => {
                    proof { assert(out@.push(d) + c.remaining() =~= self.remaining()); }
                    out.push(d);
                },
                None => {
                    proof { assert(out@ =~= self.remaining()); }
                    break;
                },
            }
        }
        out
    }
}

/// The decimal digits of the magnitude of `x`, most significant first.
pub fn digits<T: Number>(x: T) -> (r: Digits<T>)
    ensures
        r.wf(),
        r.source() == x,
        r.remaining() == decimal_digits(abs(x.value()) as nat),
{
    Digits::new(x)
}

} // verus!
