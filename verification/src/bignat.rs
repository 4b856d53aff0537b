//! Arbitrary-precision unsigned integers for ledger amounts.
//!
//! Amounts, fees, balances, and allowances are arbitrary-precision so that
//! large supplies never overflow. A `BigNat` stores decimal digits, least
//! significant first, with no trailing zero digit (so zero is the empty
//! vector); its view is the mathematical natural it denotes.

use vstd::prelude::*;

verus! {

/// An arbitrary-precision natural number.
#[derive(Debug)]
pub struct BigNat {
    digits: Vec<u8>,
}

/// The natural number denoted by a little-endian sequence of decimal digits.
pub open spec fn digits_val(s: Seq<u8>) -> nat
    decreases s.len(),
{
    if s.len() == 0 {
        0
    } else {
        s[0] as nat + 10 * digits_val(s.subrange(1, s.len() as int))
    }
}

/// Ten to the power `k`.
pub open spec fn pow10(k: nat) -> nat
    decreases k,
{
    if k == 0 {
        1
    } else {
        10 * pow10((k - 1) as nat)
    }
}

/// Every digit is below ten.
pub open spec fn digits_in_range(s: Seq<u8>) -> bool {
    forall|i: int| 0 <= i < s.len() ==> s[i] < 10
}

/// No trailing zero digit: the denoted value determines the digits.
pub open spec fn digits_canonical(s: Seq<u8>) -> bool {
    s.len() > 0 ==> s[s.len() - 1] != 0
}

impl View for BigNat {
    type V = nat;

    closed spec fn view(&self) -> nat {
        digits_val(self.digits@)
    }
}

proof fn lemma_val_push(s: Seq<u8>, d: u8)
    ensures
        digits_val(s.push(d)) == digits_val(s) + d * pow10(s.len()),
    decreases s.len(),
{
    let t = s.push(d);
    if s.len() == 0 {
        assert(t.subrange(1, 1) =~= Seq::<u8>::empty());
        assert(digits_val(Seq::<u8>::empty()) == 0);
        assert(digits_val(t) == d);
        assert(pow10(s.len()) == 1);
        assert(d * pow10(s.len()) == d) by (nonlinear_arith)
            requires
                pow10(s.len()) == 1,
        ;
    } else {
        let rest = s.subrange(1, s.len() as int);
        assert(t.subrange(1, t.len() as int) =~= rest.push(d));
        lemma_val_push(rest, d);
        assert(digits_val(t) == s[0] + 10 * digits_val(rest.push(d)));
        assert(pow10(s.len()) == 10 * pow10(rest.len()));
        assert(10 * (digits_val(rest) + d * pow10(rest.len())) == 10 * digits_val(rest) + d * (10
            * pow10(rest.len()))) by (nonlinear_arith);
        assert(d * pow10(s.len()) == d * (10 * pow10(rest.len()))) by (nonlinear_arith)
            requires
                pow10(s.len()) == 10 * pow10(rest.len()),
        ;
    }
}

proof fn lemma_val_upper(s: Seq<u8>)
    requires
        digits_in_range(s),
    ensures
        digits_val(s) < pow10(s.len() as nat),
    decreases s.len(),
{
    if s.len() > 0 {
        let rest = s.subrange(1, s.len() as int);
        lemma_val_upper(rest);
        assert(digits_val(rest) + 1 <= pow10(rest.len()));
        assert(10 * (digits_val(rest) + 1) <= 10 * pow10(rest.len())) by (nonlinear_arith)
            requires
                digits_val(rest) + 1 <= pow10(rest.len()),
        ;
    }
}

proof fn lemma_val_lower(s: Seq<u8>)
    requires
        digits_in_range(s),
        digits_canonical(s),
        s.len() > 0,
    ensures
        digits_val(s) >= pow10((s.len() - 1) as nat),
    decreases s.len(),
{
    if s.len() == 1 {
    } else {
        let rest = s.subrange(1, s.len() as int);
        assert(rest[rest.len() - 1] == s[s.len() - 1]);
        lemma_val_lower(rest);
        assert(10 * digits_val(rest) >= 10 * pow10((rest.len() - 1) as nat)) by (nonlinear_arith)
            requires
                digits_val(rest) >= pow10((rest.len() - 1) as nat),
        ;
    }
}

proof fn lemma_val_zero(s: Seq<u8>)
    requires
        digits_in_range(s),
        digits_canonical(s),
        digits_val(s) == 0,
    ensures
        s.len() == 0,
{
    if s.len() > 0 {
        lemma_val_lower(s);
        lemma_pow10_positive((s.len() - 1) as nat);
    }
}

proof fn lemma_pow10_positive(k: nat)
    ensures
        pow10(k) >= 1,
    decreases k,
{
    if k > 0 {
        lemma_pow10_positive((k - 1) as nat);
    }
}

/// Splitting a digit string at `i` splits its value at weight `pow10(i)`.
proof fn lemma_val_split(s: Seq<u8>, i: int)
    requires
        0 <= i <= s.len(),
    ensures
        digits_val(s) == digits_val(s.subrange(0, i)) + pow10(i as nat) * digits_val(
            s.subrange(i, s.len() as int),
        ),
    decreases i,
{
    if i == 0 {
        assert(s.subrange(0, 0) =~= Seq::<u8>::empty());
        assert(s.subrange(0, s.len() as int) =~= s);
        assert(pow10(0) == 1);
        assert(1 * digits_val(s) == digits_val(s)) by (nonlinear_arith);
        assert(pow10(0) * digits_val(s) == 1 * digits_val(s)) by (nonlinear_arith)
            requires
                pow10(0) == 1,
        ;
    } else {
        lemma_val_split(s, i - 1);
        let lo = s.subrange(0, i - 1);
        let hi = s.subrange(i - 1, s.len() as int);
        assert(s.subrange(0, i) =~= lo.push(s[i - 1]));
        lemma_val_push(lo, s[i - 1]);
        assert(hi.subrange(1, hi.len() as int) =~= s.subrange(i, s.len() as int));
        let hv = digits_val(s.subrange(i, s.len() as int));
        assert(digits_val(hi) == s[i - 1] + 10 * hv);
        let p = pow10((i - 1) as nat);
        assert(pow10(i as nat) == 10 * p);
        assert(p * digits_val(hi) == p * (s[i - 1] + 10 * hv)) by (nonlinear_arith)
            requires
                digits_val(hi) == s[i - 1] + 10 * hv,
        ;
        assert(p * (s[i - 1] + 10 * hv) == s[i - 1] * p + (10 * p) * hv) by (nonlinear_arith);
        assert((10 * p) * hv == pow10(i as nat) * hv) by (nonlinear_arith)
            requires
                pow10(i as nat) == 10 * p,
        ;
        assert(lo.len() == i - 1);
    }
}

impl BigNat {
    /// Well-formedness: digits below ten, no trailing zero digit.
    #[verifier::type_invariant]
    pub closed spec fn wf(self) -> bool {
        digits_in_range(self.digits@) && digits_canonical(self.digits@)
    }

    /// The zero amount.
    pub fn zero() -> (r: BigNat)
        ensures
            r@ == 0,
    {
        BigNat { digits: Vec::new() }
    }

    /// The amount equal to a machine integer.
    pub fn from_u64(n: u64) -> (r: BigNat)
        ensures
            r@ == n as nat,
    {
        let mut digits: Vec<u8> = Vec::new();
        let mut m: u64 = n;
        proof {
            assert(pow10(0) == 1);
            assert((m as nat) * pow10(0) == m as nat) by (nonlinear_arith)
                requires
                    pow10(0) == 1,
            ;
        }
        while m > 0
            invariant
                digits_in_range(digits@),
                m == 0 ==> digits_canonical(digits@),
                digits_val(digits@) + m * pow10(digits@.len() as nat) == n as nat,
            decreases m,
        {
            let d: u8 = (m % 10) as u8;
            let ghost old_digits = digits@;
            let ghost old_m = m as nat;
            digits.push(d);
            m = m / 10;
            proof {
                lemma_val_push(old_digits, d);
                let k = old_digits.len() as nat;
                assert(old_m == d + 10 * (m as nat));
                assert(old_m * pow10(k) == (d + 10 * (m as nat)) * pow10(k)) by (nonlinear_arith)
                    requires
                        old_m == d + 10 * (m as nat),
                ;
                assert((d + 10 * (m as nat)) * pow10(k) == d * pow10(k) + (m as nat) * (10 * pow10(
                    k,
                ))) by (nonlinear_arith);
                assert(pow10((k + 1) as nat) == 10 * pow10(k));
                assert((m as nat) * (10 * pow10(k)) == (m as nat) * pow10((k + 1) as nat))
                    by (nonlinear_arith)
                    requires
                        pow10((k + 1) as nat) == 10 * pow10(k),
                ;
                assert(digits@.len() == k + 1);
            }
        }
        proof {
            assert((m as nat) * pow10(digits@.len() as nat) == 0) by (nonlinear_arith)
                requires
                    m == 0,
            ;
            assert(digits_val(digits@) == n as nat);
        }
        BigNat { digits }
    }

    /// The sum of two amounts.
    pub fn plus(&self, other: &BigNat) -> (r: BigNat)
        ensures
            r@ == self@ + other@,
    {
        proof {
            use_type_invariant(self);
            use_type_invariant(other);
            assert(self.digits@.subrange(0, self.digits@.len() as int) =~= self.digits@);
            assert(other.digits@.subrange(0, other.digits@.len() as int) =~= other.digits@);
        }
        let digits = add_digits(&self.digits, &other.digits, 0, 0, 0);
        BigNat { digits }
    }

    /// The difference of two amounts; the subtrahend must not exceed the minuend.
    pub fn minus(&self, other: &BigNat) -> (r: BigNat)
        requires
            other@ <= self@,
        ensures
            r@ == self@ - other@,
    {
        proof {
            use_type_invariant(self);
            use_type_invariant(other);
            assert(self.digits@.subrange(0, self.digits@.len() as int) =~= self.digits@);
            assert(other.digits@.subrange(0, other.digits@.len() as int) =~= other.digits@);
        }
        let digits = sub_digits(&self.digits, &other.digits, 0, 0, 0);
        BigNat { digits }
    }

    /// Whether this amount is at most `other`.
    pub fn le(&self, other: &BigNat) -> (r: bool)
        ensures
            r == (self@ <= other@),
    {
        proof {
            use_type_invariant(self);
            use_type_invariant(other);
        }
        let n1 = self.digits.len();
        let n2 = other.digits.len();
        if n1 < n2 {
            proof {
                lemma_val_upper(self.digits@);
                lemma_val_lower(other.digits@);
                lemma_pow10_monotone(n1 as nat, (n2 - 1) as nat);
            }
            return true;
        }
        if n1 > n2 {
            proof {
                lemma_val_upper(other.digits@);
                if n1 > 0 {
                    lemma_val_lower(self.digits@);
                    lemma_pow10_monotone(n2 as nat, (n1 - 1) as nat);
                }
            }
            return false;
        }
        let mut i: usize = n1;
        while i > 0
            invariant
                i <= n1,
                n1 == self.digits@.len(),
                n1 == other.digits@.len(),
                digits_in_range(self.digits@),
                digits_in_range(other.digits@),
                forall|j: int| i <= j < n1 ==> self.digits@[j] == other.digits@[j],
            decreases i,
        {
            i = i - 1;
            let da = self.digits[i];
            let db = other.digits[i];
            if da < db {
                proof {
                    lemma_val_cmp(self.digits@, other.digits@, i as int);
                }
                return true;
            }
            if da > db {
                proof {
                    lemma_val_cmp(other.digits@, self.digits@, i as int);
                }
                return false;
            }
        }
        proof {
            assert(self.digits@ =~= other.digits@);
        }
        true
    }

    /// Whether this amount is strictly below `other`.
    pub fn lt(&self, other: &BigNat) -> (r: bool)
        ensures
            r == (self@ < other@),
    {
        !other.le(self)
    }

    /// Whether the two amounts are equal.
    pub fn eq_value(&self, other: &BigNat) -> (r: bool)
        ensures
            r == (self@ == other@),
    {
        self.le(other) && other.le(self)
    }
}

/// The character for a single decimal digit.
pub open spec fn digit_char(d: nat) -> char {
    if d == 0 {
        '0'
    } else if d == 1 {
        '1'
    } else if d == 2 {
        '2'
    } else if d == 3 {
        '3'
    } else if d == 4 {
        '4'
    } else if d == 5 {
        '5'
    } else if d == 6 {
        '6'
    } else if d == 7 {
        '7'
    } else if d == 8 {
        '8'
    } else {
        '9'
    }
}

/// The decimal numeral of `n`, most significant digit first.
pub open spec fn dec_str_of(n: nat) -> Seq<char>
    decreases n,
{
    if n < 10 {
        seq![digit_char(n)]
    } else {
        dec_str_of(n / 10).push(digit_char(n % 10))
    }
}

/// The digit characters of a digit string, most significant first.
spec fn rev_chars(s: Seq<u8>) -> Seq<char> {
    Seq::new(s.len(), |j: int| digit_char(s[s.len() - 1 - j] as nat))
}

/// The decimal numeral of the value of a canonical digit string reads its
/// digits from most significant to least significant.
proof fn lemma_dec_str(s: Seq<u8>)
    requires
        digits_in_range(s),
        digits_canonical(s),
        s.len() > 0,
    ensures
        dec_str_of(digits_val(s)) =~= rev_chars(s),
    decreases s.len(),
{
    let rest = s.subrange(1, s.len() as int);
    let n = digits_val(s);
    assert(n == s[0] + 10 * digits_val(rest));
    if s.len() == 1 {
        assert(rest =~= Seq::<u8>::empty());
        assert(n == s[0]);
    } else {
        assert(rest[rest.len() - 1] == s[s.len() - 1]);
        lemma_val_lower(rest);
        lemma_pow10_positive((rest.len() - 1) as nat);
        let v = digits_val(rest);
        assert(v >= 1);
        assert(n >= 10);
        vstd::arithmetic::div_mod::lemma_fundamental_div_mod_converse(
            n as int,
            10,
            v as int,
            s[0] as int,
        );
        assert(n / 10 == v);
        assert(n % 10 == s[0] as nat);
        lemma_dec_str(rest);
    }
}

impl BigNat {
    /// The decimal numeral of this amount, as text; zero reads "0".
    pub fn to_dec_string(&self) -> (r: String)
        ensures
            r@ == dec_str_of(self@),
    {
        proof {
            use_type_invariant(self);
            reveal_strlit("0");
            reveal_strlit("1");
            reveal_strlit("2");
            reveal_strlit("3");
            reveal_strlit("4");
            reveal_strlit("5");
            reveal_strlit("6");
            reveal_strlit("7");
            reveal_strlit("8");
            reveal_strlit("9");
        }
        let n = self.digits.len();
        if n == 0 {
            let r = String::new().concat("0");
            proof {
                assert(r@ =~= dec_str_of(0));
            }
            return r;
        }
        let mut out = String::new();
        let mut i: usize = n;
        while i > 0
            invariant
                i <= n,
                n == self.digits@.len(),
                digits_in_range(self.digits@),
                out@ =~= rev_chars(self.digits@.subrange(i as int, n as int)),
            decreases i,
        {
            i = i - 1;
            let ghost prev = out@;
            let d = self.digits[i];
            match d {
                0 => out.append("0"),
                1 => out.append("1"),
                2 => out.append("2"),
                3 => out.append("3"),
                4 => out.append("4"),
                5 => out.append("5"),
                6 => out.append("6"),
                7 => out.append("7"),
                8 => out.append("8"),
                _ => out.append("9"),
            }
            proof {
                reveal_strlit("0");
                reveal_strlit("1");
                reveal_strlit("2");
                reveal_strlit("3");
                reveal_strlit("4");
                reveal_strlit("5");
                reveal_strlit("6");
                reveal_strlit("7");
                reveal_strlit("8");
                reveal_strlit("9");
                assert(out@ =~= prev + seq![digit_char(d as nat)]);
                assert(out@ =~= rev_chars(self.digits@.subrange(i as int, n as int)));
            }
        }
        proof {
            assert(self.digits@.subrange(0, n as int) =~= self.digits@);
            lemma_dec_str(self.digits@);
        }
        out
    }
}

/// Whether a character is a decimal digit.
pub open spec fn is_dec_digit(c: char) -> bool {
    c == '0' || c == '1' || c == '2' || c == '3' || c == '4' || c == '5' || c == '6' || c == '7'
        || c == '8' || c == '9'
}

/// The value of a decimal digit character; meaningful only for digits.
pub open spec fn digit_of(c: char) -> u8 {
    if c == '0' {
        0
    } else if c == '1' {
        1
    } else if c == '2' {
        2
    } else if c == '3' {
        3
    } else if c == '4' {
        4
    } else if c == '5' {
        5
    } else if c == '6' {
        6
    } else if c == '7' {
        7
    } else if c == '8' {
        8
    } else {
        9
    }
}

/// The natural denoted by a decimal numeral, most significant digit
/// first; leading zeroes are allowed and the empty numeral denotes zero.
pub open spec fn dec_val(s: Seq<char>) -> nat
    decreases s.len(),
{
    if s.len() == 0 {
        0
    } else {
        dec_val(s.drop_last()) * 10 + digit_of(s.last()) as nat
    }
}

/// Peeling the leading digit: it carries the highest weight.
proof fn lemma_dec_val_head(t: Seq<char>)
    requires
        t.len() > 0,
    ensures
        dec_val(t) == digit_of(t[0]) * pow10((t.len() - 1) as nat) + dec_val(
            t.subrange(1, t.len() as int),
        ),
    decreases t.len(),
{
    if t.len() == 1 {
        assert(t.drop_last() =~= Seq::<char>::empty());
        assert(t.subrange(1, 1) =~= Seq::<char>::empty());
        assert(pow10(0) == 1);
        assert(digit_of(t[0]) * 1 == digit_of(t[0])) by (nonlinear_arith);
    } else {
        let head = t.drop_last();
        lemma_dec_val_head(head);
        let k = (t.len() - 2) as nat;
        assert(head[0] == t[0]);
        assert(head.subrange(1, head.len() as int) =~= t.subrange(1, t.len() as int).drop_last());
        let d0 = digit_of(t[0]) as nat;
        let mid = dec_val(t.subrange(1, t.len() as int).drop_last());
        assert(dec_val(head) == d0 * pow10(k) + mid);
        assert((d0 * pow10(k) + mid) * 10 == d0 * (10 * pow10(k)) + mid * 10) by (nonlinear_arith);
        assert(pow10((k + 1) as nat) == 10 * pow10(k));
        assert(d0 * (10 * pow10(k)) == d0 * pow10((k + 1) as nat)) by (nonlinear_arith)
            requires
                pow10((k + 1) as nat) == 10 * pow10(k),
        ;
        assert(dec_val(t.subrange(1, t.len() as int)) == mid * 10 + digit_of(t.last()));
    }
}

impl BigNat {
    /// Parses a decimal numeral; `None` when any character is not a
    /// digit. Leading zeroes are accepted and the empty text denotes zero.
    pub fn from_dec_str(s: &str) -> (r: Option<BigNat>)
        ensures
            (forall|i: int| 0 <= i < s@.len() ==> is_dec_digit(#[trigger] s@[i])) ==> (r matches
                Some(v) && v@ == dec_val(s@)),
            (exists|i: int| 0 <= i < s@.len() && !is_dec_digit(#[trigger] s@[i])) ==> r is None,
    {
        let n = s.unicode_len();
        let mut digits: Vec<u8> = Vec::new();
        let mut i: usize = 0;
        proof {
            assert(s@.subrange(n as int, n as int) =~= Seq::<char>::empty());
        }
        while i < n
            invariant
                i <= n,
                n == s@.len(),
                digits@.len() == i,
                digits_in_range(digits@),
                forall|j: int| 0 <= j < i ==> is_dec_digit(#[trigger] s@[n - 1 - j]),
                forall|j: int| 0 <= j < i ==> digits@[j] == digit_of(s@[n - 1 - j]),
                digits_val(digits@) == dec_val(s@.subrange((n - i) as int, n as int)),
            decreases n - i,
        {
            let c = s.get_char(n - 1 - i);
            let d: u8 = match c {
                '0' => 0,
                '1' => 1,
                '2' => 2,
                '3' => 3,
                '4' => 4,
                '5' => 5,
                '6' => 6,
                '7' => 7,
                '8' => 8,
                '9' => 9,
                _ => {
                    return None;
                },
            };
            let ghost pre = digits@;
            digits.push(d);
            proof {
                lemma_val_push(pre, d);
                let t = s@.subrange((n - i - 1) as int, n as int);
                lemma_dec_val_head(t);
                assert(t[0] == s@[n - 1 - i]);
                assert(t.subrange(1, t.len() as int) =~= s@.subrange((n - i) as int, n as int));
                assert((d as nat) * pow10(i as nat) == digit_of(t[0]) * pow10(
                    (t.len() - 1) as nat,
                ));
            }
            i = i + 1;
        }
        proof {
            assert(s@.subrange(0, n as int) =~= s@);
            assert forall|p: int| 0 <= p < n implies is_dec_digit(#[trigger] s@[p]) by {
                assert(is_dec_digit(s@[n - 1 - (n - 1 - p)]));
            }
        }
        while digits.len() > 0 && digits[digits.len() - 1] == 0
            invariant
                digits_in_range(digits@),
                digits_val(digits@) == dec_val(s@),
            decreases digits@.len(),
        {
            let ghost pre = digits@;
            digits.pop();
            proof {
                assert(pre =~= digits@.push(0));
                lemma_val_push(digits@, 0);
            }
        }
        Some(BigNat { digits })
    }
}

impl Clone for BigNat {
    fn clone(&self) -> (r: Self)
        ensures
            r@ == self@,
    {
        proof {
            use_type_invariant(self);
        }
        let digits = self.digits.clone();
        proof {
            assert(digits@ =~= self.digits@);
        }
        BigNat { digits }
    }
}

proof fn lemma_pow10_monotone(a: nat, b: nat)
    requires
        a <= b,
    ensures
        pow10(a) <= pow10(b),
    decreases b,
{
    if a < b {
        lemma_pow10_monotone(a, (b - 1) as nat);
        lemma_pow10_positive((b - 1) as nat);
    }
}

/// If two equal-length digit strings agree above position `i` and differ at
/// `i`, the one with the smaller digit at `i` denotes the smaller value.
proof fn lemma_val_cmp(a: Seq<u8>, b: Seq<u8>, i: int)
    requires
        a.len() == b.len(),
        0 <= i < a.len(),
        digits_in_range(a),
        digits_in_range(b),
        forall|j: int| i < j < a.len() ==> a[j] == b[j],
        a[i] < b[i],
    ensures
        digits_val(a) < digits_val(b),
{
    lemma_val_split(a, i);
    lemma_val_split(b, i);
    let ahi = a.subrange(i, a.len() as int);
    let bhi = b.subrange(i, b.len() as int);
    assert(ahi.subrange(1, ahi.len() as int) =~= bhi.subrange(1, bhi.len() as int));
    let common = digits_val(ahi.subrange(1, ahi.len() as int));
    assert(digits_val(ahi) == a[i] + 10 * common);
    assert(digits_val(bhi) == b[i] + 10 * common);
    lemma_val_upper(a.subrange(0, i));
    lemma_val_upper(b.subrange(0, i));
    let p = pow10(i as nat);
    assert(digits_val(ahi) + 1 <= digits_val(bhi));
    assert(p * digits_val(ahi) + p <= p * digits_val(bhi)) by (nonlinear_arith)
        requires
            digits_val(ahi) + 1 <= digits_val(bhi),
            p >= 0,
    ;
    lemma_pow10_positive(i as nat);
}

/// Schoolbook addition of the digit strings `a` from `ia` and `b` from `ib`,
/// with an incoming carry.
fn add_digits(a: &Vec<u8>, b: &Vec<u8>, ia: usize, ib: usize, carry: u8) -> (r: Vec<u8>)
    requires
        digits_in_range(a@),
        digits_in_range(b@),
        digits_canonical(a@),
        digits_canonical(b@),
        ia <= a@.len(),
        ib <= b@.len(),
        carry <= 1,
    ensures
        digits_val(r@) == digits_val(a@.subrange(ia as int, a@.len() as int)) + digits_val(
            b@.subrange(ib as int, b@.len() as int),
        ) + carry,
        digits_in_range(r@),
        digits_canonical(r@),
    decreases a@.len() - ia + b@.len() - ib, carry,
{
    let na = a.len();
    let nb = b.len();
    if ia >= na && ib >= nb && carry == 0 {
        proof {
            assert(a@.subrange(ia as int, na as int) =~= Seq::<u8>::empty());
            assert(b@.subrange(ib as int, nb as int) =~= Seq::<u8>::empty());
        }
        return Vec::new();
    }
    let da: u8 = if ia < na {
        a[ia]
    } else {
        0
    };
    let db: u8 = if ib < nb {
        b[ib]
    } else {
        0
    };
    let s: u8 = da + db + carry;
    let d: u8 = s % 10;
    let c: u8 = s / 10;
    let ia2: usize = if ia < na {
        ia + 1
    } else {
        ia
    };
    let ib2: usize = if ib < nb {
        ib + 1
    } else {
        ib
    };
    let mut rest = add_digits(a, b, ia2, ib2, c);
    let ghost rest_seq = rest@;
    let ghost resta = a@.subrange(ia2 as int, na as int);
    let ghost restb = b@.subrange(ib2 as int, nb as int);
    rest.insert(0, d);
    proof {
        assert(rest@.subrange(1, rest@.len() as int) =~= rest_seq);
        // value of the result
        let fulla = a@.subrange(ia as int, na as int);
        let fullb = b@.subrange(ib as int, nb as int);
        if ia < na {
            assert(fulla.subrange(1, fulla.len() as int) =~= resta);
            assert(digits_val(fulla) == da + 10 * digits_val(resta));
        } else {
            assert(fulla =~= resta);
        }
        if ib < nb {
            assert(fullb.subrange(1, fullb.len() as int) =~= restb);
            assert(digits_val(fullb) == db + 10 * digits_val(restb));
        } else {
            assert(fullb =~= restb);
        }
        assert(d + 10 * c == da + db + carry);
        // canonicity
        if rest_seq.len() == 0 {
            assert(digits_val(resta) + digits_val(restb) + c == 0);
            if d == 0 {
                // the sum is zero only when every input part is zero, which
                // the guard at the top has excluded
                lemma_val_zero_digits(resta, a@, ia2 as int);
                lemma_val_zero_digits(restb, b@, ib2 as int);
                assert(ia2 == na && ib2 == nb);
                if ia < na {
                    assert(a@[na - 1] != 0 && da == a@[ia as int] && ia == na - 1);
                    assert(false);
                } else if ib < nb {
                    assert(false);
                } else {
                    assert(carry == 1);
                    assert(false);
                }
            }
        } else {
            assert(rest@[rest@.len() - 1] == rest_seq[rest_seq.len() - 1]);
        }
    }
    rest
}

/// A canonical digit-string suffix of value zero is empty, so the suffix
/// starts at the end of the string.
proof fn lemma_val_zero_digits(suffix: Seq<u8>, whole: Seq<u8>, start: int)
    requires
        0 <= start <= whole.len(),
        suffix =~= whole.subrange(start, whole.len() as int),
        digits_in_range(whole),
        digits_canonical(whole),
        digits_val(suffix) == 0,
    ensures
        start == whole.len(),
{
    if start < whole.len() {
        assert(suffix[suffix.len() - 1] == whole[whole.len() - 1]);
        lemma_val_zero(suffix);
    }
}

/// Schoolbook subtraction of the digit string `b` from `ib` out of `a` from
/// `ia`, with an incoming borrow; the subtrahend must not exceed the minuend.
fn sub_digits(a: &Vec<u8>, b: &Vec<u8>, ia: usize, ib: usize, borrow: u8) -> (r: Vec<u8>)
    requires
        digits_in_range(a@),
        digits_in_range(b@),
        ia <= a@.len(),
        ib <= b@.len(),
        borrow <= 1,
        digits_val(b@.subrange(ib as int, b@.len() as int)) + borrow <= digits_val(
            a@.subrange(ia as int, a@.len() as int),
        ),
    ensures
        digits_val(r@) == digits_val(a@.subrange(ia as int, a@.len() as int)) - digits_val(
            b@.subrange(ib as int, b@.len() as int),
        ) - borrow,
        digits_in_range(r@),
        digits_canonical(r@),
    decreases a@.len() - ia,
{
    let na = a.len();
    let nb = b.len();
    if ia >= na {
        proof {
            assert(a@.subrange(ia as int, na as int) =~= Seq::<u8>::empty());
        }
        return Vec::new();
    }
    let da: u8 = a[ia];
    let db: u8 = if ib < nb {
        b[ib]
    } else {
        0
    };
    let (d, borrow2): (u8, u8) = if da >= db + borrow {
        (da - db - borrow, 0)
    } else {
        (da + 10 - db - borrow, 1)
    };
    let ib2: usize = if ib < nb {
        ib + 1
    } else {
        ib
    };
    proof {
        let fulla = a@.subrange(ia as int, na as int);
        let fullb = b@.subrange(ib as int, nb as int);
        let resta = a@.subrange(ia + 1, na as int);
        let restb = b@.subrange(ib2 as int, nb as int);
        assert(fulla.subrange(1, fulla.len() as int) =~= resta);
        assert(digits_val(fulla) == da + 10 * digits_val(resta));
        if ib < nb {
            assert(fullb.subrange(1, fullb.len() as int) =~= restb);
            assert(digits_val(fullb) == db + 10 * digits_val(restb));
        } else {
            assert(fullb =~= restb);
        }
        assert(digits_val(restb) + borrow2 <= digits_val(resta));
    }
    let mut rest = sub_digits(a, b, ia + 1, ib2, borrow2);
    let ghost rest_seq = rest@;
    if d == 0 && rest.len() == 0 {
        proof {
            let fulla = a@.subrange(ia as int, na as int);
            let fullb = b@.subrange(ib as int, nb as int);
            assert(digits_val(Seq::<u8>::empty()) == 0);
        }
        return Vec::new();
    }
    rest.insert(0, d);
    proof {
        assert(rest@.subrange(1, rest@.len() as int) =~= rest_seq);
        if rest_seq.len() > 0 {
            assert(rest@[rest@.len() - 1] == rest_seq[rest_seq.len() - 1]);
        }
    }
    rest
}

} // verus!
