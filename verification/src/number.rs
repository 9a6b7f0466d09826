//! Numbers of the language: exact decimals with a sign, a whole part and a
//! fractional part, kept in a canonical form so that equal numbers have equal
//! digits.

use crate::text::{char_of_digit, digit_char, push_char};
use vstd::prelude::*;

verus! {

/// The mathematical content of a [`Number`]: its sign and its decimal digits,
/// most significant first.
pub struct NumberView {
    pub negative: bool,
    pub whole: Seq<u8>,
    pub frac: Seq<u8>,
}

/// Every element is a decimal digit.
pub open spec fn all_digits(s: Seq<u8>) -> bool {
    forall|i: int| 0 <= i < s.len() ==> #[trigger] s[i] < 10
}

/// `s` without its leading zeros.
pub open spec fn trim_front(s: Seq<u8>) -> Seq<u8>
    decreases s.len(),
{
    if s.len() > 0 && s[0] == 0 {
        trim_front(s.drop_first())
    } else {
        s
    }
}

/// `s` without its trailing zeros.
pub open spec fn trim_back(s: Seq<u8>) -> Seq<u8>
    decreases s.len(),
{
    if s.len() > 0 && s.last() == 0 {
        trim_back(s.drop_last())
    } else {
        s
    }
}

/// The canonical form: only digits, no leading zero in the whole part, no
/// trailing zero in the fraction, and zero carries no sign.
pub open spec fn canonical(v: NumberView) -> bool {
    &&& all_digits(v.whole)
    &&& all_digits(v.frac)
    &&& v.whole.len() > 0 ==> v.whole[0] != 0
    &&& v.frac.len() > 0 ==> v.frac.last() != 0
    &&& v.negative ==> v.whole.len() + v.frac.len() > 0
}

/// The canonical number written with the given sign and digits.
pub open spec fn normal_form(negative: bool, whole: Seq<u8>, frac: Seq<u8>) -> NumberView {
    let w = trim_front(whole);
    let f = trim_back(frac);
    NumberView { negative: negative && w.len() + f.len() > 0, whole: w, frac: f }
}

/// The characters that show a sequence of digits.
pub open spec fn digits_text(s: Seq<u8>) -> Seq<char> {
    Seq::new(s.len(), |i: int| digit_char(s[i]))
}

/// The canonical text of a number: an optional `-`, the whole part (`0` when
/// it is empty) and, if there is a fraction, a `.` and its digits.
pub open spec fn number_text(v: NumberView) -> Seq<char> {
    let sign = if v.negative {
        seq!['-']
    } else {
        Seq::<char>::empty()
    };
    let whole = if v.whole.len() == 0 {
        seq!['0']
    } else {
        digits_text(v.whole)
    };
    let frac = if v.frac.len() == 0 {
        Seq::<char>::empty()
    } else {
        seq!['.'] + digits_text(v.frac)
    };
    sign + whole + frac
}

/// `s` with zeros put before it until it is `w` long.
pub open spec fn pad_front(s: Seq<u8>, w: nat) -> Seq<u8>
    recommends
        s.len() <= w,
{
    Seq::new((w - s.len()) as nat, |i: int| 0u8) + s
}

/// `s` with zeros put after it until it is `f` long.
pub open spec fn pad_back(s: Seq<u8>, f: nat) -> Seq<u8>
    recommends
        s.len() <= f,
{
    s + Seq::new((f - s.len()) as nat, |i: int| 0u8)
}

/// `a` comes before `b` when both are read as digit strings of one length:
/// the first place where they differ decides.
pub open spec fn digits_before(a: Seq<u8>, b: Seq<u8>) -> bool
    decreases a.len(),
{
    if a.len() == 0 || b.len() == 0 {
        false
    } else if a[0] != b[0] {
        a[0] < b[0]
    } else {
        digits_before(a.drop_first(), b.drop_first())
    }
}

/// The larger of two lengths.
pub open spec fn longer(a: nat, b: nat) -> nat {
    if a >= b {
        a
    } else {
        b
    }
}

/// The magnitude of `a` is smaller than that of `b`: with both written on
/// the same number of places, the whole parts are compared digit by digit,
/// and if they are the same, the fractions.
pub open spec fn magnitude_below(a: NumberView, b: NumberView) -> bool {
    let w = longer(a.whole.len(), b.whole.len());
    let f = longer(a.frac.len(), b.frac.len());
    if pad_front(a.whole, w) != pad_front(b.whole, w) {
        digits_before(pad_front(a.whole, w), pad_front(b.whole, w))
    } else {
        digits_before(pad_back(a.frac, f), pad_back(b.frac, f))
    }
}

/// The usual order of signed decimals, on canonical numbers.
pub open spec fn number_below(a: NumberView, b: NumberView) -> bool {
    if a.negative && b.negative {
        magnitude_below(b, a)
    } else if a.negative {
        true
    } else if b.negative {
        false
    } else {
        magnitude_below(a, b)
    }
}

/// The digits of a count, most significant first; zero has none.
pub open spec fn count_digits(n: nat) -> Seq<u8>
    decreases n,
{
    if n == 0 {
        Seq::empty()
    } else {
        count_digits(n / 10).push((n % 10) as u8)
    }
}

/// The number that a count is.
pub open spec fn count_number(n: nat) -> NumberView {
    normal_form(false, count_digits(n), Seq::empty())
}

/// The count that a sequence of digits shows.
pub open spec fn digits_count(s: Seq<u8>) -> nat
    decreases s.len(),
{
    if s.len() == 0 {
        0
    } else {
        digits_count(s.drop_last()) * 10 + s.last() as nat
    }
}

/// The place in a collection that a number points at: its whole part, with
/// zero for every negative number and the largest place for every number
/// beyond it.
pub open spec fn place_of(v: NumberView) -> usize {
    if v.negative {
        0
    } else if digits_count(v.whole) > usize::MAX {
        usize::MAX
    } else {
        digits_count(v.whole) as usize
    }
}

/// The whole number that an integer is.
pub open spec fn int_number(x: int) -> NumberView {
    normal_form(
        x < 0,
        count_digits(
            (if x < 0 {
                -x
            } else {
                x
            }) as nat,
        ),
        Seq::empty(),
    )
}

/// The 32-bit integer nearest to the whole part of a number: the whole part
/// itself where it fits, else the least or the greatest such integer.
pub open spec fn int_of(v: NumberView) -> i32 {
    if v.negative {
        if digits_count(v.whole) > 0x8000_0000 {
            i32::MIN
        } else {
            (-(digits_count(v.whole) as int)) as i32
        }
    } else if digits_count(v.whole) > i32::MAX {
        i32::MAX
    } else {
        digits_count(v.whole) as i32
    }
}

/// An exact decimal number in canonical form.
#[derive(Debug, PartialEq, Eq)]
pub struct Number {
    negative: bool,
    whole: Vec<u8>,
    frac: Vec<u8>,
}

impl View for Number {
    type V = NumberView;

    closed spec fn view(&self) -> NumberView {
        NumberView { negative: self.negative, whole: self.whole@, frac: self.frac@ }
    }
}

/// Where the first `k` digits are zeros and the next one is not, trimming
/// the front leaves what follows the first `k`.
pub proof fn lemma_trim_front(s: Seq<u8>, k: int)
    requires
        0 <= k <= s.len(),
        forall|i: int| 0 <= i < k ==> s[i] == 0,
        k < s.len() ==> s[k] != 0,
    ensures
        trim_front(s) == s.subrange(k, s.len() as int),
    decreases k,
{
    if k == 0 {
        assert(s.subrange(0, s.len() as int) =~= s);
    } else {
        let t = s.drop_first();
        lemma_trim_front(t, k - 1);
        assert(t.subrange(k - 1, t.len() as int) =~= s.subrange(k, s.len() as int));
    }
}

/// Where all digits from place `k` on are zeros and the one before is not,
/// trimming the back leaves the first `k`.
pub proof fn lemma_trim_back(s: Seq<u8>, k: int)
    requires
        0 <= k <= s.len(),
        forall|i: int| k <= i < s.len() ==> s[i] == 0,
        k > 0 ==> s[k - 1] != 0,
    ensures
        trim_back(s) == s.subrange(0, k),
    decreases s.len() - k,
{
    if k == s.len() {
        assert(s.subrange(0, k) =~= s);
    } else {
        let t = s.drop_last();
        lemma_trim_back(t, k);
        assert(t.subrange(0, k) =~= s.subrange(0, k));
    }
}

fn check_digits(s: &Vec<u8>) -> (r: bool)
    ensures
        r == all_digits(s@),
{
    let mut i: usize = 0;
    while i < s.len()
        invariant
            i <= s.len(),
            forall|j: int| 0 <= j < i ==> #[trigger] s@[j] < 10,
        decreases s.len() - i,
    {
        if s[i] >= 10 {
            return false;
        }
        i += 1;
    }
    true
}

fn copy_range(s: &Vec<u8>, from: usize, to: usize) -> (r: Vec<u8>)
    requires
        from <= to <= s.len(),
    ensures
        r@ == s@.subrange(from as int, to as int),
{
    let mut out: Vec<u8> = Vec::new();
    let mut i: usize = from;
    while i < to
        invariant
            from <= i <= to <= s.len(),
            out@ == s@.subrange(from as int, i as int),
        decreases to - i,
    {
        out.push(s[i]);
        i += 1;
        assert(out@ =~= s@.subrange(from as int, i as int));
    }
    out
}

impl Number {
    #[verifier::type_invariant]
    spec fn well_formed(self) -> bool {
        canonical(self@)
    }

    /// The number zero.
    pub fn zero() -> (r: Number)
        ensures
            r@ == normal_form(false, Seq::empty(), Seq::empty()),
    {
        Number { negative: false, whole: Vec::new(), frac: Vec::new() }
    }

    /// The number written with the given sign, whole digits and fractional
    /// digits, most significant first. Leading and trailing zeros are dropped;
    /// `None` if an element is not a digit.
    pub fn from_digits(negative: bool, whole: Vec<u8>, frac: Vec<u8>) -> (r: Option<Number>)
        ensures
            all_digits(whole@) && all_digits(frac@) ==> r is Some && r->0@ == normal_form(
                negative,
                whole@,
                frac@,
            ),
            !(all_digits(whole@) && all_digits(frac@)) ==> r is None,
    {
        if !check_digits(&whole) || !check_digits(&frac) {
            return None;
        }
        let mut lead: usize = 0;
        while lead < whole.len() && whole[lead] == 0
            invariant
                lead <= whole.len(),
                forall|i: int| 0 <= i < lead ==> whole@[i] == 0,
            decreases whole.len() - lead,
        {
            lead += 1;
        }
        let mut keep: usize = frac.len();
        while keep > 0 && frac[keep - 1] == 0
            invariant
                keep <= frac.len(),
                forall|i: int| keep <= i < frac.len() ==> frac@[i] == 0,
            decreases keep,
        {
            keep -= 1;
        }
        proof {
            lemma_trim_front(whole@, lead as int);
            lemma_trim_back(frac@, keep as int);
        }
        let w = copy_range(&whole, lead, whole.len());
        let f = copy_range(&frac, 0, keep);
        let nonzero = w.len() > 0 || f.len() > 0;
        Some(Number { negative: negative && nonzero, whole: w, frac: f })
    }

    /// A copy of this number.
    pub fn copy(&self) -> (r: Number)
        ensures
            r@ == self@,
    {
        proof {
            use_type_invariant(self);
        }
        let w = copy_range(&self.whole, 0, self.whole.len());
        let f = copy_range(&self.frac, 0, self.frac.len());
        assert(w@ =~= self.whole@);
        assert(f@ =~= self.frac@);
        Number { negative: self.negative, whole: w, frac: f }
    }

    /// Whether the number is below zero.
    pub fn is_negative(&self) -> (r: bool)
        ensures
            r == self@.negative,
    {
        self.negative
    }

    /// The digits of the whole part, most significant first.
    pub fn whole_digits(&self) -> (r: Vec<u8>)
        ensures
            r@ == self@.whole,
    {
        let w = copy_range(&self.whole, 0, self.whole.len());
        assert(w@ =~= self.whole@);
        w
    }

    /// The digits after the decimal point.
    pub fn frac_digits(&self) -> (r: Vec<u8>)
        ensures
            r@ == self@.frac,
    {
        let f = copy_range(&self.frac, 0, self.frac.len());
        assert(f@ =~= self.frac@);
        f
    }

    /// Whether two numbers are equal.
    pub fn equals(&self, other: &Number) -> (r: bool)
        ensures
            r == (self@ == other@),
    {
        let r = self.negative == other.negative && same_digits(&self.whole, &other.whole)
            && same_digits(&self.frac, &other.frac);
        r
    }

    /// Whether the magnitude of this number is smaller than that of `other`.
    fn smaller(&self, other: &Number) -> (r: bool)
        ensures
            r == magnitude_below(self@, other@),
    {
        let w: usize = if self.whole.len() >= other.whole.len() {
            self.whole.len()
        } else {
            other.whole.len()
        };
        let f: usize = if self.frac.len() >= other.frac.len() {
            self.frac.len()
        } else {
            other.frac.len()
        };
        let ghost wa = pad_front(self.whole@, w as nat);
        let ghost wb = pad_front(other.whole@, w as nat);
        let mut p: usize = 0;
        while p < w
            invariant
                p <= w,
                w as nat == longer(self@.whole.len(), other@.whole.len()),
                self.whole.len() <= w,
                other.whole.len() <= w,
                wa == pad_front(self.whole@, w as nat),
                wb == pad_front(other.whole@, w as nat),
                forall|k: int| 0 <= k < p ==> wa[k] == wb[k],
            decreases w - p,
        {
            let x = front_digit(&self.whole, w, p);
            let y = front_digit(&other.whole, w, p);
            if x != y {
                proof {
                    lemma_digits_before_skip(wa, wb, p as int);
                    let sa = wa.subrange(p as int, wa.len() as int);
                    let sb = wb.subrange(p as int, wb.len() as int);
                    assert(sa.len() > 0 && sb.len() > 0);
                    assert(sa[0] == x);
                    assert(sb[0] == y);
                    assert(wa[p as int] != wb[p as int]);
                    assert(wa != wb);
                    assert(w as nat == longer(self@.whole.len(), other@.whole.len()));
                }
                return x < y;
            }
            p += 1;
        }
        assert(wa =~= wb);
        let ghost fa = pad_back(self.frac@, f as nat);
        let ghost fb = pad_back(other.frac@, f as nat);
        let mut q: usize = 0;
        while q < f
            invariant
                q <= f,
                wa == wb,
                wa == pad_front(self.whole@, w as nat),
                wb == pad_front(other.whole@, w as nat),
                w as nat == longer(self@.whole.len(), other@.whole.len()),
                f as nat == longer(self@.frac.len(), other@.frac.len()),
                self.frac.len() <= f,
                other.frac.len() <= f,
                fa == pad_back(self.frac@, f as nat),
                fb == pad_back(other.frac@, f as nat),
                forall|k: int| 0 <= k < q ==> fa[k] == fb[k],
            decreases f - q,
        {
            let x = back_digit(&self.frac, f, q);
            let y = back_digit(&other.frac, f, q);
            if x != y {
                proof {
                    lemma_digits_before_skip(fa, fb, q as int);
                    let sa = fa.subrange(q as int, fa.len() as int);
                    let sb = fb.subrange(q as int, fb.len() as int);
                    assert(sa.len() > 0 && sb.len() > 0);
                    assert(sa[0] == x);
                    assert(sb[0] == y);
                    assert(w as nat == longer(self@.whole.len(), other@.whole.len()));
                    assert(f as nat == longer(self@.frac.len(), other@.frac.len()));
                }
                return x < y;
            }
            q += 1;
        }
        proof {
            lemma_digits_before_skip(fa, fb, f as int);
        }
        false
    }

    /// Whether this number is below `other`.
    pub fn less_than(&self, other: &Number) -> (r: bool)
        ensures
            r == number_below(self@, other@),
    {
        if self.negative && other.negative {
            other.smaller(self)
        } else if self.negative {
            true
        } else if other.negative {
            false
        } else {
            self.smaller(other)
        }
    }

    /// The number that a count is.
    pub fn from_count(n: usize) -> (r: Number)
        ensures
            r@ == count_number(n as nat),
    {
        let digits = digits_of_count(n);
        match Number::from_digits(false, digits, Vec::new()) {
            Some(number) => number,
            None => Number::zero(),
        }
    }

    /// The place in a collection that the number points at: its whole part,
    /// with zero for every negative number and the largest place for every
    /// number beyond it.
    pub fn to_place(&self) -> (r: usize)
        ensures
            r == place_of(self@),
    {
        proof {
            use_type_invariant(self);
        }
        if self.negative {
            return 0;
        }
        let mut total: usize = 0;
        let mut i: usize = 0;
        assert(self.whole@.subrange(0, 0) =~= Seq::<u8>::empty());
        while i < self.whole.len()
            invariant
                i <= self.whole.len(),
                !self.negative,
                all_digits(self.whole@),
                total == digits_count(self.whole@.subrange(0, i as int)),
            decreases self.whole.len() - i,
        {
            let d = self.whole[i];
            assert(d < 10);
            let ghost next = self.whole@.subrange(0, i + 1);
            assert(next.drop_last() =~= self.whole@.subrange(0, i as int));
            assert(next.last() == d);
            proof {
                lemma_digits_count_grows(self.whole@, i + 1);
            }
            if total > (usize::MAX - d as usize) / 10 {
                assert(digits_count(next) > usize::MAX);
                return usize::MAX;
            }
            total = total * 10 + d as usize;
            i += 1;
        }
        assert(self.whole@.subrange(0, i as int) =~= self.whole@);
        total
    }

    /// The whole number that a 32-bit integer is.
    pub fn from_int(x: i32) -> (r: Number)
        ensures
            r@ == int_number(x as int),
    {
        let negative = x < 0;
        let size: u32 = if x < 0 {
            if x == i32::MIN {
                0x8000_0000
            } else {
                (-x) as u32
            }
        } else {
            x as u32
        };
        let digits = digits_of_count(size as usize);
        match Number::from_digits(negative, digits, Vec::new()) {
            Some(number) => number,
            None => Number::zero(),
        }
    }

    /// The 32-bit integer nearest to the whole part of the number.
    pub fn to_int(&self) -> (r: i32)
        ensures
            r == int_of(self@),
    {
        proof {
            use_type_invariant(self);
        }
        let mut total: u64 = 0;
        let mut i: usize = 0;
        assert(self.whole@.subrange(0, 0) =~= Seq::<u8>::empty());
        while i < self.whole.len()
            invariant
                i <= self.whole.len(),
                all_digits(self.whole@),
                total == digits_count(self.whole@.subrange(0, i as int)),
                total <= 0x8000_0000,
            decreases self.whole.len() - i,
        {
            let d = self.whole[i];
            assert(d < 10);
            let ghost next = self.whole@.subrange(0, i + 1);
            assert(next.drop_last() =~= self.whole@.subrange(0, i as int));
            assert(next.last() == d);
            proof {
                lemma_digits_count_grows(self.whole@, i + 1);
            }
            let grown: u64 = total * 10 + d as u64;
            if grown > 0x8000_0000 {
                return if self.negative {
                    i32::MIN
                } else {
                    i32::MAX
                };
            }
            total = grown;
            i += 1;
        }
        assert(self.whole@.subrange(0, i as int) =~= self.whole@);
        if self.negative {
            if total == 0x8000_0000 {
                i32::MIN
            } else {
                -(total as i32)
            }
        } else if total > 0x7fff_ffff {
            i32::MAX
        } else {
            total as i32
        }
    }

    /// The canonical text of the number.
    pub fn to_text(&self) -> (r: String)
        ensures
            r@ == number_text(self@),
    {
        proof {
            use_type_invariant(self);
        }
        let mut out = String::new();
        if self.negative {
            push_char(&mut out, '-');
        }
        if self.whole.len() == 0 {
            push_char(&mut out, '0');
        } else {
            push_digits(&mut out, &self.whole);
        }
        if self.frac.len() > 0 {
            push_char(&mut out, '.');
            push_digits(&mut out, &self.frac);
        }
        assert(out@ =~= number_text(self@));
        out
    }
}

fn digits_of_count(n: usize) -> (r: Vec<u8>)
    ensures
        r@ == count_digits(n as nat),
        all_digits(r@),
    decreases n,
{
    if n == 0 {
        Vec::new()
    } else {
        let mut digits = digits_of_count(n / 10);
        digits.push((n % 10) as u8);
        digits
    }
}

/// The count of a longer run of digits is no smaller than that of its start.
proof fn lemma_digits_count_grows(s: Seq<u8>, k: int)
    requires
        0 <= k <= s.len(),
    ensures
        digits_count(s.subrange(0, k)) <= digits_count(s),
    decreases s.len() - k,
{
    if k == s.len() {
        assert(s.subrange(0, k) =~= s);
    } else {
        let next = s.subrange(0, k + 1);
        assert(next.drop_last() =~= s.subrange(0, k));
        lemma_digits_count_grows(s, k + 1);
    }
}

/// The digit at place `p` of `v` padded in front to `w` places.
fn front_digit(v: &Vec<u8>, w: usize, p: usize) -> (r: u8)
    requires
        v.len() <= w,
        p < w,
    ensures
        r == pad_front(v@, w as nat)[p as int],
{
    let gap: usize = w - v.len();
    if p < gap {
        0
    } else {
        v[p - gap]
    }
}

/// The digit at place `p` of `v` padded at the back.
fn back_digit(v: &Vec<u8>, f: usize, p: usize) -> (r: u8)
    requires
        v.len() <= f,
        p < f,
    ensures
        r == pad_back(v@, f as nat)[p as int],
{
    if p < v.len() {
        v[p]
    } else {
        0
    }
}

/// Two digit strings of one length that agree up to place `p` compare as
/// their rests do.
proof fn lemma_digits_before_skip(a: Seq<u8>, b: Seq<u8>, p: int)
    requires
        a.len() == b.len(),
        0 <= p <= a.len(),
        forall|k: int| 0 <= k < p ==> a[k] == b[k],
    ensures
        digits_before(a, b) == digits_before(a.subrange(p, a.len() as int), b.subrange(
            p,
            b.len() as int,
        )),
    decreases p,
{
    if p == 0 {
        assert(a.subrange(0, a.len() as int) =~= a);
        assert(b.subrange(0, b.len() as int) =~= b);
    } else {
        let a1 = a.drop_first();
        let b1 = b.drop_first();
        assert forall|k: int| 0 <= k < p - 1 implies a1[k] == b1[k] by {
            assert(a1[k] == a[k + 1]);
            assert(b1[k] == b[k + 1]);
        }
        lemma_digits_before_skip(a1, b1, p - 1);
        assert(a1.subrange(p - 1, a1.len() as int) =~= a.subrange(p, a.len() as int));
        assert(b1.subrange(p - 1, b1.len() as int) =~= b.subrange(p, b.len() as int));
    }
}

impl Clone for Number {
    fn clone(&self) -> (r: Number)
        ensures
            r@ == self@,
    {
        self.copy()
    }
}

fn same_digits(a: &Vec<u8>, b: &Vec<u8>) -> (r: bool)
    ensures
        r == (a@ == b@),
{
    if a.len() != b.len() {
        return false;
    }
    let mut i: usize = 0;
    while i < a.len()
        invariant
            i <= a.len(),
            a.len() == b.len(),
            forall|j: int| 0 <= j < i ==> a@[j] == b@[j],
        decreases a.len() - i,
    {
        if a[i] != b[i] {
            return false;
        }
        i += 1;
    }
    assert(a@ =~= b@);
    true
}

fn push_digits(out: &mut String, digits: &Vec<u8>)
    requires
        all_digits(digits@),
    ensures
        final(out)@ == old(out)@ + digits_text(digits@),
{
    let mut i: usize = 0;
    while i < digits.len()
        invariant
            i <= digits.len(),
            all_digits(digits@),
            out@ == old(out)@ + digits_text(digits@.subrange(0, i as int)),
        decreases digits.len() - i,
    {
        let c = char_of_digit(digits[i]);
        assert(digits@[i as int] < 10);
        match c {
            Some(c) => {
                push_char(out, c);
            },
            None => {},
        }
        i += 1;
        assert(out@ =~= old(out)@ + digits_text(digits@.subrange(0, i as int)));
    }
    assert(digits@.subrange(0, digits.len() as int) =~= digits@);
}

/// No digit string comes before itself, and of two digit strings at most
/// one comes before the other.
pub proof fn lemma_digits_order(a: Seq<u8>, b: Seq<u8>)
    ensures
        !digits_before(a, a),
        digits_before(a, b) ==> !digits_before(b, a),
    decreases a.len(),
{
    if a.len() > 0 {
        lemma_digits_order(a.drop_first(), a.drop_first());
        if b.len() > 0 && a[0] == b[0] {
            lemma_digits_order(a.drop_first(), b.drop_first());
        }
    }
}

/// The order of numbers is strict: no number is below itself, and of two
/// numbers at most one is below the other.
pub proof fn lemma_number_order(a: NumberView, b: NumberView)
    ensures
        !number_below(a, a),
        number_below(a, b) ==> !number_below(b, a),
{
    let w = longer(a.whole.len(), b.whole.len());
    let f = longer(a.frac.len(), b.frac.len());
    lemma_digits_order(pad_front(a.whole, a.whole.len()), pad_front(a.whole, a.whole.len()));
    lemma_digits_order(pad_back(a.frac, a.frac.len()), pad_back(a.frac, a.frac.len()));
    lemma_digits_order(pad_front(a.whole, w), pad_front(b.whole, w));
    lemma_digits_order(pad_front(b.whole, w), pad_front(a.whole, w));
    lemma_digits_order(pad_back(a.frac, f), pad_back(b.frac, f));
    lemma_digits_order(pad_back(b.frac, f), pad_back(a.frac, f));
}

} // verus!
