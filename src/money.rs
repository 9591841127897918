use crate::text::{
    chars_of, decimal, int_of, is_digit, lemma_decimal_reads_back, lemma_two_digits_read_back,
    parse_int, push_decimal, push_two_digits, two_digits, unsigned_part,
};
use vstd::prelude::*;
use vstd::seq_lib::{group_to_multiset_ensures, to_multiset_contains, to_multiset_len};

verus! {

/// An amount of money as a whole number of minor units (cents).
#[derive(Clone, Copy, Debug, PartialEq, Eq, Structural)]
pub struct Money {
    /// The amount in minor units.
    pub amount: i64,
}

impl View for Money {
    type V = int;

    open spec fn view(&self) -> int {
        self.amount as int
    }
}

/// Whether an integer fits the signed 64-bit range that money amounts use.
pub open spec fn in_range(v: int) -> bool {
    i64::MIN <= v <= i64::MAX
}

/// Integer division rounded toward zero, the rule of Rust's `/` on integers
/// (the `/` of specifications is Euclidean division instead).
pub open spec fn trunc_div(a: int, b: int) -> int {
    if a >= 0 {
        a / b
    } else {
        -((-a) / b)
    }
}

pub open spec fn magnitude(v: int) -> nat {
    if v < 0 {
        (-v) as nat
    } else {
        v as nat
    }
}

/// The text of an amount: a minus sign where it is negative, the whole
/// units, a point, then the remaining minor units as two digits.
pub open spec fn money_text(v: int) -> Seq<char> {
    (if v < 0 {
        seq!['-']
    } else {
        Seq::<char>::empty()
    }) + decimal(magnitude(v) / 100) + seq!['.'] + two_digits(magnitude(v) % 100)
}

/// The pieces of a text between its points: one more than there are points.
pub open spec fn split_points(s: Seq<char>) -> Seq<Seq<char>>
    decreases s.len(),
{
    if s.len() == 0 {
        seq![Seq::<char>::empty()]
    } else {
        let parts = split_points(s.drop_last());
        if s.last() == '.' {
            parts.push(Seq::<char>::empty())
        } else {
            parts.update(parts.len() - 1, parts.last().push(s.last()))
        }
    }
}

/// Why a text is not an amount.
#[derive(Clone, Copy, Debug, PartialEq, Eq, Structural)]
pub enum ParseMoneyError {
    /// The text has more than one point, or a part of it is not an integer
    /// that fits in 64 bits.
    InvalidNumber,
    /// The amount that the pieces give does not fit in 64 bits.
    OutOfRange,
}

/// What reading a text as an amount gives. The text holds at most one
/// point, which cuts it into a whole part and an optional fraction. Each
/// part must be an integer numeral; the first counts whole units and the
/// fraction is added as minor units as it stands (so `"1.5"` is 105 minor
/// units).
pub open spec fn parsed_money(s: Seq<char>) -> Result<int, ParseMoneyError> {
    let parts = split_points(s);
    if parts.len() > 2 || exists|i: int|
        0 <= i < parts.len() && #[trigger] int_of(parts[i]) is None {
        Err(ParseMoneyError::InvalidNumber)
    } else {
        let v = int_of(parts[0])->0 * 100 + if parts.len() == 2 {
            int_of(parts[1])->0
        } else {
            0
        };
        if in_range(v) {
            Ok(v)
        } else {
            Err(ParseMoneyError::OutOfRange)
        }
    }
}

pub open spec fn has_no_point(s: Seq<char>) -> bool {
    forall|i: int| 0 <= i < s.len() ==> #[trigger] s[i] != '.'
}

proof fn lemma_split_points_nonempty(s: Seq<char>)
    ensures
        split_points(s).len() >= 1,
    decreases s.len(),
{
    if s.len() > 0 {
        lemma_split_points_nonempty(s.drop_last());
    }
}

/// Reading further into a text never gives fewer pieces.
proof fn lemma_split_points_grow(s: Seq<char>, k: int)
    requires
        0 <= k <= s.len(),
    ensures
        split_points(s.subrange(0, k)).len() <= split_points(s).len(),
    decreases s.len(),
{
    if k == s.len() {
        assert(s.subrange(0, k) == s);
    } else {
        lemma_split_points_grow(s.drop_last(), k);
        lemma_split_points_nonempty(s.drop_last());
        assert(s.drop_last().subrange(0, k) == s.subrange(0, k));
    }
}

/// Text without a point only lengthens the last piece.
proof fn lemma_split_points_extend(p: Seq<char>, y: Seq<char>)
    requires
        has_no_point(y),
    ensures
        split_points(p).len() >= 1,
        split_points(p + y) == split_points(p).update(
            split_points(p).len() - 1,
            split_points(p).last() + y,
        ),
    decreases y.len(),
{
    lemma_split_points_nonempty(p);
    let parts = split_points(p);
    if y.len() == 0 {
        assert(p + y == p);
        assert(parts.last() + y == parts.last());
        assert(parts.update(parts.len() - 1, parts.last()) == parts);
    } else {
        let z = y.drop_last();
        assert(has_no_point(z)) by {
            assert forall|i: int| 0 <= i < z.len() implies #[trigger] z[i] != '.' by {
                assert(z[i] == y[i]);
            }
        }
        lemma_split_points_extend(p, z);
        assert((p + y).drop_last() == p + z);
        assert((p + y).last() == y.last());
        assert(y.last() != '.');
        assert(parts.last() + z + seq![y.last()] == parts.last() + y);
        let q = split_points(p + z);
        assert(q.last() == parts.last() + z);
        assert(q.last().push(y.last()) =~= parts.last() + y);
        assert(q.update(q.len() - 1, q.last().push(y.last())) =~= parts.update(
            parts.len() - 1,
            parts.last() + y,
        ));
    }
}

/// Two pieces without points, joined by one point, split back into those pieces.
proof fn lemma_split_points_pair(x: Seq<char>, y: Seq<char>)
    requires
        has_no_point(x),
        has_no_point(y),
    ensures
        split_points(x + seq!['.'] + y) == seq![x, y],
{
    let e = Seq::<char>::empty();
    lemma_split_points_extend(e, x);
    assert(e + x == x);
    assert(split_points(e) == seq![e]);
    assert(seq![e].update(0, e + x) == seq![x]);
    let xp = x + seq!['.'];
    assert(xp.drop_last() == x);
    assert(split_points(xp) == seq![x].push(e));
    lemma_split_points_extend(xp, y);
    assert(seq![x].push(e).update(1, e + y) == seq![x, y]);
}

/// Reading back the text of an amount gives the amount, wherever the amount
/// is not negative or is a whole number of units. (The pieces of a text are
/// read independently, so a negative amount with minor units does not come
/// back: `"-1.53"` reads as -100 + 53.)
pub proof fn lemma_text_reads_back(a: int)
    requires
        in_range(a),
        a >= 0 || a % 100 == 0,
    ensures
        parsed_money(money_text(a)) == Ok::<int, ParseMoneyError>(a),
{
    let m = magnitude(a);
    let q = m / 100;
    let r = m % 100;
    let sign = if a < 0 {
        seq!['-']
    } else {
        Seq::<char>::empty()
    };
    let x = sign + decimal(q);
    let y = two_digits(r);
    lemma_decimal_reads_back(q);
    lemma_two_digits_read_back(r);
    assert(money_text(a) == x + seq!['.'] + y);
    assert(has_no_point(x)) by {
        assert forall|i: int| 0 <= i < x.len() implies #[trigger] x[i] != '.' by {
            if i >= sign.len() {
                assert(x[i] == decimal(q)[i - sign.len()]);
                assert(is_digit(decimal(q)[i - sign.len()]));
            }
        }
    }
    assert(has_no_point(y)) by {
        assert forall|i: int| 0 <= i < y.len() implies #[trigger] y[i] != '.' by {
            assert(is_digit(y[i]));
        }
    }
    lemma_split_points_pair(x, y);
    let parts = split_points(money_text(a));
    assert(is_digit(decimal(q)[0]));
    assert(is_digit(y[0]));
    if a < 0 {
        assert(x.drop_first() == decimal(q));
    } else {
        assert(x == decimal(q));
    }
    assert(unsigned_part(x) == decimal(q));
    assert(unsigned_part(y) == y);
    assert(int_of(parts[0]) == Some(if a < 0 { -q } else { q as int }));
    assert(int_of(parts[1]) == Some(r as int));
    assert(!exists|i: int| 0 <= i < parts.len() && #[trigger] int_of(parts[i]) is None) by {
        assert forall|i: int| 0 <= i < parts.len() implies #[trigger] int_of(parts[i]) is Some by {
            if i == 0 {
            } else {
                assert(i == 1);
            }
        }
    }
    if a < 0 {
        assert(r == 0) by (nonlinear_arith)
            requires
                a < 0,
                a % 100 == 0,
                m == -a,
                r == m % 100,
        ;
    }
}

/// Appends the text of an amount of `v` minor units; `v` need not fit in an
/// amount, so that an exact product can be shown.
pub fn push_money_text(s: &mut String, v: i128)
    requires
        v > i128::MIN,
    ensures
        final(s)@ == old(s)@ + money_text(v as int),
{
    let m: u128 = if v < 0 {
        (-v) as u128
    } else {
        v as u128
    };
    assert(m == magnitude(v as int));
    if v < 0 {
        s.push('-');
    }
    push_decimal(s, m / 100);
    s.push('.');
    push_two_digits(s, m % 100);
    assert(s@ =~= old(s)@ + money_text(v as int));
}

/// A quotient is no larger than what was divided, in either direction.
proof fn lemma_quotient_bounded(x: int, y: int)
    requires
        y != 0,
    ensures
        -magnitude(x) <= x / y <= magnitude(x),
        -magnitude(x) <= (-x) / y <= magnitude(x),
{
    assert(-magnitude(x) <= x / y <= magnitude(x)) by (nonlinear_arith)
        requires
            y != 0,
            magnitude(x) == if x < 0 { -x } else { x },
    ;
    assert(-magnitude(x) <= (-x) / y <= magnitude(x)) by (nonlinear_arith)
        requires
            y != 0,
            magnitude(x) == if x < 0 { -x } else { x },
    ;
}

/// The sum of a sequence of amounts, in minor units, added from the first on.
pub open spec fn total(s: Seq<Money>) -> int
    decreases s.len(),
{
    if s.len() == 0 {
        0
    } else {
        total(s.drop_last()) + s.last()@
    }
}

/// Summing nothing gives zero, and summing two sequences one after the
/// other gives the sum of their two sums, however the amounts are grouped.
pub proof fn lemma_total_append(a: Seq<Money>, b: Seq<Money>)
    ensures
        total(Seq::<Money>::empty()) == 0,
        total(a + b) == total(a) + total(b),
    decreases b.len(),
{
    if b.len() == 0 {
        assert(a + b == a);
    } else {
        lemma_total_append(a, b.drop_last());
        assert((a + b).drop_last() == a + b.drop_last());
    }
}

/// Taking one amount out of a sequence takes exactly that amount off the sum.
pub proof fn lemma_total_remove(s: Seq<Money>, i: int)
    requires
        0 <= i < s.len(),
    ensures
        total(s) == total(s.remove(i)) + s[i]@,
{
    let front = s.subrange(0, i);
    let back = s.subrange(i + 1, s.len() as int);
    let one = seq![s[i]];
    assert(one.drop_last() == Seq::<Money>::empty());
    assert(s == front + one + back);
    assert(s.remove(i) == front + back);
    lemma_total_append(front + one, back);
    lemma_total_append(front, one);
    lemma_total_append(front, back);
}

/// The sum does not depend on the order of the amounts: two sequences that
/// hold the same amounts, each as often, have the same sum.
pub proof fn lemma_total_reorder(s: Seq<Money>, t: Seq<Money>)
    requires
        s.to_multiset() == t.to_multiset(),
    ensures
        total(s) == total(t),
    decreases s.len(),
{
    broadcast use group_to_multiset_ensures;

    to_multiset_len(s);
    to_multiset_len(t);
    if s.len() > 0 {
        let x = s.last();
        assert(s.drop_last() == s.remove(s.len() - 1));
        assert(s.contains(x));
        to_multiset_contains(s, x);
        to_multiset_contains(t, x);
        let j = choose|j: int| 0 <= j < t.len() && t[j] == x;
        lemma_total_reorder(s.drop_last(), t.remove(j));
        lemma_total_remove(t, j);
    }
}

impl Money {
    pub fn new(amount: i64) -> (r: Money)
        ensures
            r@ == amount,
    {
        Money { amount }
    }

    pub fn zero() -> (r: Money)
        ensures
            r@ == 0,
    {
        Money { amount: 0 }
    }

    pub fn is_zero(self) -> (r: bool)
        ensures
            r == (self@ == 0),
    {
        self.amount == 0
    }

    pub fn add(self, rhs: Money) -> (r: Money)
        requires
            in_range(self@ + rhs@),
        ensures
            r@ == self@ + rhs@,
    {
        Money { amount: self.amount + rhs.amount }
    }

    pub fn sub(self, rhs: Money) -> (r: Money)
        requires
            in_range(self@ - rhs@),
        ensures
            r@ == self@ - rhs@,
    {
        Money { amount: self.amount - rhs.amount }
    }

    pub fn neg(self) -> (r: Money)
        requires
            in_range(-self@),
        ensures
            r@ == -self@,
    {
        Money { amount: -self.amount }
    }

    /// Multiplies by a plain count, exactly.
    pub fn mul_scalar(self, rhs: i64) -> (r: Money)
        requires
            in_range(self@ * rhs),
        ensures
            r@ == self@ * rhs,
    {
        Money { amount: self.amount * rhs }
    }

    /// Divides by a plain count, rounding toward zero.
    pub fn div_scalar(self, rhs: i64) -> (r: Money)
        requires
            rhs != 0,
            in_range(trunc_div(self@, rhs as int)),
        ensures
            r@ == trunc_div(self@, rhs as int),
    {
        Money { amount: self.amount / rhs }
    }

    /// Applies a rate kept in minor units per unit: `self * rhs / 100`,
    /// rounded toward zero.
    pub fn mul(self, rhs: Money) -> (r: Money)
        requires
            in_range(trunc_div(self@ * rhs@, 100)),
        ensures
            r@ == trunc_div(self@ * rhs@, 100),
    {
        let a = self.amount as i128;
        let b = rhs.amount as i128;
        assert(-0x4000_0000_0000_0000_0000_0000_0000_0000 <= a * b
            <= 0x4000_0000_0000_0000_0000_0000_0000_0000) by (nonlinear_arith)
            requires
                i64::MIN <= a <= i64::MAX,
                i64::MIN <= b <= i64::MAX,
        ;
        let wide: i128 = a * b;
        Money { amount: (wide / 100) as i64 }
    }

    /// Expresses `self` as a ratio of `rhs` scaled by one hundred:
    /// `self * 100 / rhs`, rounded toward zero.
    pub fn div(self, rhs: Money) -> (r: Money)
        requires
            rhs@ != 0,
            in_range(trunc_div(self@ * 100, rhs@)),
        ensures
            r@ == trunc_div(self@ * 100, rhs@),
    {
        let wide: i128 = (self.amount as i128) * 100;
        Money { amount: (wide / (rhs.amount as i128)) as i64 }
    }

    /// The amount as text, such as `"-0.01"` or `"10.00"`.
    pub fn to_string(&self) -> (r: String)
        ensures
            r@ == money_text(self@),
    {
        let mut s = String::new();
        push_money_text(&mut s, self.amount as i128);
        assert(s@ =~= money_text(self@));
        s
    }

    /// Reads an amount from text, as `parsed_money` describes.
    pub fn parse(text: &str) -> (r: Result<Money, ParseMoneyError>)
        ensures
            match r {
                Ok(m) => parsed_money(text@) == Ok::<int, ParseMoneyError>(m@),
                Err(e) => parsed_money(text@) == Err::<int, ParseMoneyError>(e),
            },
    {
        let chars = chars_of(text);
        let n = chars.len();
        let ghost mut parts: Seq<Seq<char>> = Seq::empty();
        let mut start: usize = 0;
        let mut count: usize = 0;
        let mut invalid = false;
        let mut whole: i64 = 0;
        let mut fraction: i64 = 0;
        let mut i: usize = 0;
        assert(chars@.subrange(0, 0) == Seq::<char>::empty());
        assert(parts.push(Seq::<char>::empty()) == seq![Seq::<char>::empty()]);
        while i < n
            invariant
                n == chars@.len(),
                chars@ == text@,
                count <= 1,
                count <= start <= i <= n,
                count == parts.len(),
                split_points(chars@.subrange(0, i as int)) == parts.push(
                    chars@.subrange(start as int, i as int),
                ),
                invalid <==> exists|j: int|
                    0 <= j < parts.len() && #[trigger] int_of(parts[j]) is None,
                count > 0 && !invalid ==> int_of(parts[0]) == Some(whole as int),
            decreases n - i,
        {
            assert(chars@.subrange(0, i + 1).drop_last() == chars@.subrange(0, i as int));
            if chars[i] == '.' {
                if count == 1 {
                    // A second point: the text has at least three pieces.
                    proof {
                        let seg = chars@.subrange(start as int, i as int);
                        let prefix = chars@.subrange(0, i + 1);
                        assert(split_points(prefix) == parts.push(seg).push(Seq::<char>::empty()));
                        lemma_split_points_grow(chars@, i + 1);
                    }
                    return Err(ParseMoneyError::InvalidNumber);
                }
                let piece = parse_int(&chars, start, i);
                proof {
                    let seg = chars@.subrange(start as int, i as int);
                    let old_parts = parts;
                    parts = parts.push(seg);
                    assert(forall|j: int| 0 <= j < old_parts.len() ==> parts[j] == old_parts[j]);
                    assert(parts[old_parts.len() as int] == seg);
                    assert(chars@.subrange(i + 1, i + 1) == Seq::<char>::empty());
                }
                match piece {
                    None => {
                        invalid = true;
                    },
                    Some(v) => {
                        whole = v;
                    },
                }
                count = 1;
                start = i + 1;
            } else {
                assert(chars@.subrange(start as int, i + 1) == chars@.subrange(
                    start as int,
                    i as int,
                ).push(chars@[i as int]));
            }
            i = i + 1;
        }
        // The piece after the point, or the whole text where there is none.
        let piece = parse_int(&chars, start, n);
        proof {
            let seg = chars@.subrange(start as int, n as int);
            let old_parts = parts;
            parts = parts.push(seg);
            assert(forall|j: int| 0 <= j < old_parts.len() ==> parts[j] == old_parts[j]);
            assert(parts[old_parts.len() as int] == seg);
            assert(chars@.subrange(0, n as int) == chars@);
        }
        match piece {
            None => {
                invalid = true;
            },
            Some(v) => {
                if count == 0 {
                    whole = v;
                } else {
                    fraction = v;
                }
            },
        }
        assert(split_points(chars@) == parts);
        if invalid {
            return Err(ParseMoneyError::InvalidNumber);
        }
        let mut v: i128 = (whole as i128) * 100;
        if count == 1 {
            v = v + fraction as i128;
        }
        if v < -0x8000_0000_0000_0000 || v > 0x7fff_ffff_ffff_ffff {
            Err(ParseMoneyError::OutOfRange)
        } else {
            Ok(Money { amount: v as i64 })
        }
    }

    /// `div`, or nothing where its result does not fit in an amount.
    pub fn checked_div(self, rhs: Money) -> (r: Option<Money>)
        requires
            rhs@ != 0,
        ensures
            r is Some <==> in_range(trunc_div(self@ * 100, rhs@)),
            r matches Some(m) ==> m@ == trunc_div(self@ * 100, rhs@),
    {
        let wide: i128 = (self.amount as i128) * 100;
        proof {
            lemma_quotient_bounded(wide as int, rhs@);
        }
        let q = wide / (rhs.amount as i128);
        if q < -0x8000_0000_0000_0000 || q > 0x7fff_ffff_ffff_ffff {
            None
        } else {
            Some(Money { amount: q as i64 })
        }
    }

    /// Adds up a sequence of amounts, starting from zero.
    pub fn sum(items: &[Money]) -> (r: Money)
        requires
            in_range(total(items@)),
        ensures
            r@ == total(items@),
    {
        let mut acc: i128 = 0;
        let mut i: usize = 0;
        while i < items.len()
            invariant
                i <= items@.len(),
                acc == total(items@.subrange(0, i as int)),
                -0x8000_0000_0000_0000 * i <= acc <= 0x7fff_ffff_ffff_ffff * i,
            decreases items@.len() - i,
        {
            assert(items@.subrange(0, i + 1).drop_last() == items@.subrange(0, i as int));
            acc = acc + items[i].amount as i128;
            i = i + 1;
        }
        assert(items@.subrange(0, i as int) == items@);
        Money { amount: acc as i64 }
    }
}

impl std::str::FromStr for Money {
    type Err = ParseMoneyError;

    fn from_str(s: &str) -> Result<Money, ParseMoneyError> {
        Money::parse(s)
    }
}

} // verus!
