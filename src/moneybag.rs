use crate::money::{in_range, money_text, push_money_text, total, trunc_div, Money};
use crate::text::{chars_of, decimal, push_decimal, push_str, push_two_digits, two_digits};
use vstd::prelude::*;

verus! {

/// An hourly (or per unit) price.
#[derive(Clone, Copy, Debug, PartialEq, Eq, Structural)]
pub struct Rate {
    pub rate: Money,
}

/// A billing entry. With a rate, `amount` counts units (hours) billed at that
/// rate; without one, it is the sum billed. The rate is a copy taken when the
/// invoice was made, so later changes to the named rate leave it alone.
#[derive(Debug)]
pub struct Invoice {
    pub date: String,
    pub amount: Money,
    pub rate: Option<Rate>,
    pub customer: Option<String>,
}

/// An expense entry.
#[derive(Debug)]
pub struct Cost {
    pub date: String,
    pub amount: Money,
    pub name: String,
}

/// What an invoice counts toward income, in minor units: the amount times
/// the rate where it has one, else the amount itself.
pub open spec fn effective(inv: Invoice) -> int {
    match inv.rate {
        Some(r) => trunc_div(inv.amount@ * r.rate@, 100),
        None => inv.amount@,
    }
}

/// Whether every invoice's effective value is an amount that fits.
pub open spec fn effective_in_range(invoices: Seq<Invoice>) -> bool {
    forall|i: int| 0 <= i < invoices.len() ==> in_range(#[trigger] effective(invoices[i]))
}

/// The sum of the effective values of the invoices.
pub open spec fn invoices_total(invoices: Seq<Invoice>) -> int
    decreases invoices.len(),
{
    if invoices.len() == 0 {
        0
    } else {
        invoices_total(invoices.drop_last()) + effective(invoices.last())
    }
}

/// The effective total divided by the number of invoices, rounded toward
/// zero; zero where there are no invoices.
pub open spec fn average_of(invoices: Seq<Invoice>) -> int {
    if invoices.len() == 0 {
        0
    } else {
        trunc_div(invoices_total(invoices), invoices.len() as int)
    }
}

/// The amounts of the costs, in order.
pub open spec fn cost_amounts(costs: Seq<Cost>) -> Seq<Money> {
    costs.map_values(|c: Cost| c.amount)
}

impl Invoice {
    /// The effective value, computed wide enough that it cannot overflow.
    pub fn effective_value(&self) -> (r: i128)
        ensures
            r == effective(*self),
            -0x4000_0000_0000_0000_0000_0000_0000_0000 <= r
                <= 0x4000_0000_0000_0000_0000_0000_0000_0000,
    {
        match self.rate {
            Some(rate) => {
                let a = self.amount.amount as i128;
                let b = rate.rate.amount as i128;
                assert(-0x4000_0000_0000_0000_0000_0000_0000_0000 <= a * b
                    <= 0x4000_0000_0000_0000_0000_0000_0000_0000) by (nonlinear_arith)
                    requires
                        i64::MIN <= a <= i64::MAX,
                        i64::MIN <= b <= i64::MAX,
                ;
                (a * b) / 100
            },
            None => self.amount.amount as i128,
        }
    }
}

impl Invoice {
    /// The invoice as text, as `invoice_text` describes.
    pub fn to_string(&self) -> (r: String)
        ensures
            r@ == invoice_text(*self),
    {
        let mut s = String::new();
        self.push_text(&mut s);
        assert(s@ =~= invoice_text(*self));
        s
    }

    fn push_text(&self, s: &mut String)
        ensures
            final(s)@ == old(s)@ + invoice_text(*self),
    {
        push_str(s, self.date.as_str());
        s.push(':');
        s.push(' ');
        self.push_value_text(s);
        self.push_label(s);
        assert(s@ =~= old(s)@ + invoice_text(*self));
    }

    fn push_value_text(&self, s: &mut String)
        ensures
            final(s)@ == old(s)@ + invoice_value_text(*self),
    {
        match self.rate {
            Some(rate) => {
                push_money_text(s, self.effective_value());
                s.push(' ');
                s.push('(');
                push_money_text(s, self.amount.amount as i128);
                s.push(' ');
                s.push('*');
                s.push(' ');
                push_money_text(s, rate.rate.amount as i128);
                s.push(')');
            },
            None => {
                push_money_text(s, self.amount.amount as i128);
            },
        }
        assert(s@ =~= old(s)@ + invoice_value_text(*self));
    }

    fn push_label(&self, s: &mut String)
        ensures
            final(s)@ == old(s)@ + invoice_label(*self),
    {
        match &self.customer {
            Some(c) => {
                s.push(' ');
                s.push('(');
                push_str(s, c.as_str());
                s.push(')');
            },
            None => {},
        }
        assert(s@ =~= old(s)@ + invoice_label(*self));
    }
}

/// The total of the costs in minor units, kept wide so that it cannot overflow.
fn costs_total_wide(costs: &[Cost]) -> (r: i128)
    ensures
        r == total(cost_amounts(costs@)),
{
    let mut acc: i128 = 0;
    let mut i: usize = 0;
    while i < costs.len()
        invariant
            i <= costs@.len(),
            acc == total(cost_amounts(costs@.subrange(0, i as int))),
            -0x8000_0000_0000_0000 * i <= acc <= 0x7fff_ffff_ffff_ffff * i,
        decreases costs@.len() - i,
    {
        assert(cost_amounts(costs@.subrange(0, i + 1)).drop_last() == cost_amounts(
            costs@.subrange(0, i as int),
        ));
        acc = acc + costs[i].amount.amount as i128;
        i = i + 1;
    }
    assert(costs@.subrange(0, i as int) == costs@);
    acc
}

/// The effective total of the invoices in minor units, or nothing where the
/// effective value of some invoice is not an amount that fits.
fn invoices_total_wide(invoices: &[Invoice]) -> (r: Option<i128>)
    ensures
        r is Some <==> effective_in_range(invoices@),
        r matches Some(t) ==> t == invoices_total(invoices@),
{
    let mut acc: i128 = 0;
    let mut i: usize = 0;
    while i < invoices.len()
        invariant
            i <= invoices@.len(),
            effective_in_range(invoices@.subrange(0, i as int)),
            acc == invoices_total(invoices@.subrange(0, i as int)),
            -0x8000_0000_0000_0000 * i <= acc <= 0x7fff_ffff_ffff_ffff * i,
        decreases invoices@.len() - i,
    {
        let e = invoices[i].effective_value();
        if e < -0x8000_0000_0000_0000 || e > 0x7fff_ffff_ffff_ffff {
            assert(!in_range(effective(invoices@[i as int])));
            return None;
        }
        let ghost next = invoices@.subrange(0, i + 1);
        assert(next.drop_last() == invoices@.subrange(0, i as int));
        assert(effective_in_range(next)) by {
            assert forall|j: int| 0 <= j < next.len() implies in_range(
                #[trigger] effective(next[j]),
            ) by {
                if j < i {
                    assert(next[j] == invoices@.subrange(0, i as int)[j]);
                }
            }
        }
        acc = acc + e;
        i = i + 1;
    }
    assert(invoices@.subrange(0, i as int) == invoices@);
    Some(acc)
}

/// The sum of the amounts of all costs; zero where there are none.
pub fn sum_costs(costs: &[Cost]) -> (r: Money)
    requires
        in_range(total(cost_amounts(costs@))),
    ensures
        r@ == total(cost_amounts(costs@)),
{
    Money { amount: costs_total_wide(costs) as i64 }
}

/// The sum of the effective values of all invoices; zero where there are none.
pub fn sum_invoices(invoices: &[Invoice]) -> (r: Money)
    requires
        effective_in_range(invoices@),
        in_range(invoices_total(invoices@)),
    ensures
        r@ == invoices_total(invoices@),
{
    match invoices_total_wide(invoices) {
        Some(t) => Money { amount: t as i64 },
        None => Money::zero(),
    }
}

proof fn lemma_div_shrinks(t: int, n: int)
    requires
        in_range(t),
        n >= 1,
    ensures
        in_range(trunc_div(t, n)),
{
    if t >= 0 {
        assert(0 <= t / n <= t) by (nonlinear_arith)
            requires
                t >= 0,
                n >= 1,
        ;
    } else {
        assert(0 <= (-t) / n <= -t) by (nonlinear_arith)
            requires
                t < 0,
                n >= 1,
        ;
    }
}

/// The effective total divided by the number of invoices, rounded toward
/// zero. With no invoices it is zero: nothing is divided by zero.
pub fn average_invoice(invoices: &[Invoice]) -> (r: Money)
    requires
        effective_in_range(invoices@),
        in_range(invoices_total(invoices@)),
    ensures
        r@ == average_of(invoices@),
{
    let n = invoices.len();
    if n == 0 {
        return Money::zero();
    }
    let sum = sum_invoices(invoices);
    proof {
        lemma_div_shrinks(sum@, n as int);
    }
    Money { amount: ((sum.amount as i128) / (n as i128)) as i64 }
}

/// The figures of a balance. The number of invoices of average size still
/// needed to break even (scaled by one hundred) is left out where the average
/// invoice is zero.
#[derive(Clone, Copy, Debug, PartialEq, Eq, Structural)]
pub struct Balance {
    pub costs: Money,
    pub invoices: Money,
    pub total: Money,
    pub average: Money,
    pub invoices_to_break_even: Option<Money>,
}

/// `-total / average` by the rule of `Money::div`.
pub open spec fn break_even(total: int, average: int) -> int {
    trunc_div(-total * 100, average)
}

/// Whether every figure of the balance of these records fits in an amount.
pub open spec fn balance_fits(costs: Seq<Cost>, invoices: Seq<Invoice>) -> bool {
    let c = total(cost_amounts(costs));
    let i = invoices_total(invoices);
    let a = average_of(invoices);
    &&& in_range(c)
    &&& effective_in_range(invoices)
    &&& in_range(i)
    &&& in_range(i - c)
    &&& a != 0 ==> in_range(-(i - c)) && in_range(break_even(i - c, a))
}

/// How an invoice is shown: its date, then its effective value, followed by
/// `(amount * rate)` where it has a rate and by `(customer)` where it has one.
pub open spec fn invoice_text(inv: Invoice) -> Seq<char> {
    inv.date@ + seq![':', ' '] + invoice_value_text(inv) + invoice_label(inv)
}

pub open spec fn invoice_value_text(inv: Invoice) -> Seq<char> {
    match inv.rate {
        Some(r) => money_text(effective(inv)) + seq![' ', '('] + money_text(inv.amount@) + seq![
            ' ',
            '*',
            ' ',
        ] + money_text(r.rate@) + seq![')'],
        None => money_text(inv.amount@),
    }
}

pub open spec fn invoice_label(inv: Invoice) -> Seq<char> {
    match inv.customer {
        Some(c) => seq![' ', '('] + c@ + seq![')'],
        None => Seq::<char>::empty(),
    }
}

/// A line of the list of invoices: the invoice's position, then the invoice.
pub open spec fn invoice_line(k: nat, inv: Invoice) -> Seq<char> {
    decimal(k) + seq![':', ' '] + invoice_text(inv)
}

/// The list of invoices, numbered from zero in the order they are kept.
pub open spec fn invoice_listing(invoices: Seq<Invoice>) -> Seq<Seq<char>> {
    Seq::new(invoices.len(), |k: int| invoice_line(k as nat, invoices[k]))
}

/// A line of the list of costs: position, date, amount and name.
pub open spec fn cost_line(k: nat, c: Cost) -> Seq<char> {
    decimal(k) + seq![':', ' '] + c.date@ + seq![' '] + money_text(c.amount@) + seq![' ']
        + c.name@
}

/// A line of the list of rates: name and value.
pub open spec fn rate_line(entry: (Seq<char>, Rate)) -> Seq<char> {
    entry.0 + seq![':', ' '] + money_text(entry.1.rate@)
}

/// Deleting the invoice at `i` moves each later invoice one place down in
/// the list of invoices, which is still numbered from zero.
pub proof fn lemma_delete_shifts_listing(invoices: Seq<Invoice>, i: int)
    requires
        0 <= i < invoices.len(),
    ensures
        invoice_listing(invoices.remove(i)).len() == invoices.len() - 1,
        forall|k: int|
            0 <= k < i ==> #[trigger] invoice_listing(invoices.remove(i))[k] == invoice_line(
                k as nat,
                invoices[k],
            ),
        forall|k: int|
            i <= k < invoices.len() - 1 ==> #[trigger] invoice_listing(invoices.remove(i))[k]
                == invoice_line(k as nat, invoices[k + 1]),
{
}

/// What adding an invoice does: the invoice, with a copy of the named rate
/// where one is named, goes after the others; a name under which no rate is
/// stored adds nothing and gives the signal.
pub open spec fn add_invoice_done(
    before: Moneybag,
    after: Moneybag,
    date: String,
    amount: Money,
    rate: Option<String>,
    customer: Option<String>,
    r: Result<(), RateNotFound>,
) -> bool {
    &&& after.rate_entries() == before.rate_entries()
    &&& after.costs@ == before.costs@
    &&& match rate {
        None => r is Ok && after.invoices@ == before.invoices@.push(
            (Invoice { date, amount, rate: None, customer }),
        ),
        Some(n) => match before.rate_named(n@) {
            Some(found) => r is Ok && after.invoices@ == before.invoices@.push(
                (Invoice { date, amount, rate: Some(found), customer }),
            ),
            None => r is Err && after.invoices@ == before.invoices@,
        },
    }
}

/// What adding a cost does: it goes after the others, or, dated with the
/// monthly token, twelve copies go there, one dated with each month of the
/// reference year.
pub open spec fn add_cost_done(
    before: Moneybag,
    after: Moneybag,
    date: String,
    amount: Money,
    name: String,
) -> bool {
    &&& after.rate_entries() == before.rate_entries()
    &&& after.invoices@ == before.invoices@
    &&& date@ != monthly_token() ==> after.costs@ == before.costs@.push(
        (Cost { date, amount, name }),
    )
    &&& date@ == monthly_token() ==> {
        let n = before.costs@.len();
        &&& after.costs@.len() == n + 12
        &&& after.costs@.subrange(0, n as int) == before.costs@
        &&& forall|k: int|
            0 <= k < 12 ==> (#[trigger] after.costs@[n + k]).date@ == month_date(
                REFERENCE_YEAR as nat,
                (k + 1) as nat,
            ) && after.costs@[n + k].amount == amount && after.costs@[n + k].name@ == name@
    }
}

/// What deleting an invoice does: it leaves the list, and those after it
/// move down one place.
pub open spec fn delete_invoice_done(before: Moneybag, after: Moneybag, index: usize) -> bool {
    &&& after.rate_entries() == before.rate_entries()
    &&& after.costs@ == before.costs@
    &&& after.invoices@ == before.invoices@.remove(index as int)
}

/// What deleting a cost does: it leaves the list, and those after it move
/// down one place.
pub open spec fn delete_cost_done(before: Moneybag, after: Moneybag, index: usize) -> bool {
    &&& after.rate_entries() == before.rate_entries()
    &&& after.invoices@ == before.invoices@
    &&& after.costs@ == before.costs@.remove(index as int)
}

/// What editing an invoice does: each field given a nonempty text (or an
/// amount) takes it; a rate name takes a copy of the rate under it, or, where
/// none is stored, leaves the rate and gives the signal.
pub open spec fn edit_invoice_done(
    before: Moneybag,
    after: Moneybag,
    index: usize,
    date: String,
    amount: Option<Money>,
    customer: String,
    rate: String,
    r: Result<(), RateNotFound>,
) -> bool {
    &&& after.rate_entries() == before.rate_entries()
    &&& after.costs@ == before.costs@
    &&& after.invoices@.len() == before.invoices@.len()
    &&& forall|j: int|
        0 <= j < before.invoices@.len() && j != index
            ==> #[trigger] after.invoices@[j] == before.invoices@[j]
    &&& ({
        let was = before.invoices@[index as int];
        let now = after.invoices@[index as int];
        &&& now.date@ == replaced(was.date@, date@)
        &&& now.amount == match amount {
            Some(a) => a,
            None => was.amount,
        }
        &&& customer@.len() == 0 ==> now.customer == was.customer
        &&& customer@.len() > 0 ==> (now.customer matches Some(c) && c@ == customer@)
        &&& rate@.len() == 0 ==> now.rate == was.rate && r is Ok
        &&& rate@.len() > 0 ==> match before.rate_named(rate@) {
            Some(found) => now.rate == Some(found) && r is Ok,
            None => now.rate == was.rate && r is Err,
        }
    })
}

/// What editing a cost does: each field given a nonempty text (or an amount)
/// takes it.
pub open spec fn edit_cost_done(
    before: Moneybag,
    after: Moneybag,
    index: usize,
    date: String,
    amount: Option<Money>,
    name: String,
) -> bool {
    &&& after.rate_entries() == before.rate_entries()
    &&& after.invoices@ == before.invoices@
    &&& after.costs@.len() == before.costs@.len()
    &&& forall|j: int|
        0 <= j < before.costs@.len() && j != index
            ==> #[trigger] after.costs@[j] == before.costs@[j]
    &&& ({
        let was = before.costs@[index as int];
        let now = after.costs@[index as int];
        &&& now.date@ == replaced(was.date@, date@)
        &&& now.amount == match amount {
            Some(a) => a,
            None => was.amount,
        }
        &&& now.name@ == replaced(was.name@, name@)
    })
}

/// What adding a rate does: it replaces, in place, the rate of the same
/// name, or goes after the others.
pub open spec fn add_rate_done(
    before: Moneybag,
    after: Moneybag,
    name: String,
    rate: Rate,
) -> bool {
    &&& after.invoices@ == before.invoices@
    &&& after.costs@ == before.costs@
    &&& before.rate_named(name@) is Some ==> after.rate_entries() == before.rate_entries().update(
        rate_index(before.rate_entries(), name@),
        (name@, rate),
    )
    &&& before.rate_named(name@) is None ==> after.rate_entries() == before.rate_entries().push(
        (name@, rate),
    )
}

/// What deleting a rate does: the rate of that name, if any, leaves the
/// list; invoices keep their copies.
pub open spec fn delete_rate_done(before: Moneybag, after: Moneybag, name: Seq<char>) -> bool {
    &&& after.invoices@ == before.invoices@
    &&& after.costs@ == before.costs@
    &&& before.rate_named(name) is Some ==> after.rate_entries()
        == before.rate_entries().remove(rate_index(before.rate_entries(), name))
    &&& before.rate_named(name) is None ==> after.rate_entries() == before.rate_entries()
}

/// What editing a rate does: the rate of that name takes the new value,
/// where one is given; invoices keep their copies.
pub open spec fn edit_rate_done(
    before: Moneybag,
    after: Moneybag,
    name: Seq<char>,
    rate: Option<Money>,
) -> bool {
    &&& after.invoices@ == before.invoices@
    &&& after.costs@ == before.costs@
    &&& after.rate_entries() == match rate {
        Some(m) => before.rate_entries().update(
            rate_index(before.rate_entries(), name),
            (name, Rate { rate: m }),
        ),
        None => before.rate_entries(),
    }
}

/// The signal that a rate was asked for by a name under which none is stored.
#[derive(Clone, Copy, Debug, PartialEq, Eq, Structural)]
pub struct RateNotFound;

/// The year whose months a monthly cost is spread over.
pub const REFERENCE_YEAR: u64 = 2025;

/// The date that marks a cost as monthly.
pub open spec fn monthly_token() -> Seq<char> {
    seq!['m', 'o', 'n', 't', 'h', 'l', 'y']
}

/// The date of a month: the year, a dash, and the month as two digits.
pub open spec fn month_date(year: nat, month: nat) -> Seq<char> {
    decimal(year) + seq!['-'] + two_digits(month)
}

/// A field's new text: what was typed, where anything was.
pub open spec fn replaced(current: Seq<char>, input: Seq<char>) -> Seq<char> {
    if input.len() == 0 {
        current
    } else {
        input
    }
}

/// Whether a date is the token that marks a cost as monthly.
pub fn is_monthly(date: &String) -> (r: bool)
    ensures
        r == (date@ == monthly_token()),
{
    let c = chars_of(date.as_str());
    let ghost token = monthly_token();
    if c.len() != 7 {
        return false;
    }
    let r = c[0] == 'm' && c[1] == 'o' && c[2] == 'n' && c[3] == 't' && c[4] == 'h' && c[5]
        == 'l' && c[6] == 'y';
    if r {
        assert(c@ =~= token);
    } else {
        assert(c@ != token) by {
            if c@ == token {
                assert(c@[0] == token[0] && c@[1] == token[1] && c@[2] == token[2]);
                assert(c@[3] == token[3] && c@[4] == token[4] && c@[5] == token[5]);
                assert(c@[6] == token[6]);
            }
        }
    }
    r
}

/// Twelve costs of the same amount and name, one for each month of `year`.
pub fn expand_monthly(amount: Money, name: &String, year: u64) -> (r: Vec<Cost>)
    ensures
        r@.len() == 12,
        forall|k: int|
            0 <= k < 12 ==> (#[trigger] r@[k]).date@ == month_date(year as nat, (k + 1) as nat)
                && r@[k].amount == amount && r@[k].name@ == name@,
{
    let mut r: Vec<Cost> = Vec::new();
    let mut month: u64 = 1;
    while month <= 12
        invariant
            1 <= month <= 13,
            r@.len() == month - 1,
            forall|k: int|
                0 <= k < month - 1 ==> (#[trigger] r@[k]).date@ == month_date(
                    year as nat,
                    (k + 1) as nat,
                ) && r@[k].amount == amount && r@[k].name@ == name@,
        decreases 13 - month,
    {
        let mut date = String::new();
        push_decimal(&mut date, year as u128);
        date.push('-');
        push_two_digits(&mut date, month as u128);
        assert(date@ =~= month_date(year as nat, month as nat));
        r.push(Cost { date, amount, name: name.clone() });
        month = month + 1;
    }
    r
}

/// The value found under `name` in a list of named rates, if any.
pub open spec fn rate_of(entries: Seq<(Seq<char>, Rate)>, name: Seq<char>) -> Option<Rate> {
    if exists|i: int| 0 <= i < entries.len() && #[trigger] entries[i].0 == name {
        Some(entries[rate_index(entries, name)].1)
    } else {
        None
    }
}

/// Where `name` stands in a list of named rates, where it stands at all.
pub open spec fn rate_index(entries: Seq<(Seq<char>, Rate)>, name: Seq<char>) -> int {
    choose|i: int| 0 <= i < entries.len() && #[trigger] entries[i].0 == name
}

pub open spec fn names_unique(entries: Seq<(Seq<char>, Rate)>) -> bool {
    forall|i: int, j: int|
        0 <= i < entries.len() && 0 <= j < entries.len() && i != j ==> #[trigger] entries[i].0
            != #[trigger] entries[j].0
}

/// The set of records: invoices and costs in the order they were entered,
/// and rates under names that are unique (see `wf`).
#[derive(Debug)]
pub struct Moneybag {
    pub invoices: Vec<Invoice>,
    pub rates: Vec<(String, Rate)>,
    pub costs: Vec<Cost>,
}

impl Moneybag {
    /// The named rates, in the order they were first added.
    pub open spec fn rate_entries(&self) -> Seq<(Seq<char>, Rate)> {
        self.rates@.map_values(|e: (String, Rate)| (e.0@, e.1))
    }

    pub open spec fn wf(&self) -> bool {
        names_unique(self.rate_entries())
    }

    pub open spec fn rate_named(&self, name: Seq<char>) -> Option<Rate> {
        rate_of(self.rate_entries(), name)
    }

    pub fn new() -> (r: Moneybag)
        ensures
            r.wf(),
            r.invoices@.len() == 0,
            r.costs@.len() == 0,
            r.rate_entries().len() == 0,
    {
        let r = Moneybag { invoices: Vec::new(), rates: Vec::new(), costs: Vec::new() };
        assert(r.rate_entries().len() == 0);
        r
    }

    fn rate_position(&self, name: &String) -> (r: Option<usize>)
        requires
            self.wf(),
        ensures
            r matches Some(i) ==> i < self.rate_entries().len() && i == rate_index(
                self.rate_entries(),
                name@,
            ) && self.rate_entries()[i as int].0 == name@,
            r is None <==> self.rate_named(name@) is None,
    {
        let ghost entries = self.rate_entries();
        let mut i: usize = 0;
        while i < self.rates.len()
            invariant
                i <= self.rates@.len(),
                entries == self.rate_entries(),
                names_unique(entries),
                entries.len() == self.rates@.len(),
                forall|j: int| 0 <= j < i ==> #[trigger] entries[j].0 != name@,
            decreases self.rates@.len() - i,
        {
            assert(entries[i as int].0 == self.rates@[i as int].0@);
            if self.rates[i].0 == *name {
                assert(entries[i as int].0 == name@);
                assert(exists|j: int| 0 <= j < entries.len() && #[trigger] entries[j].0 == name@);
                let ghost k = rate_index(entries, name@);
                assert(entries[k].0 == name@);
                assert(k == i);
                return Some(i);
            }
            i = i + 1;
        }
        None
    }

    /// The rate stored under `name`, if there is one.
    pub fn find_rate(&self, name: &String) -> (r: Option<Rate>)
        requires
            self.wf(),
        ensures
            r == self.rate_named(name@),
    {
        match self.rate_position(name) {
            Some(i) => Some(self.rates[i].1),
            None => None,
        }
    }

    /// The balance: the costs, the invoices, what the invoices leave after
    /// the costs, the average invoice, and, where that average is not zero,
    /// how many such invoices would offset the total. Nothing is returned
    /// where one of these figures does not fit in an amount.
    pub fn balance(&self) -> (r: Option<Balance>)
        ensures
            r is Some <==> balance_fits(self.costs@, self.invoices@),
            r matches Some(b) ==> {
                let c = total(cost_amounts(self.costs@));
                let i = invoices_total(self.invoices@);
                let a = average_of(self.invoices@);
                &&& b.costs@ == c
                &&& b.invoices@ == i
                &&& b.total@ == i - c
                &&& b.average@ == a
                &&& a == 0 ==> b.invoices_to_break_even is None
                &&& a != 0 ==> (b.invoices_to_break_even matches Some(n) && n@ == break_even(
                    i - c,
                    a,
                ))
            },
    {
        let c = costs_total_wide(self.costs.as_slice());
        if c < -0x8000_0000_0000_0000 || c > 0x7fff_ffff_ffff_ffff {
            return None;
        }
        let i = match invoices_total_wide(self.invoices.as_slice()) {
            Some(i) => i,
            None => {
                return None;
            },
        };
        if i < -0x8000_0000_0000_0000 || i > 0x7fff_ffff_ffff_ffff {
            return None;
        }
        let costs = sum_costs(self.costs.as_slice());
        let invoices = sum_invoices(self.invoices.as_slice());
        let t = i - c;
        if t < -0x8000_0000_0000_0000 || t > 0x7fff_ffff_ffff_ffff {
            return None;
        }
        let total = invoices.sub(costs);
        let average = average_invoice(self.invoices.as_slice());
        if average.is_zero() {
            return Some(
                Balance { costs, invoices, total, average, invoices_to_break_even: None },
            );
        }
        if t == -0x8000_0000_0000_0000 {
            return None;
        }
        let owed = total.neg();
        match owed.checked_div(average) {
            Some(n) => Some(
                Balance { costs, invoices, total, average, invoices_to_break_even: Some(n) },
            ),
            None => None,
        }
    }

    /// The invoices as lines of text, numbered from zero.
    pub fn list_invoices(&self) -> (r: Vec<String>)
        ensures
            r@.len() == self.invoices@.len(),
            forall|k: int|
                0 <= k < r@.len() ==> (#[trigger] r@[k])@ == invoice_listing(self.invoices@)[k],
    {
        let mut r: Vec<String> = Vec::new();
        let mut k: usize = 0;
        while k < self.invoices.len()
            invariant
                k <= self.invoices@.len(),
                r@.len() == k,
                forall|j: int|
                    0 <= j < k ==> (#[trigger] r@[j])@ == invoice_line(
                        j as nat,
                        self.invoices@[j],
                    ),
            decreases self.invoices@.len() - k,
        {
            let mut line = String::new();
            push_decimal(&mut line, k as u128);
            line.push(':');
            line.push(' ');
            self.invoices[k].push_text(&mut line);
            assert(line@ =~= invoice_line(k as nat, self.invoices@[k as int]));
            r.push(line);
            k = k + 1;
        }
        r
    }

    /// The costs as lines of text, numbered from zero.
    pub fn list_costs(&self) -> (r: Vec<String>)
        ensures
            r@.len() == self.costs@.len(),
            forall|k: int|
                0 <= k < r@.len() ==> (#[trigger] r@[k])@ == cost_line(k as nat, self.costs@[k]),
    {
        let mut r: Vec<String> = Vec::new();
        let mut k: usize = 0;
        while k < self.costs.len()
            invariant
                k <= self.costs@.len(),
                r@.len() == k,
                forall|j: int|
                    0 <= j < k ==> (#[trigger] r@[j])@ == cost_line(j as nat, self.costs@[j]),
            decreases self.costs@.len() - k,
        {
            let cost = &self.costs[k];
            let mut line = String::new();
            push_decimal(&mut line, k as u128);
            line.push(':');
            line.push(' ');
            push_str(&mut line, cost.date.as_str());
            line.push(' ');
            push_money_text(&mut line, cost.amount.amount as i128);
            line.push(' ');
            push_str(&mut line, cost.name.as_str());
            assert(line@ =~= cost_line(k as nat, self.costs@[k as int]));
            r.push(line);
            k = k + 1;
        }
        r
    }

    /// The rates as lines of text, in the order they are kept.
    pub fn list_rates(&self) -> (r: Vec<String>)
        ensures
            r@.len() == self.rate_entries().len(),
            forall|k: int|
                0 <= k < r@.len() ==> (#[trigger] r@[k])@ == rate_line(self.rate_entries()[k]),
    {
        let mut r: Vec<String> = Vec::new();
        let mut k: usize = 0;
        while k < self.rates.len()
            invariant
                k <= self.rates@.len(),
                r@.len() == k,
                forall|j: int|
                    0 <= j < k ==> (#[trigger] r@[j])@ == rate_line(self.rate_entries()[j]),
            decreases self.rates@.len() - k,
        {
            let entry = &self.rates[k];
            let mut line = String::new();
            push_str(&mut line, entry.0.as_str());
            line.push(':');
            line.push(' ');
            push_money_text(&mut line, entry.1.rate.amount as i128);
            assert(line@ =~= rate_line(self.rate_entries()[k as int]));
            r.push(line);
            k = k + 1;
        }
        r
    }

    /// Adds an invoice. Where a rate name is given, the invoice takes a copy
    /// of the rate stored under it; where none is stored under it, nothing
    /// is added and the signal is returned.
    pub fn add_invoice(
        &mut self,
        date: String,
        amount: Money,
        rate: Option<String>,
        customer: Option<String>,
    ) -> (r: Result<(), RateNotFound>)
        requires
            old(self).wf(),
        ensures
            final(self).wf(),
            add_invoice_done(*old(self), *final(self), date, amount, rate, customer, r),
    {
        match rate {
            None => {
                self.invoices.push(Invoice { date, amount, rate: None, customer });
                Ok(())
            },
            Some(name) => match self.find_rate(&name) {
                Some(found) => {
                    self.invoices.push(Invoice { date, amount, rate: Some(found), customer });
                    Ok(())
                },
                None => Err(RateNotFound),
            },
        }
    }

    /// Adds a cost. A cost dated with the monthly token is entered twelve
    /// times instead, once for each month of the reference year.
    pub fn add_cost(&mut self, date: String, amount: Money, name: String)
        requires
            old(self).wf(),
        ensures
            final(self).wf(),
            add_cost_done(*old(self), *final(self), date, amount, name),
    {
        if is_monthly(&date) {
            let mut months = expand_monthly(amount, &name, REFERENCE_YEAR);
            let ghost before = self.costs@;
            let ghost added = months@;
            self.costs.append(&mut months);
            assert(self.costs@ == before + added);
            assert(self.costs@.subrange(0, before.len() as int) =~= before);
            assert(forall|k: int| 0 <= k < 12 ==> #[trigger] self.costs@[before.len() + k] == added[k]);
        } else {
            self.costs.push(Cost { date, amount, name });
        }
    }

    /// Removes the invoice at `index`; those after it move down by one.
    pub fn delete_invoice(&mut self, index: usize)
        requires
            old(self).wf(),
            index < old(self).invoices@.len(),
        ensures
            final(self).wf(),
            delete_invoice_done(*old(self), *final(self), index),
    {
        self.invoices.remove(index);
    }

    /// Removes the cost at `index`; those after it move down by one.
    pub fn delete_cost(&mut self, index: usize)
        requires
            old(self).wf(),
            index < old(self).costs@.len(),
        ensures
            final(self).wf(),
            delete_cost_done(*old(self), *final(self), index),
    {
        self.costs.remove(index);
    }

    /// Edits the invoice at `index`. An empty text keeps the field as it
    /// is, and so does an absent amount. A rate name takes a copy of the rate
    /// stored under it; where none is, the invoice keeps its rate, the other
    /// fields are still edited, and the signal is returned.
    pub fn edit_invoice(
        &mut self,
        index: usize,
        date: String,
        amount: Option<Money>,
        customer: String,
        rate: String,
    ) -> (r: Result<(), RateNotFound>)
        requires
            old(self).wf(),
            index < old(self).invoices@.len(),
        ensures
            final(self).wf(),
            edit_invoice_done(*old(self), *final(self), index, date, amount, customer, rate, r),
    {
        let found = if rate.as_str().is_empty() {
            None
        } else {
            Some(self.find_rate(&rate))
        };
        let ghost before = self.invoices@;
        let mut invoice = self.invoices.remove(index);
        if !date.as_str().is_empty() {
            invoice.date = date;
        }
        if let Some(a) = amount {
            invoice.amount = a;
        }
        if !customer.as_str().is_empty() {
            invoice.customer = Some(customer);
        }
        let r = match found {
            None => Ok(()),
            Some(Some(x)) => {
                invoice.rate = Some(x);
                Ok(())
            },
            Some(None) => Err(RateNotFound),
        };
        self.invoices.insert(index, invoice);
        assert(forall|j: int| 0 <= j < before.len() && j != index ==> #[trigger] self.invoices@[j] == before[j]);
        r
    }

    /// Edits the cost at `index`. An empty text keeps the field as it is, and
    /// so does an absent amount.
    pub fn edit_cost(&mut self, index: usize, date: String, amount: Option<Money>, name: String)
        requires
            old(self).wf(),
            index < old(self).costs@.len(),
        ensures
            final(self).wf(),
            edit_cost_done(*old(self), *final(self), index, date, amount, name),
    {
        let ghost before = self.costs@;
        let mut cost = self.costs.remove(index);
        if !date.as_str().is_empty() {
            cost.date = date;
        }
        if let Some(a) = amount {
            cost.amount = a;
        }
        if !name.as_str().is_empty() {
            cost.name = name;
        }
        self.costs.insert(index, cost);
        assert(forall|j: int| 0 <= j < before.len() && j != index ==> #[trigger] self.costs@[j] == before[j]);
    }

    /// Stores `rate` under `name`: in place of the rate of that name where
    /// there is one, else after the others.
    pub fn add_rate(&mut self, name: String, rate: Rate)
        requires
            old(self).wf(),
        ensures
            final(self).wf(),
            add_rate_done(*old(self), *final(self), name, rate),
    {
        let ghost entries = self.rate_entries();
        let ghost key = name@;
        match self.rate_position(&name) {
            Some(i) => {
                self.rates.set(i, (name, rate));
                assert(self.rate_entries() =~= entries.update(i as int, (key, rate)));
            },
            None => {
                self.rates.push((name, rate));
                assert(self.rate_entries() =~= entries.push((key, rate)));
                assert(forall|j: int| 0 <= j < entries.len() ==> #[trigger] entries[j].0 != key);
            },
        }
    }

    /// Removes the rate stored under `name`, if there is one. Invoices keep
    /// the copies of it that they hold.
    pub fn delete_rate(&mut self, name: &String)
        requires
            old(self).wf(),
        ensures
            final(self).wf(),
            delete_rate_done(*old(self), *final(self), name@),
    {
        let ghost entries = self.rate_entries();
        match self.rate_position(name) {
            Some(i) => {
                self.rates.remove(i);
                assert(self.rate_entries() =~= entries.remove(i as int));
                assert forall|a: int, b: int|
                    0 <= a < self.rate_entries().len() && 0 <= b < self.rate_entries().len()
                        && a != b implies #[trigger] self.rate_entries()[a].0
                    != #[trigger] self.rate_entries()[b].0 by {
                    let a0 = if a < i { a } else { a + 1 };
                    let b0 = if b < i { b } else { b + 1 };
                    assert(self.rate_entries()[a] == entries[a0]);
                    assert(self.rate_entries()[b] == entries[b0]);
                }
            },
            None => {},
        }
    }

    /// Sets the value of the rate stored under `name`, where a new value is
    /// given. Invoices keep the copies of the rate that they hold.
    pub fn edit_rate(&mut self, name: &String, rate: Option<Money>)
        requires
            old(self).wf(),
            old(self).rate_named(name@) is Some,
        ensures
            final(self).wf(),
            edit_rate_done(*old(self), *final(self), name@, rate),
    {
        let ghost entries = self.rate_entries();
        if let Some(m) = rate {
            match self.rate_position(name) {
                Some(i) => {
                    let key = name.clone();
                    self.rates.set(i, (key, Rate { rate: m }));
                    assert(self.rate_entries() =~= entries.update(
                        i as int,
                        (name@, Rate { rate: m }),
                    ));
                },
                None => {},
            }
        }
    }
}

} // verus!
