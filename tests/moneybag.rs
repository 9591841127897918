use moneybags::{
    average_invoice, handle_add, handle_delete, handle_edit, handle_list, sum_costs,
    sum_invoices, AddCommand, Cost, DeleteCommand, EditCommand, Invoice, ListCommand, Money,
    Moneybag, Rate, RateNotFound,
};

fn invoice(amount: i64, rate: Option<i64>) -> Invoice {
    Invoice {
        date: "2025-03-01".to_string(),
        amount: Money::new(amount),
        rate: rate.map(|r| Rate { rate: Money::new(r) }),
        customer: None,
    }
}

fn cost(amount: i64, name: &str) -> Cost {
    Cost { date: "2025-01-15".to_string(), amount: Money::new(amount), name: name.to_string() }
}

#[test]
fn average_of_no_invoices_is_zero() {
    assert_eq!(average_invoice(&[]), Money::new(0));
}

#[test]
fn sums_of_nothing_are_zero() {
    assert_eq!(sum_costs(&[]), Money::new(0));
    assert_eq!(sum_invoices(&[]), Money::new(0));
}

#[test]
fn invoice_total_applies_rates() {
    let hours = Money::parse("50").unwrap();
    let invoices = [
        invoice(1000, None),
        Invoice { date: "2025-03-02".to_string(), amount: hours, rate: Some(Rate { rate: Money::new(765) }), customer: None },
    ];
    assert_eq!(sum_invoices(&invoices), Money::new(39250));
}

#[test]
fn invoice_total_truncates_each_product() {
    let invoices = [invoice(50, Some(765)), invoice(50, Some(765))];
    assert_eq!(sum_invoices(&invoices), Money::new(764));
}

#[test]
fn average_truncates_toward_zero() {
    let invoices = [invoice(1000, None), invoice(1001, None), invoice(1, None)];
    assert_eq!(average_invoice(&invoices), Money::new(667));
    let negative = [invoice(-5, None), invoice(0, None)];
    assert_eq!(average_invoice(&negative), Money::new(-2));
}

#[test]
fn monthly_cost_expands_to_twelve() {
    let mut bag = Moneybag::new();
    bag.add_cost("2025-02-01".to_string(), Money::new(10000), "insurance".to_string());
    let r = handle_add(
        AddCommand::Cost { date: "monthly".to_string(), amount: Money::new(500), name: "rent".to_string() },
        &mut bag,
    );
    assert_eq!(r, Ok(()));
    assert_eq!(bag.costs.len(), 13);
    assert_eq!(sum_costs(&bag.costs), Money::new(16000));
    assert_eq!(bag.costs[1].date, "2025-01");
    assert_eq!(bag.costs[12].date, "2025-12");
    assert_eq!(bag.costs[12].name, "rent");
    assert_eq!(bag.costs[12].amount, Money::new(500));
}

#[test]
fn other_cost_dates_are_kept() {
    let mut bag = Moneybag::new();
    bag.add_cost("Monthly".to_string(), Money::new(1), "x".to_string());
    assert_eq!(bag.costs.len(), 1);
    assert_eq!(bag.costs[0].date, "Monthly");
}

#[test]
fn balance_without_invoices_has_no_break_even() {
    let mut bag = Moneybag::new();
    bag.costs.push(cost(10000, "insurance"));
    let b = bag.balance().unwrap();
    assert_eq!(b.costs, Money::new(10000));
    assert_eq!(b.invoices, Money::new(0));
    assert_eq!(b.total, Money::new(-10000));
    assert_eq!(b.average, Money::new(0));
    assert_eq!(b.invoices_to_break_even, None);
}

#[test]
fn balance_with_invoices_counts_break_even() {
    let mut bag = Moneybag::new();
    bag.costs.push(cost(10000, "insurance"));
    bag.invoices.push(invoice(3000, None));
    bag.invoices.push(invoice(1000, None));
    let b = bag.balance().unwrap();
    assert_eq!(b.invoices, Money::new(4000));
    assert_eq!(b.total, Money::new(-6000));
    assert_eq!(b.average, Money::new(2000));
    assert_eq!(b.invoices_to_break_even, Some(Money::new(300)));
    assert_eq!(b.total.neg().div(b.average), Money::new(300));
}

#[test]
fn balance_reports_overflow() {
    let mut bag = Moneybag::new();
    bag.costs.push(cost(i64::MAX, "a"));
    bag.costs.push(cost(1, "b"));
    assert_eq!(bag.balance(), None);
    let mut bag = Moneybag::new();
    bag.invoices.push(invoice(i64::MAX, Some(200)));
    assert_eq!(bag.balance(), None);
}

#[test]
fn deleting_an_invoice_renumbers_the_rest() {
    let mut bag = Moneybag::new();
    bag.invoices.push(invoice(100, None));
    bag.invoices.push(invoice(200, None));
    bag.invoices.push(invoice(300, None));
    handle_delete(DeleteCommand::Invoice { index: 0 }, &mut bag);
    assert_eq!(bag.invoices.len(), 2);
    assert_eq!(bag.invoices[0].amount, Money::new(200));
    let lines = handle_list(ListCommand::Invoices, &bag);
    assert_eq!(lines, vec!["0: 2025-03-01: 2.00".to_string(), "1: 2025-03-01: 3.00".to_string()]);
}

#[test]
fn deleting_a_cost_renumbers_the_rest() {
    let mut bag = Moneybag::new();
    bag.costs.push(cost(100, "a"));
    bag.costs.push(cost(250, "b"));
    handle_delete(DeleteCommand::Cost { index: 0 }, &mut bag);
    assert_eq!(bag.list_costs(), vec!["0: 2025-01-15 2.50 b".to_string()]);
}

#[test]
fn invoice_with_missing_rate_is_not_added() {
    let mut bag = Moneybag::new();
    let r = handle_add(
        AddCommand::Invoice {
            date: "2025-04-01".to_string(),
            amount: Money::new(1000),
            rate: Some("nope".to_string()),
            customer: None,
        },
        &mut bag,
    );
    assert_eq!(r, Err(RateNotFound));
    assert_eq!(bag.invoices.len(), 0);
}

#[test]
fn invoice_copies_its_rate() {
    let mut bag = Moneybag::new();
    handle_add(AddCommand::Rate { rate: Money::new(765), name: "hourly".to_string() }, &mut bag).unwrap();
    let r = bag.add_invoice(
        "2025-04-01".to_string(),
        Money::new(5000),
        Some("hourly".to_string()),
        Some("ACME".to_string()),
    );
    assert_eq!(r, Ok(()));
    handle_edit(EditCommand::Rate { name: "hourly".to_string(), rate: Some(Money::new(900)) }, &mut bag).unwrap();
    assert_eq!(bag.invoices[0].rate, Some(Rate { rate: Money::new(765) }));
    assert_eq!(bag.invoices[0].to_string(), "2025-04-01: 382.50 (50.00 * 7.65) (ACME)");
    handle_delete(DeleteCommand::Rate { name: "hourly".to_string() }, &mut bag);
    assert_eq!(bag.find_rate(&"hourly".to_string()), None);
    assert_eq!(bag.invoices[0].rate, Some(Rate { rate: Money::new(765) }));
}

#[test]
fn rates_are_replaced_by_name() {
    let mut bag = Moneybag::new();
    bag.add_rate("a".to_string(), Rate { rate: Money::new(100) });
    bag.add_rate("b".to_string(), Rate { rate: Money::new(200) });
    bag.add_rate("a".to_string(), Rate { rate: Money::new(150) });
    assert_eq!(bag.rates.len(), 2);
    assert_eq!(bag.find_rate(&"a".to_string()), Some(Rate { rate: Money::new(150) }));
    assert_eq!(handle_list(ListCommand::Rates, &bag), vec!["a: 1.50".to_string(), "b: 2.00".to_string()]);
}

#[test]
fn editing_a_rate_without_a_value_keeps_it() {
    let mut bag = Moneybag::new();
    bag.add_rate("a".to_string(), Rate { rate: Money::new(100) });
    bag.edit_rate(&"a".to_string(), None);
    assert_eq!(bag.find_rate(&"a".to_string()), Some(Rate { rate: Money::new(100) }));
}

#[test]
fn editing_an_invoice_keeps_empty_fields() {
    let mut bag = Moneybag::new();
    bag.add_rate("day".to_string(), Rate { rate: Money::new(80000) });
    bag.invoices.push(invoice(1000, None));
    let r = handle_edit(
        EditCommand::Invoice {
            index: 0,
            date: String::new(),
            amount: Some(Money::new(200)),
            customer: "Initech".to_string(),
            rate: "day".to_string(),
        },
        &mut bag,
    );
    assert_eq!(r, Ok(()));
    let inv = &bag.invoices[0];
    assert_eq!(inv.date, "2025-03-01");
    assert_eq!(inv.amount, Money::new(200));
    assert_eq!(inv.customer, Some("Initech".to_string()));
    assert_eq!(inv.rate, Some(Rate { rate: Money::new(80000) }));
    assert_eq!(inv.to_string(), "2025-03-01: 1600.00 (2.00 * 800.00) (Initech)");
}

#[test]
fn editing_an_invoice_with_missing_rate_edits_the_rest() {
    let mut bag = Moneybag::new();
    bag.invoices.push(invoice(1000, None));
    let r = bag.edit_invoice(0, "2025-05-05".to_string(), None, String::new(), "gone".to_string());
    assert_eq!(r, Err(RateNotFound));
    assert_eq!(bag.invoices[0].date, "2025-05-05");
    assert_eq!(bag.invoices[0].amount, Money::new(1000));
    assert_eq!(bag.invoices[0].rate, None);
    assert_eq!(bag.invoices[0].customer, None);
}

#[test]
fn editing_a_cost_replaces_given_fields() {
    let mut bag = Moneybag::new();
    bag.costs.push(cost(100, "a"));
    let r = handle_edit(
        EditCommand::Cost { index: 0, date: String::new(), amount: None, name: "rent".to_string() },
        &mut bag,
    );
    assert_eq!(r, Ok(()));
    assert_eq!(bag.costs[0].date, "2025-01-15");
    assert_eq!(bag.costs[0].amount, Money::new(100));
    assert_eq!(bag.costs[0].name, "rent");
}

#[test]
fn listing_shows_effective_values() {
    let mut bag = Moneybag::new();
    bag.invoices.push(invoice(5000, Some(765)));
    bag.invoices.push(Invoice { customer: Some("Bob".to_string()), ..invoice(-153, None) });
    assert_eq!(
        bag.list_invoices(),
        vec![
            "0: 2025-03-01: 382.50 (50.00 * 7.65)".to_string(),
            "1: 2025-03-01: -1.53 (Bob)".to_string(),
        ]
    );
}

#[test]
fn oversized_products_are_shown_exactly() {
    let inv = invoice(i64::MAX, Some(i64::MAX));
    assert_eq!(inv.effective_value(), (i64::MAX as i128) * (i64::MAX as i128) / 100);
    assert_eq!(
        inv.to_string(),
        "2025-03-01: 8507059173023461584739690778423250.12 (92233720368547758.07 * 92233720368547758.07)"
    );
}
