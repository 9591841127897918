use crate::money::Money;
use crate::moneybag::{
    add_cost_done, add_invoice_done, add_rate_done, delete_cost_done, delete_invoice_done,
    delete_rate_done, edit_cost_done, edit_invoice_done, edit_rate_done, cost_line,
    invoice_listing, rate_line, Moneybag, Rate, RateNotFound,
};
use vstd::prelude::*;

verus! {

/// A record to add.
#[derive(Debug)]
pub enum AddCommand {
    /// An hourly rate, under a name.
    Rate { rate: Money, name: String },
    /// An invoice; with a rate name, `amount` counts hours at that rate.
    Invoice { date: String, amount: Money, rate: Option<String>, customer: Option<String> },
    /// A cost; dated "monthly", one for each month.
    Cost { date: String, amount: Money, name: String },
}

/// Which records to list.
#[derive(Clone, Copy, Debug, PartialEq, Eq, Structural)]
pub enum ListCommand {
    Rates,
    Invoices,
    Costs,
}

/// A record to edit, with the replacements given for its fields. An empty
/// text, or an absent amount, keeps a field as it is.
#[derive(Debug)]
pub enum EditCommand {
    /// A rate, by name.
    Rate { name: String, rate: Option<Money> },
    /// An invoice, by its position in the list; `rate` names a rate.
    Invoice {
        index: usize,
        date: String,
        amount: Option<Money>,
        customer: String,
        rate: String,
    },
    /// A cost, by its position in the list.
    Cost { index: usize, date: String, amount: Option<Money>, name: String },
}

/// A record to delete.
#[derive(Debug)]
pub enum DeleteCommand {
    /// A rate, by name.
    Rate { name: String },
    /// An invoice, by its position in the list.
    Invoice { index: usize },
    /// A cost, by its position in the list.
    Cost { index: usize },
}

/// Adds a record. Only an invoice that names a missing rate fails, with
/// nothing added.
pub fn handle_add(command: AddCommand, moneybag: &mut Moneybag) -> (r: Result<(), RateNotFound>)
    requires
        old(moneybag).wf(),
    ensures
        final(moneybag).wf(),
        match command {
            AddCommand::Rate { rate, name } => r is Ok && add_rate_done(
                *old(moneybag),
                *final(moneybag),
                name,
                Rate { rate },
            ),
            AddCommand::Invoice { date, amount, rate, customer } => add_invoice_done(
                *old(moneybag),
                *final(moneybag),
                date,
                amount,
                rate,
                customer,
                r,
            ),
            AddCommand::Cost { date, amount, name } => r is Ok && add_cost_done(
                *old(moneybag),
                *final(moneybag),
                date,
                amount,
                name,
            ),
        },
{
    match command {
        AddCommand::Rate { rate, name } => {
            moneybag.add_rate(name, Rate { rate });
            Ok(())
        },
        AddCommand::Invoice { date, amount, rate, customer } => {
            moneybag.add_invoice(date, amount, rate, customer)
        },
        AddCommand::Cost { date, amount, name } => {
            moneybag.add_cost(date, amount, name);
            Ok(())
        },
    }
}

/// Deletes a record. A position must be one of the list's.
pub fn handle_delete(command: DeleteCommand, moneybag: &mut Moneybag)
    requires
        old(moneybag).wf(),
        match command {
            DeleteCommand::Rate { .. } => true,
            DeleteCommand::Invoice { index } => index < old(moneybag).invoices@.len(),
            DeleteCommand::Cost { index } => index < old(moneybag).costs@.len(),
        },
    ensures
        final(moneybag).wf(),
        match command {
            DeleteCommand::Rate { name } => delete_rate_done(
                *old(moneybag),
                *final(moneybag),
                name@,
            ),
            DeleteCommand::Invoice { index } => delete_invoice_done(
                *old(moneybag),
                *final(moneybag),
                index,
            ),
            DeleteCommand::Cost { index } => delete_cost_done(
                *old(moneybag),
                *final(moneybag),
                index,
            ),
        },
{
    match command {
        DeleteCommand::Rate { name } => moneybag.delete_rate(&name),
        DeleteCommand::Invoice { index } => moneybag.delete_invoice(index),
        DeleteCommand::Cost { index } => moneybag.delete_cost(index),
    }
}

/// Edits a record. The record must exist; only an invoice given a missing
/// rate name fails, with its other fields edited all the same.
pub fn handle_edit(command: EditCommand, moneybag: &mut Moneybag) -> (r: Result<(), RateNotFound>)
    requires
        old(moneybag).wf(),
        match command {
            EditCommand::Rate { name, .. } => old(moneybag).rate_named(name@) is Some,
            EditCommand::Invoice { index, .. } => index < old(moneybag).invoices@.len(),
            EditCommand::Cost { index, .. } => index < old(moneybag).costs@.len(),
        },
    ensures
        final(moneybag).wf(),
        match command {
            EditCommand::Rate { name, rate } => r is Ok && edit_rate_done(
                *old(moneybag),
                *final(moneybag),
                name@,
                rate,
            ),
            EditCommand::Invoice { index, date, amount, customer, rate } => edit_invoice_done(
                *old(moneybag),
                *final(moneybag),
                index,
                date,
                amount,
                customer,
                rate,
                r,
            ),
            EditCommand::Cost { index, date, amount, name } => r is Ok && edit_cost_done(
                *old(moneybag),
                *final(moneybag),
                index,
                date,
                amount,
                name,
            ),
        },
{
    match command {
        EditCommand::Rate { name, rate } => {
            moneybag.edit_rate(&name, rate);
            Ok(())
        },
        EditCommand::Invoice { index, date, amount, customer, rate } => {
            moneybag.edit_invoice(index, date, amount, customer, rate)
        },
        EditCommand::Cost { index, date, amount, name } => {
            moneybag.edit_cost(index, date, amount, name);
            Ok(())
        },
    }
}

/// The lines that list the records asked for.
pub fn handle_list(command: ListCommand, moneybag: &Moneybag) -> (r: Vec<String>)
    ensures
        command == ListCommand::Rates ==> r@.len() == moneybag.rate_entries().len(),
        command == ListCommand::Rates ==> forall|k: int|
            0 <= k < r@.len() ==> (#[trigger] r@[k])@ == rate_line(moneybag.rate_entries()[k]),
        command == ListCommand::Invoices ==> r@.len() == moneybag.invoices@.len(),
        command == ListCommand::Invoices ==> forall|k: int|
            0 <= k < r@.len() ==> (#[trigger] r@[k])@ == invoice_listing(moneybag.invoices@)[k],
        command == ListCommand::Costs ==> r@.len() == moneybag.costs@.len(),
        command == ListCommand::Costs ==> forall|k: int|
            0 <= k < r@.len() ==> (#[trigger] r@[k])@ == cost_line(k as nat, moneybag.costs@[k]),
{
    match command {
        ListCommand::Rates => moneybag.list_rates(),
        ListCommand::Invoices => moneybag.list_invoices(),
        ListCommand::Costs => moneybag.list_costs(),
    }
}

} // verus!
