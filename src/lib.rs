//! A personal ledger of hourly rates, invoices and costs, kept in exact
//! money amounts, with the balance between what was billed and what was spent.

pub mod commands;
pub mod money;
pub mod moneybag;
pub mod text;

pub use commands::{
    handle_add, handle_delete, handle_edit, handle_list, AddCommand, DeleteCommand, EditCommand,
    ListCommand,
};
pub use money::{Money, ParseMoneyError};
pub use moneybag::{
    average_invoice, sum_costs, sum_invoices, Balance, Cost, Invoice, Moneybag, Rate,
    RateNotFound,
};
