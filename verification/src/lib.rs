//! Fixed monthly expenses: amounts in cents, calendar months, a ledger of
//! expenses and the payments that settle them, and the renderings the
//! command line, the terminal interface and the bar widget read.
pub mod cli;
pub mod error;
pub mod fx;
pub mod ledger;
pub mod money;
pub mod output;
pub mod period;
pub mod screen;
pub mod text;
pub mod totals;
pub mod tui;
