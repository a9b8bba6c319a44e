//! A personal budgeting ledger: monthly entries, recurring statics that
//! seed every new month, and the text of the monthly summary.
pub mod command;
pub mod laws;
pub mod ledger;
pub mod present;
