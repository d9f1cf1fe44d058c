//! Conversion of a semicolon-separated bank export, with day-first dates and
//! comma decimals, into the comma-separated `Date,Payee,Memo,Amount` layout
//! that a budgeting application imports.
pub mod csv_text;
pub mod output_name;
pub mod pipeline;
pub mod transcode;
