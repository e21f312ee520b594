//! Verified core of a command-line tool that reads contact rows from a
//! Google Sheet: OAuth scopes, column ranges and their URL form, the fetch of
//! a sheet's values as a sequence of steps, the shaping of the sheet's JSON
//! rows into header-keyed records, and the selection of the rows that carry
//! a precinct.

pub mod auth;
pub mod column_range;
pub mod contact_information;
pub mod google_sheet_client;
pub mod json;
pub mod text;
