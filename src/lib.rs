//! Person records: the record and date types, field validation, the
//! `people` relation with its store-level rules, and the rules of the
//! HTTP boundary that sits in front of it.

pub mod text;
pub mod date;
pub mod person;
pub mod search;
pub mod table;
pub mod boundary;
