//! Attribute configuration for a derive generator.
//!
//! A declaration carries annotations of the form `derivative(Capability(option = "value"))`.
//! This crate reads them into typed configuration records: one record for a type
//! declaration, one for each of its fields.

pub mod accumulate;
pub mod attr;
pub mod fold;
pub mod grammar;
pub mod meta;
pub mod text;
pub mod theorems;
pub mod value;
