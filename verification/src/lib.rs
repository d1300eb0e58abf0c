//! A memory-layout analysis engine for user-declared composite types:
//! records, sum types, raw unions and aliases. Definitions are registered
//! into a catalog seeded with builtin primitives; the resolver walks the
//! direct-containment graph with cycle detection and computes each type's
//! size, alignment, field offsets and explicit padding gaps under a
//! deterministic, declared-order policy; the report module renders a
//! resolved layout with its padding totals and utilization.

pub mod calc;
pub mod catalog;
pub mod laws;
pub mod model;
pub mod path;
pub mod report;
pub mod resolve;
