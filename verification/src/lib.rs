//! A library of lint passes over a resolved, type-annotated program tree,
//! together with the analysis engine they share: source spans, a scope stack
//! for declarations, storage places and their moved set, a grouper for
//! duplicate declarations, and a builder for rewrite suggestions.
//!
//! Every function is verified against its contract. What is taken on trust
//! of the collections and the lexer that the library calls is stated in the
//! modules `fx`, `buckets` and `unused_unit`.

pub mod buckets;
pub mod conf;
pub mod copy_then_borrow_mut;
pub mod deferred_const_shadow;
pub mod finding;
pub mod flat_map_identity;
pub mod fx;
pub mod grouper;
pub mod inherent_impl;
pub mod manual_span_operation;
pub mod mapfunc;
pub mod missing_msrv;
pub mod place;
pub mod replace_box;
pub mod scope;
pub mod setup;
pub mod span;
pub mod suggestion;
pub mod sym;
pub mod text;
pub mod tree;
pub mod unused_unit;
pub mod usage;
