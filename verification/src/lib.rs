//! A layered configuration core: a self-describing `Value` representation,
//! a structural merge engine that decides field by field whether a later
//! configuration layer overrides an earlier one, and an orchestrator that
//! threads a default snapshot and an accumulated value through an ordered
//! list of source layers.

pub mod builder;
pub mod merge;
pub mod parsers;
pub mod value;
