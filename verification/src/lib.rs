//! Read-only vehicle diagnostics: closed diagnostic vocabulary, ELM response
//! normalization and deterministic decoding of standardized OBD-II evidence.

pub mod adapter;
pub mod audit;
pub mod ble;
pub mod cache_validation;
pub mod capability;
pub mod capture;
pub mod capture_events;
pub mod capture_replay;
pub mod capture_report;
pub mod compound_fact;
pub mod diagnostic_job;
pub mod dtc;
pub mod ea189;
pub mod ecu_identification_discovery;
pub mod elm;
pub mod functional_discovery;
pub mod elm_mode03;
pub mod elm_read;
pub mod elm_mode09;
pub mod elm_text;
pub mod elm_uds;
pub mod identity;
pub mod jobs;
pub mod json;
pub mod jsonl_capture;
pub mod order;
pub mod signals;
pub mod text;
pub mod topology;

use vstd::prelude::*;

verus! {

} // verus!
