//! Jobs that drive a session from a plan.

pub mod capture_session;
