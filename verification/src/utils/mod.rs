//! Helpers for building inputs and running the monitor in tests.
pub mod test_helper_func;
