//! Tools built on top of the provider clients.

pub mod translator;
