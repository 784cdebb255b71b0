//! What the API answers.

pub mod status;
