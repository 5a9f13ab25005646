//! Leaves: the public commitments that a membership structure records.

pub mod mixer;
