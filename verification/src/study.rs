//! Exercises that stand beside the relay.

pub mod guess;
