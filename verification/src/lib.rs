#![verifier::loop_isolation(false)]

pub mod components;
pub mod connectivity;
pub mod map;
pub mod player;
pub mod rect;
pub mod rng;
pub mod visibility;
