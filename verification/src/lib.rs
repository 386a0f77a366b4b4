use vstd::prelude::*;

pub mod bytes;
pub mod firehose;
pub mod gpt;
pub mod info;
pub mod loader;
pub mod orchestrator;
pub mod package;
pub mod sahara;
pub mod strings;
pub mod superimg;
pub mod tags;
pub mod xml;

verus! {

} // verus!
