use vstd::prelude::*;

pub mod config;
pub mod device_mapper;
pub mod table_text;
pub mod text;
pub mod types;

verus! {

} // verus!
