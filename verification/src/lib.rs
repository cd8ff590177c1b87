use vstd::prelude::*;

pub mod cli_wizard;
pub mod config;
pub mod data_processing;
pub mod file;
pub mod gui;
pub mod i18n;
pub mod json;
pub mod order;
pub mod translation;
pub mod text;

verus! {

} // verus!
