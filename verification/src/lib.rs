//! Review developer caches and decide, with stated rules, what may go to the trash.
use vstd::prelude::*;

pub mod activity;
pub mod agent;
pub mod budget;
pub mod bundles;
pub mod commands;
pub mod config;
pub mod control;
pub mod evidence;
pub mod i18n;
pub mod identity;
pub mod langfile;
pub mod laws;
pub mod llm;
pub mod manifests;
pub mod model;
pub mod overlap;
pub mod path;
pub mod planning;
pub mod plugin;
pub mod recommend;
pub mod report;
pub mod roots;
pub mod rules;
pub mod safety;
pub mod sort;
pub mod text;
pub mod update;

verus! {

} // verus!
