use vstd::prelude::*;

pub mod automation;
pub mod cli;
pub mod field;
pub mod delivery;
pub mod display;
pub mod editing;
pub mod editor;
pub mod input;
pub mod laws;
pub mod order;
pub mod regions;
pub mod screen;
pub mod search;
pub mod select;
pub mod sort;
pub mod task;
pub mod template;
pub mod text;
pub mod tree;
pub mod target;
pub mod tree_select;
pub mod workflow;
pub mod workflow_selector;

verus! {
} // verus!
