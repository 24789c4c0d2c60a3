pub mod checkout;
pub mod cmake;
pub mod compiler;
pub mod condition;
pub mod context;
pub mod digraph;
pub mod engine;
pub mod error;
pub mod git;
pub mod graph;
mod handle;
pub mod hash;
pub mod identity;
pub mod inputs;
pub mod install;
pub mod link;
pub mod lua;
pub mod manifest;
pub mod nested;
pub mod node;
pub mod package;
pub mod packager;
pub mod patch;
pub mod path;
pub mod pdb;
pub mod plan;
pub mod project;
pub mod recipe;
pub mod resolution;
pub mod source;
pub mod storage;
pub mod strategy;
pub mod table;
pub mod target;
pub mod text;
pub mod util;
