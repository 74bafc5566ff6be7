//! Cleaner for Terraform/Terragrunt working directories.
//!
//! The library classifies directory entries by basename, extension and
//! first-line content, and removes every entry that matches a deletion
//! rule from a tree, skipping ignored subtrees wholesale.

pub mod rules;
pub mod tree;
