//! Merge-translation of localization JSON trees.
//!
//! The crate models a localization file as a tree of string leaves and
//! nested objects, reuses previously translated values from a reference
//! tree, and segments leaf text around `{...}` placeholders so that the
//! placeholders are never handed to a translation backend.

pub mod json_handler;
pub mod json_tree;
pub mod seg_props;
pub mod segment;
pub mod tencent_sign;
pub mod translate;
