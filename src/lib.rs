//! Turns a Debian package into a Nix build recipe: reads the package's
//! metadata, resolves the shared libraries that its binaries require to the
//! packages that provide them, and fills in the recipe.
//!
//! The outside work (unpacking the archive, listing what each binary needs,
//! querying the name index) is done by the caller, which hands the results to
//! the functions here as plain values.
pub mod config;
pub mod index;
pub mod input;
pub mod metadata;
pub mod names;
pub mod recipe;
pub mod reconcile;
pub mod resolver;
pub mod scan;
pub mod template;
pub mod text;
