//! Verified core of a Terraform resource-targeting tool: the selection
//! entries shown to the user, the parsing of what was chosen, resource
//! deduplication, working-directory checks, and the construction of the
//! `-target=` options and command line handed to Terraform.

pub mod error;
pub mod types;
pub mod paths;
pub mod workdir;
pub mod executor;
pub mod text;
pub mod selection;
pub mod project;
pub mod input;
