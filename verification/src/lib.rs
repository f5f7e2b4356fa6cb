//! Hooks that run linting and formatting steps over the files of a repository.
pub mod component;
pub mod context;
pub mod context_laws;
pub mod display;
pub mod failure;
pub mod file_laws;
pub mod files;
pub mod hook;
pub mod hook_laws;
pub mod location;
pub mod name_set;
pub mod operation_laws;
pub mod options;
pub mod ordered_map;
pub mod path;
pub mod path_key;
pub mod path_laws;
pub mod plan;
pub mod run;
pub mod run_laws;
pub mod skip;
pub mod skip_laws;
pub mod stats;
pub mod stats_laws;
pub mod step;
pub mod summary;
pub mod summary_laws;
pub mod test_command_laws;
pub mod test_laws;
pub mod test_run;
pub mod test_runner;
pub mod text;
pub mod text_laws;
pub mod walk;
