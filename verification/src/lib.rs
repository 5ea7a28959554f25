//! A generator for categorized change logs.
//!
//! Lines of commit messages are annotated with a category keyword and,
//! optionally, a scope keyword. The annotated lines of a range of commits
//! are gathered, grouped by scope and category, and laid out in the order
//! in which the project's conventions declare them.

pub mod change;
pub mod changelog;
pub mod commit;
pub mod config;
pub mod git;
pub mod input;
pub mod layout;
pub mod line;
pub mod order;
pub mod output;
pub mod report;
pub mod run;
pub mod template;
pub mod text;

pub use changelog::Category;
pub use changelog::ChangeLog;
pub use changelog::Scope;
pub use commit::Commit;
pub use commit::CommitList;
pub use commit::CommitMessage;
pub use input::Configuration;
pub use input::Conventions;
pub use input::Keyword;
pub use input::OutputPreferences;
pub use input::PostProcessor;
pub use input::CONFIG_FILE;
pub use input::TEMPLATE_FILE;
