//! An embeddable command-tree engine for interactive, readline-style CLIs.
//!
//! Applications register a hierarchy of named commands, each optionally
//! carrying an executable action. The engine resolves a user-typed token
//! sequence to the deepest matching command, invokes its action, and
//! produces contextual tab-completion suggestions as the user types.

pub mod app;
pub mod command;
pub mod completer;
pub mod dispatch;
pub mod error;
pub mod text;

pub use app::Action;
pub use app::App;
pub use app::EditMode;
pub use app::LevelFilter;
pub use app::ShellState;
pub use app::cli_help;
pub use app::cli_log;
pub use app::cli_mode;
pub use app::confirm_quit;
pub use completer::PrefixCompleter;
pub use completer::PrefixNode;

pub use command::BuiltinCmd;
pub use command::Command;
pub use command::NodeAction;
pub use error::CmdExeCode;
pub use error::XcliError;
pub use error::XcliResult;
