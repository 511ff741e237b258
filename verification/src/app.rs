//! The application object: name, version and author metadata, the command
//! tree's root, the user-data registry, and the explicit shell state that
//! the built-in `log` and `mode` commands read and set.
//!
//! The interactive read–resolve–execute loop itself is an external
//! collaborator: it hands tokenized lines to the dispatcher and applies the
//! shell state to the line editor and the logger between iterations.

use vstd::prelude::*;

use crate::command::BuiltinCmd;
use crate::command::CmdView;
use crate::command::Command;
use crate::error::XcliError;
use crate::error::XcliResult;
use crate::text::lower_spec;

verus! {

/// A log verbosity level filter, modelled as explicit shell state rather
/// than a process-wide global.
#[derive(Clone, Copy, Debug, PartialEq, Eq, Structural)]
pub enum LevelFilter {
    Off,
    Error,
    Warn,
    Info,
    Debug,
    Trace,
}

/// The line editor mode, owned here and applied by the driving loop.
#[derive(Clone, Copy, Debug, PartialEq, Eq, Structural)]
pub enum EditMode {
    Vi,
    Emacs,
}

/// The mutable state the built-in commands act on, owned by the driving
/// loop and passed by reference into each dispatch.
pub struct ShellState {
    pub log_level: LevelFilter,
    pub edit_mode: EditMode,
}

impl ShellState {
    /// A shell state with the given verbosity and edit mode.
    pub fn new(log_level: LevelFilter, edit_mode: EditMode) -> (s: ShellState)
        ensures
            s.log_level == log_level,
            s.edit_mode == edit_mode,
    {
        ShellState { log_level, edit_mode }
    }
}

impl LevelFilter {
    /// The display name of this level.
    pub open spec fn name_spec(&self) -> Seq<char> {
        match self {
            LevelFilter::Off => "OFF"@,
            LevelFilter::Error => "ERROR"@,
            LevelFilter::Warn => "WARN"@,
            LevelFilter::Info => "INFO"@,
            LevelFilter::Debug => "DEBUG"@,
            LevelFilter::Trace => "TRACE"@,
        }
    }

    /// The display name of this level.
    pub fn name(&self) -> (r: &'static str)
        ensures
            r@ == self.name_spec(),
    {
        match self {
            LevelFilter::Off => "OFF",
            LevelFilter::Error => "ERROR",
            LevelFilter::Warn => "WARN",
            LevelFilter::Info => "INFO",
            LevelFilter::Debug => "DEBUG",
            LevelFilter::Trace => "TRACE",
        }
    }

    /// The level a token names, compared without regard to ASCII case.
    pub open spec fn parse_spec(s: Seq<char>) -> Option<LevelFilter> {
        let low = lower_spec(s);
        if low == "off"@ {
            Some(LevelFilter::Off)
        } else if low == "error"@ {
            Some(LevelFilter::Error)
        } else if low == "warn"@ {
            Some(LevelFilter::Warn)
        } else if low == "info"@ {
            Some(LevelFilter::Info)
        } else if low == "debug"@ {
            Some(LevelFilter::Debug)
        } else if low == "trace"@ {
            Some(LevelFilter::Trace)
        } else {
            None
        }
    }

    /// Parse a verbosity level, without regard to ASCII case.
    pub fn parse(s: &str) -> (r: Option<LevelFilter>)
        ensures
            r == LevelFilter::parse_spec(s@),
    {
        let low = crate::text::ascii_lower(s);
        if crate::text::str_eq(low.as_str(), "off") {
            Some(LevelFilter::Off)
        } else if crate::text::str_eq(low.as_str(), "error") {
            Some(LevelFilter::Error)
        } else if crate::text::str_eq(low.as_str(), "warn") {
            Some(LevelFilter::Warn)
        } else if crate::text::str_eq(low.as_str(), "info") {
            Some(LevelFilter::Info)
        } else if crate::text::str_eq(low.as_str(), "debug") {
            Some(LevelFilter::Debug)
        } else if crate::text::str_eq(low.as_str(), "trace") {
            Some(LevelFilter::Trace)
        } else {
            None
        }
    }
}

impl EditMode {
    /// The display name of this mode.
    pub open spec fn name_spec(&self) -> Seq<char> {
        match self {
            EditMode::Vi => "Vi"@,
            EditMode::Emacs => "Emacs"@,
        }
    }

    /// The display name of this mode.
    pub fn name(&self) -> (r: &'static str)
        ensures
            r@ == self.name_spec(),
    {
        match self {
            EditMode::Vi => "Vi",
            EditMode::Emacs => "Emacs",
        }
    }
}

/// The action contract: the unit of work a command node may run. The
/// engine calls `run` with the owning application, the shell state, the
/// leftover argument tokens, and the output buffer that stands for the
/// terminal; implementations are the application's own and are not
/// verified here.
pub trait Action: Sized {
    /// The type of the values the user-data registry holds.
    type Data;

    /// Run the action on the remaining tokens.
    fn run(
        &self,
        app: &App<Self>,
        state: &mut ShellState,
        args: &[&str],
        out: &mut Vec<String>,
    ) -> XcliResult;
}

/// The application: metadata, the command tree and the user-data registry.
pub struct App<A: Action> {
    pub name: String,
    pub version: Option<String>,
    pub author: Option<String>,
    pub tree: Command<A>,
    pub handlers: Vec<(String, A::Data)>,
}

/// The value the registry holds under a key: the earliest entry wins, and
/// registration inserts at the front, so the newest registration is found.
pub open spec fn handler_spec<D>(hs: Seq<(String, D)>, key: Seq<char>) -> Option<D>
    decreases hs.len(),
{
    if hs.len() == 0 {
        None
    } else if hs[0].0@ == key {
        Some(hs[0].1)
    } else {
        handler_spec(hs.skip(1), key)
    }
}

/// `handler_spec` finds the earliest entry whose key matches.
proof fn lemma_handler_spec<D>(hs: Seq<(String, D)>, key: Seq<char>)
    ensures
        match handler_spec(hs, key) {
            Some(d) => exists|i: int|
                0 <= i < hs.len() && hs[i].0@ == key && hs[i].1 == d && (forall|k: int|
                    0 <= k < i ==> hs[k].0@ != key),
            None => forall|k: int| 0 <= k < hs.len() ==> hs[k].0@ != key,
        },
    decreases hs.len(),
{
    if hs.len() > 0 && hs[0].0@ != key {
        lemma_handler_spec(hs.skip(1), key);
        match handler_spec(hs.skip(1), key) {
            Some(d) => {
                let i = choose|i: int|
                    0 <= i < hs.skip(1).len() && hs.skip(1)[i].0@ == key && hs.skip(1)[i].1 == d
                        && (forall|k: int| 0 <= k < i ==> hs.skip(1)[k].0@ != key);
                assert(hs.skip(1)[i] == hs[i + 1]);
                assert forall|k: int| 0 <= k < i + 1 implies hs[k].0@ != key by {
                    if k > 0 {
                        assert(hs.skip(1)[k - 1] == hs[k]);
                    }
                }
                assert(0 <= i + 1 < hs.len() && hs[i + 1].0@ == key && hs[i + 1].1 == d);
            },
            None => {
                assert forall|k: int| 0 <= k < hs.len() implies hs[k].0@ != key by {
                    if k > 0 {
                        assert(hs.skip(1)[k - 1] == hs[k]);
                    }
                }
            },
        }
    }
}

/// One built-in node of the initial tree.
pub open spec fn bnode<A>(
    name: Seq<char>,
    alias: Option<Seq<char>>,
    about: Seq<char>,
    usage: Option<Seq<char>>,
    b: BuiltinCmd,
) -> CmdView<A> {
    CmdView {
        name: name,
        alias: alias,
        about: Some(about),
        usage: usage,
        action: Some(crate::command::NodeAction::Builtin(b)),
        children: Seq::empty(),
    }
}

/// The initial command tree: an unnamed root carrying the always-present
/// commands, in registration order.
pub open spec fn builtin_root<A>() -> CmdView<A> {
    CmdView {
        name: ""@,
        alias: None,
        about: Some("Interactive CLI"@),
        usage: None,
        action: None,
        children: seq![
            bnode(
                "tree"@,
                None,
                "prints the whole command tree"@,
                Some("tree"@),
                BuiltinCmd::Tree,
            ),
            bnode(
                "mode"@,
                None,
                "manages the line editor mode, vi/emcas"@,
                Some("mode [vi|emacs]"@),
                BuiltinCmd::Mode,
            ),
            bnode(
                "log"@,
                Some("l"@),
                "manages log level filter"@,
                Some("log [off|error|warn|info|debug|trace]"@),
                BuiltinCmd::Log,
            ),
            bnode(
                "help"@,
                Some("h"@),
                "displays help information"@,
                Some("help [command]"@),
                BuiltinCmd::Help,
            ),
            bnode("exit"@, None, "quits CLI and exits to shell"@, None, BuiltinCmd::Exit),
            bnode(
                "version"@,
                Some("v"@),
                "shows version information"@,
                None,
                BuiltinCmd::Version,
            ),
        ],
    }
}

impl<A: Action> App<A> {
    /// Create a new application, its tree already carrying the built-in
    /// commands.
    pub fn new(n: &str) -> (app: App<A>)
        ensures
            app.name@ == n@,
            app.version is None,
            app.author is None,
            app.handlers@ == Seq::<(String, A::Data)>::empty(),
            app.tree@ == builtin_root::<A>(),
    {
        let t_tree = Command::new("tree").about("prints the whole command tree").usage("tree")
            .action_builtin(BuiltinCmd::Tree);
        proof {
            assert(t_tree@ =~= bnode::<A>(
                "tree"@,
                None,
                "prints the whole command tree"@,
                Some("tree"@),
                BuiltinCmd::Tree,
            ));
        }
        let t_mode = Command::new("mode").about("manages the line editor mode, vi/emcas").usage(
            "mode [vi|emacs]",
        ).action_builtin(BuiltinCmd::Mode);
        proof {
            assert(t_mode@ =~= bnode::<A>(
                "mode"@,
                None,
                "manages the line editor mode, vi/emcas"@,
                Some("mode [vi|emacs]"@),
                BuiltinCmd::Mode,
            ));
        }
        let t_log = Command::new_with_alias("log", "l").about("manages log level filter").usage(
            "log [off|error|warn|info|debug|trace]",
        ).action_builtin(BuiltinCmd::Log);
        proof {
            assert(t_log@ =~= bnode::<A>(
                "log"@,
                Some("l"@),
                "manages log level filter"@,
                Some("log [off|error|warn|info|debug|trace]"@),
                BuiltinCmd::Log,
            ));
        }
        let t_help = Command::new_with_alias("help", "h").about("displays help information").usage(
            "help [command]",
        ).action_builtin(BuiltinCmd::Help);
        proof {
            assert(t_help@ =~= bnode::<A>(
                "help"@,
                Some("h"@),
                "displays help information"@,
                Some("help [command]"@),
                BuiltinCmd::Help,
            ));
        }
        let t_exit = Command::new("exit").about("quits CLI and exits to shell").action_builtin(
            BuiltinCmd::Exit,
        );
        proof {
            assert(t_exit@ =~= bnode::<A>(
                "exit"@,
                None,
                "quits CLI and exits to shell"@,
                None,
                BuiltinCmd::Exit,
            ));
        }
        let t_version = Command::new_with_alias("version", "v").about("shows version information")
            .action_builtin(BuiltinCmd::Version);
        proof {
            assert(t_version@ =~= bnode::<A>(
                "version"@,
                Some("v"@),
                "shows version information"@,
                None,
                BuiltinCmd::Version,
            ));
        }
        let builtin_cmds = Command::new("").about("Interactive CLI").subcommand(t_tree).subcommand(
            t_mode,
        ).subcommand(t_log).subcommand(t_help).subcommand(t_exit).subcommand(t_version);
        proof {
            let rootv = builtin_cmds@;
            assert(rootv.children.len() == 6);
            assert(rootv.children[0] == t_tree@);
            assert(rootv.children[1] == t_mode@);
            assert(rootv.children[2] == t_log@);
            assert(rootv.children[3] == t_help@);
            assert(rootv.children[4] == t_exit@);
            assert(rootv.children[5] == t_version@);
            assert(rootv.name == ""@);
            assert(rootv.alias is None);
            assert(rootv.about == Some("Interactive CLI"@));
            assert(rootv.usage is None);
            assert(rootv.action is None);
            assert(rootv.children =~= builtin_root::<A>().children);
            assert(builtin_cmds@ =~~= builtin_root::<A>());
        }
        let app = App {
            name: n.to_owned(),
            version: None,
            author: None,
            tree: builtin_cmds,
            handlers: Vec::new(),
        };
        proof {
            assert(app.handlers@ =~= Seq::<(String, A::Data)>::empty());
        }
        app
    }

    /// Write the whole command tree, one line per node, as the built-in
    /// `tree` command shows it. The shadow tree is built from the current
    /// command tree at each call, so it is a live rendering.
    pub fn show_tree(&self, out: &mut Vec<String>)
        ensures
            final(out).deep_view() == old(out).deep_view() + crate::completer::tree_lines(
                crate::completer::prefix_view(self.tree@),
                ""@,
                0,
            ),
    {
        let pc = crate::completer::PrefixCompleter::new(&self.tree);
        pc.print_tree("", out);
    }

    /// Get the name of this instance.
    pub fn get_name(&self) -> (r: &str)
        ensures
            r@ == self.name@,
    {
        self.name.as_str()
    }

    /// Get the author of this instance, or empty text when none was set.
    pub fn get_author(&self) -> (r: &str)
        ensures
            r@ == self.author_text(),
    {
        match &self.author {
            Some(a) => a.as_str(),
            None => "",
        }
    }

    /// Get the version of this instance, or empty text when none was set.
    pub fn get_version(&self) -> (r: &str)
        ensures
            r@ == self.version_text(),
    {
        match &self.version {
            Some(v) => v.as_str(),
            None => "",
        }
    }

    /// The author text: the author, or empty when none was set.
    pub open spec fn author_text(&self) -> Seq<char> {
        match self.author {
            Some(a) => a@,
            None => ""@,
        }
    }

    /// The version text: the version, or empty when none was set.
    pub open spec fn version_text(&self) -> Seq<char> {
        match self.version {
            Some(v) => v@,
            None => ""@,
        }
    }

    /// Set the author of this instance.
    pub fn author(self, author: &str) -> (r: App<A>)
        ensures
            r.author.deep_view() == Some(author@),
            r.name == self.name,
            r.version == self.version,
            r.tree == self.tree,
            r.handlers == self.handlers,
    {
        App { author: Some(author.to_owned()), ..self }
    }

    /// Set the version of this instance.
    pub fn version(self, ver: &str) -> (r: App<A>)
        ensures
            r.version.deep_view() == Some(ver@),
            r.name == self.name,
            r.author == self.author,
            r.tree == self.tree,
            r.handlers == self.handlers,
    {
        App { version: Some(ver.to_owned()), ..self }
    }

    /// Add a top-level command to the tree.
    pub fn add_subcommand(&mut self, subcmd: Command<A>)
        ensures
            final(self).tree@ == (CmdView {
                children: old(self).tree@.children.push(subcmd@),
                ..old(self).tree@
            }),
            final(self).name == old(self).name,
            final(self).version == old(self).version,
            final(self).author == old(self).author,
            final(self).handlers == old(self).handlers,
    {
        broadcast use {crate::command::lemma_cmds_view_len, crate::command::lemma_cmd_view_children};

        let ghost old_vec = self.tree.subcommands@;
        let ghost old_tree = self.tree@;
        let ghost sub_view = subcmd@;
        self.tree.subcommands.push(subcmd);
        proof {
            crate::command::lemma_cmds_view_push(old_vec, self.tree.subcommands@.last());
            assert(self.tree@ =~= CmdView {
                children: old_tree.children.push(sub_view),
                ..old_tree
            });
        }
    }

    /// Add a top-level command together with a user-data value registered
    /// under the command's name.
    pub fn add_subcommand_with_userdata(&mut self, subcmd: Command<A>, value: A::Data)
        ensures
            final(self).tree@ == (CmdView {
                children: old(self).tree@.children.push(subcmd@),
                ..old(self).tree@
            }),
            final(self).handlers@ == old(self).handlers@.insert(0, (subcmd.name, value)),
            final(self).name == old(self).name,
            final(self).version == old(self).version,
            final(self).author == old(self).author,
    {
        let key = subcmd.name.clone();
        self.handlers.insert(0, (key, value));
        self.add_subcommand(subcmd);
    }

    /// Get the user-data value registered under a command name; a missing
    /// entry is the distinct `MissingHandler` error, not a default.
    pub fn get_handler(&self, key: &str) -> (r: Result<&A::Data, XcliError>)
        ensures
            match r {
                Ok(d) => handler_spec(self.handlers@, key@) == Some(*d),
                Err(e) => {
                    &&& handler_spec(self.handlers@, key@) is None
                    &&& e matches XcliError::MissingHandler(k) && k@ == key@
                },
            },
    {
        let n = self.handlers.len();
        let mut i: usize = 0;
        while i < n
            invariant
                i <= n,
                n == self.handlers@.len(),
                forall|k: int| 0 <= k < i ==> self.handlers@[k].0@ != key@,
            decreases n - i,
        {
            if crate::text::str_eq(key, self.handlers[i].0.as_str()) {
                proof {
                    lemma_handler_spec(self.handlers@, key@);
                    let hs = self.handlers@;
                    if handler_spec(hs, key@) is None {
                        assert(hs[i as int].0@ != key@);
                        assert(false);
                    } else {
                        let j = choose|j: int|
                            0 <= j < hs.len() && hs[j].0@ == key@ && hs[j].1 == handler_spec(
                                hs,
                                key@,
                            )->0 && (forall|k: int| 0 <= k < j ==> hs[k].0@ != key@);
                        if j < i as int {
                            assert(hs[j].0@ != key@);
                            assert(false);
                        } else if j > i as int {
                            assert(hs[i as int].0@ != key@);
                            assert(false);
                        }
                    }
                    assert(handler_spec(self.handlers@, key@) == Some(self.handlers@[i as int].1));
                }
                return Ok(&self.handlers[i].1);
            }
            i += 1;
        }
        proof {
            lemma_handler_spec(self.handlers@, key@);
        }
        Err(XcliError::MissingHandler(key.to_owned()))
    }
}

/// What the built-in `log` command guarantees, relating the states and
/// the output before and after.
pub open spec fn cli_log_post(
    st0: ShellState,
    st1: ShellState,
    toks: Seq<Seq<char>>,
    r: XcliResult,
    out0: Seq<Seq<char>>,
    out1: Seq<Seq<char>>,
) -> bool {
    &&& st1.edit_mode == st0.edit_mode
    &&& ({
        if toks.len() == 0 {
                &&& r == Ok::<crate::error::CmdExeCode, XcliError>(
                    crate::error::CmdExeCode::Success,
                )
                &&& st1.log_level == st0.log_level
                &&& out1 == out0.push("Global log level is: "@ + st0.log_level.name_spec())
            } else if toks.len() == 1 {
                match LevelFilter::parse_spec(toks[0]) {
                    Some(level) => {
                        &&& r == Ok::<crate::error::CmdExeCode, XcliError>(
                            crate::error::CmdExeCode::Success,
                        )
                        &&& st1.log_level == level
                        &&& out1 == out0
                    },
                    None => {
                        &&& r matches Err(XcliError::BadArgument(d)) && d@ == toks[0]
                            + ", unknown log level"@
                        &&& st1.log_level == st0.log_level
                        &&& out1 == out0
                    },
                }
            } else {
                &&& r == Err::<crate::error::CmdExeCode, XcliError>(XcliError::BadSyntax)
                &&& st1.log_level == st0.log_level
                &&& out1 == out0
            }
    })
}

/// Action of the built-in `log` command: with no token, show the current
/// verbosity; with one token, set it, or reject an unknown level; more
/// tokens are bad syntax.
pub fn cli_log(state: &mut ShellState, args: &[&str], out: &mut Vec<String>) -> (r: XcliResult)
    ensures
        cli_log_post(
            *old(state),
            *final(state),
            args.deep_view(),
            r,
            old(out).deep_view(),
            final(out).deep_view(),
        ),
{
    if args.len() == 0 {
        let mut line = String::from_str("Global log level is: ");
        line.append(state.log_level.name());
        out.push(line);
        proof {
            assert(out.deep_view() =~= old(out).deep_view().push(
                "Global log level is: "@ + old(state).log_level.name_spec(),
            ));
        }
        Ok(crate::error::CmdExeCode::Success)
    } else if args.len() == 1 {
        match LevelFilter::parse(args[0]) {
            Some(level) => {
                state.log_level = level;
                Ok(crate::error::CmdExeCode::Success)
            },
            None => {
                let mut detail = args[0].to_owned();
                detail.append(", unknown log level");
                Err(XcliError::BadArgument(detail))
            },
        }
    } else {
        Err(XcliError::BadSyntax)
    }
}

/// What the built-in `mode` command guarantees, relating the states and
/// the output before and after.
pub open spec fn cli_mode_post(
    st0: ShellState,
    st1: ShellState,
    toks: Seq<Seq<char>>,
    r: XcliResult,
    out0: Seq<Seq<char>>,
    out1: Seq<Seq<char>>,
) -> bool {
    &&& st1.log_level == st0.log_level
    &&& ({
        if toks.len() == 0 {
                &&& r == Ok::<crate::error::CmdExeCode, XcliError>(
                    crate::error::CmdExeCode::Success,
                )
                &&& st1.edit_mode == st0.edit_mode
                &&& out1 == out0.push("Current edit mode is: "@ + st0.edit_mode.name_spec())
            } else if toks.len() == 1 {
                let low = lower_spec(toks[0]);
                if low == "vi"@ {
                    &&& r == Ok::<crate::error::CmdExeCode, XcliError>(
                        crate::error::CmdExeCode::Success,
                    )
                    &&& st1.edit_mode == EditMode::Vi
                    &&& out1 == out0
                } else if low == "emacs"@ {
                    &&& r == Ok::<crate::error::CmdExeCode, XcliError>(
                        crate::error::CmdExeCode::Success,
                    )
                    &&& st1.edit_mode == EditMode::Emacs
                    &&& out1 == out0
                } else {
                    &&& r matches Err(XcliError::BadArgument(d)) && d@ == low
                    &&& st1.edit_mode == st0.edit_mode
                    &&& out1 == out0
                }
            } else {
                &&& r == Err::<crate::error::CmdExeCode, XcliError>(XcliError::BadSyntax)
                &&& st1.edit_mode == st0.edit_mode
                &&& out1 == out0
            }
    })
}

/// Action of the built-in `mode` command: with no token, show the current
/// edit mode; with one token, set it after ASCII case folding, or reject
/// an unknown mode; more tokens are bad syntax.
pub fn cli_mode(state: &mut ShellState, args: &[&str], out: &mut Vec<String>) -> (r: XcliResult)
    ensures
        cli_mode_post(
            *old(state),
            *final(state),
            args.deep_view(),
            r,
            old(out).deep_view(),
            final(out).deep_view(),
        ),
{
    if args.len() == 0 {
        let mut line = String::from_str("Current edit mode is: ");
        line.append(state.edit_mode.name());
        out.push(line);
        proof {
            assert(out.deep_view() =~= old(out).deep_view().push(
                "Current edit mode is: "@ + old(state).edit_mode.name_spec(),
            ));
        }
        Ok(crate::error::CmdExeCode::Success)
    } else if args.len() == 1 {
        let low = crate::text::ascii_lower(args[0]);
        if crate::text::str_eq(low.as_str(), "vi") {
            state.edit_mode = EditMode::Vi;
            Ok(crate::error::CmdExeCode::Success)
        } else if crate::text::str_eq(low.as_str(), "emacs") {
            state.edit_mode = EditMode::Emacs;
            Ok(crate::error::CmdExeCode::Success)
        } else {
            Err(XcliError::BadArgument(low))
        }
    } else {
        Err(XcliError::BadSyntax)
    }
}

/// What the built-in `help` command guarantees: the listing it writes,
/// by the tokens it was handed.
pub open spec fn cli_help_post<A>(
    tree: CmdView<A>,
    toks: Seq<Seq<char>>,
    r: XcliResult,
    out0: Seq<Seq<char>>,
    out1: Seq<Seq<char>>,
) -> bool {
    &&& r == Ok::<crate::error::CmdExeCode, XcliError>(crate::error::CmdExeCode::Success)
    &&& if toks.len() == 0 {
        out1 == out0 + crate::command::sub_help_lines(tree)
    } else {
        match crate::command::locate_spec(tree, toks) {
            Some(c) => out1 == out0.push(crate::command::help_text_spec(c)),
            None => out1 == out0.push(
                "Unrecognized command "@ + crate::dispatch::args_debug(toks),
            ),
        }
    }
}

/// Action of the built-in `help` command: with no token, list the root's
/// children; else describe the subtree the tokens name, or echo the
/// tokens back when they name none.
pub fn cli_help<A: Action>(app: &App<A>, args: &[&str], out: &mut Vec<String>) -> (r: XcliResult)
    ensures
        cli_help_post(
            app.tree@,
            args.deep_view(),
            r,
            old(out).deep_view(),
            final(out).deep_view(),
        ),
{
    if args.len() == 0 {
        app.tree.show_subcommand_help(out);
    } else {
        match app.tree.locate_subcommand(args) {
            Some(cmd) => {
                cmd.show_command_help(out);
            },
            None => {
                let mut line = String::from_str("Unrecognized command ");
                let listing = crate::dispatch::fmt_args(args, 0);
                line.append(listing.as_str());
                out.push(line);
                proof {
                    assert(args.deep_view().skip(0) =~= args.deep_view());
                    assert(out.deep_view() =~= old(out).deep_view().push(
                        "Unrecognized command "@ + crate::dispatch::args_debug(args.deep_view()),
                    ));
                }
            },
        }
    }
    Ok(crate::error::CmdExeCode::Success)
}

/// The quit confirmation of the driving loop: only an explicit yes quits;
/// the empty default answer keeps the loop running.
pub fn confirm_quit(answer: &str) -> (r: bool)
    ensures
        r == (answer@ == "Y"@ || answer@ == "y"@),
{
    if crate::text::str_eq(answer, "Y") {
        true
    } else {
        crate::text::str_eq(answer, "y")
    }
}

} // verus!
