//! Dispatch: walk the command tree along matching tokens, run the action
//! of the deepest matched node, and format what the user sees — error
//! reports with usage reminders, help listings, and the "unknown command"
//! path for leftover tokens under a category node.

use vstd::prelude::*;

use crate::app::Action;
use crate::app::App;
use crate::app::ShellState;
use crate::command::BuiltinCmd;
use crate::command::CmdView;
use crate::command::Command;
use crate::command::NodeAction;
use crate::error::CmdExeCode;
use crate::error::XcliError;
use crate::error::XcliResult;

verus! {

/// One token between quotes.
pub open spec fn quoted(t: Seq<char>) -> Seq<char> {
    "\""@ + t + "\""@
}

/// The remaining tokens of a listing, each preceded by a separator.
pub open spec fn debug_rest(ts: Seq<Seq<char>>) -> Seq<char>
    decreases ts.len(),
{
    if ts.len() == 0 {
        Seq::empty()
    } else {
        ", "@ + quoted(ts[0]) + debug_rest(ts.skip(1))
    }
}

/// A token listing between brackets, each token quoted, the way the
/// leftover tokens are echoed back at the user.
pub open spec fn args_debug(toks: Seq<Seq<char>>) -> Seq<char> {
    if toks.len() == 0 {
        "[]"@
    } else {
        "["@ + quoted(toks[0]) + debug_rest(toks.skip(1)) + "]"@
    }
}

/// Render the tokens from index `from` on as a quoted, bracketed listing.
pub fn fmt_args(args: &[&str], from: usize) -> (s: String)
    requires
        from <= args.len(),
    ensures
        s@ == args_debug(args.deep_view().skip(from as int)),
{
    let ghost toks = args.deep_view().skip(from as int);
    let n = args.len();
    if from == n {
        let s = String::from_str("[]");
        proof {
            assert(toks.len() == 0);
        }
        return s;
    }
    let mut s = String::from_str("[");
    s.append("\"");
    s.append(args[from]);
    s.append("\"");
    proof {
        assert(toks[0] == args.deep_view()[from as int]);
        assert(s@ =~= "["@ + quoted(toks[0]));
        assert(toks.skip(1) =~= args.deep_view().skip(from as int + 1));
        assert(s@ + debug_rest(args.deep_view().skip(from as int + 1)) + "]"@ =~= args_debug(
            toks,
        ));
    }
    let mut i: usize = from + 1;
    while i < n
        invariant
            from < i <= n,
            n == args.len(),
            toks == args.deep_view().skip(from as int),
            s@ + debug_rest(args.deep_view().skip(i as int)) + "]"@ == args_debug(toks),
        decreases n - i,
    {
        s.append(", ");
        s.append("\"");
        s.append(args[i]);
        s.append("\"");
        proof {
            let ghost ts = args.deep_view().skip(i as int);
            assert(ts[0] == args.deep_view()[i as int]);
            assert(ts.skip(1) =~= args.deep_view().skip(i as int + 1));
            assert(debug_rest(ts) == ", "@ + quoted(ts[0]) + debug_rest(
                args.deep_view().skip(i as int + 1),
            ));
            assert(s@ + debug_rest(args.deep_view().skip(i as int + 1)) + "]"@ =~= args_debug(
                toks,
            ));
        }
        i += 1;
    }
    s.append("]");
    proof {
        assert(args.deep_view().skip(n as int).len() == 0);
        assert(s@ =~= args_debug(toks));
    }
    s
}

/// The message echoed when a category node is reached with leftover
/// tokens that match none of its children.
pub open spec fn unknown_line(rest: Seq<Seq<char>>) -> Seq<char> {
    "Unknown command or arguments : "@ + args_debug(rest)
}

/// What the dispatcher prints about an action's result: nothing on
/// success; the verbatim message alone for the escape-hatch error; the
/// message and a usage reminder for every other error.
pub open spec fn error_report<A>(r: crate::error::XcliResult, target: CmdView<A>) -> Seq<
    Seq<char>,
> {
    match r {
        Ok(_) => Seq::empty(),
        Err(e) => match e {
            crate::error::XcliError::Other(m) => seq![m@],
            _ => seq![
                e.message_spec() + "\n"@,
                crate::command::usage_line_spec(target),
            ],
        },
    }
}

/// What each built-in command guarantees when it is the dispatch target:
/// the result, the shell state after, and the lines written, from the
/// application, the shell state before, and the leftover tokens.
pub open spec fn builtin_post<A: Action>(
    b: BuiltinCmd,
    app: App<A>,
    st0: ShellState,
    st1: ShellState,
    rest: Seq<Seq<char>>,
    r: XcliResult,
    out0: Seq<Seq<char>>,
    out1: Seq<Seq<char>>,
) -> bool {
    match b {
        BuiltinCmd::Tree => {
            &&& r == Ok::<CmdExeCode, XcliError>(CmdExeCode::Success)
            &&& st1 == st0
            &&& out1 == out0 + crate::completer::tree_lines(
                crate::completer::prefix_view(app.tree@),
                ""@,
                0,
            )
        },
        BuiltinCmd::Mode => crate::app::cli_mode_post(st0, st1, rest, r, out0, out1),
        BuiltinCmd::Log => crate::app::cli_log_post(st0, st1, rest, r, out0, out1),
        BuiltinCmd::Help => {
            &&& st1 == st0
            &&& crate::app::cli_help_post(app.tree@, rest, r, out0, out1)
        },
        BuiltinCmd::Exit => {
            &&& r == Ok::<CmdExeCode, XcliError>(CmdExeCode::Exit)
            &&& st1 == st0
            &&& out1 == out0
        },
        BuiltinCmd::Version => {
            &&& r == Ok::<CmdExeCode, XcliError>(CmdExeCode::Success)
            &&& st1 == st0
            &&& out1 == out0.push(
                app.name@ + "\n"@ + app.author_text() + "\n"@ + app.version_text() + "\n"@,
            )
        },
    }
}

/// Run one built-in command on the leftover tokens.
fn exec_builtin<A: Action>(
    b: BuiltinCmd,
    app: &App<A>,
    state: &mut ShellState,
    rest: &[&str],
    out: &mut Vec<String>,
) -> (r: XcliResult)
    ensures
        builtin_post(
            b,
            *app,
            *old(state),
            *final(state),
            rest.deep_view(),
            r,
            old(out).deep_view(),
            final(out).deep_view(),
        ),
{
    match b {
        BuiltinCmd::Tree => {
            app.show_tree(out);
            Ok(CmdExeCode::Success)
        },
        BuiltinCmd::Mode => crate::app::cli_mode(state, rest, out),
        BuiltinCmd::Log => crate::app::cli_log(state, rest, out),
        BuiltinCmd::Help => crate::app::cli_help(app, rest, out),
        BuiltinCmd::Exit => Ok(CmdExeCode::Exit),
        BuiltinCmd::Version => {
            let mut line = app.get_name().to_owned();
            line.append("\n");
            line.append(app.get_author());
            line.append("\n");
            line.append(app.get_version());
            line.append("\n");
            out.push(line);
            proof {
                assert(out.deep_view() =~= old(out).deep_view().push(
                    app.name@ + "\n"@ + app.author_text() + "\n"@ + app.version_text() + "\n"@,
                ));
            }
            Ok(CmdExeCode::Success)
        },
    }
}

/// What one dispatch guarantees. The dispatch target is the node reached
/// by matching tokens against children until tokens run out or none
/// matches; at most one action — the target's — runs. A category target
/// answers leftover tokens with the unknown-command line and no tokens
/// with its help; an action's result is reported after whatever the
/// action itself wrote. What an application-registered action does is its
/// own affair: only the report that follows it is pinned down.
pub open spec fn run_post<A: Action>(
    node: CmdView<A>,
    app: App<A>,
    st0: ShellState,
    st1: ShellState,
    toks: Seq<Seq<char>>,
    r: XcliResult,
    out0: Seq<Seq<char>>,
    out1: Seq<Seq<char>>,
) -> bool {
    let path = crate::command::dispatch_path(node, toks);
    let target = crate::command::node_at(node, path);
    let rest = toks.skip(path.len() as int);
    match target.action {
        None => {
            &&& r == Ok::<CmdExeCode, XcliError>(CmdExeCode::Success)
            &&& st1 == st0
            &&& if rest.len() > 0 {
                out1 == out0.push(unknown_line(rest))
            } else {
                out1 == out0.push(crate::command::help_text_spec(target))
                    + crate::command::sub_help_lines(target)
            }
        },
        Some(NodeAction::Builtin(b)) => exists|mid: Seq<Seq<char>>|
            {
                &&& #[trigger] builtin_post(b, app, st0, st1, rest, r, Seq::empty(), mid)
                &&& out1 == out0 + mid + error_report(r, target)
            },
        Some(NodeAction::User(_)) => exists|mid: Seq<Seq<char>>|
            out1 == #[trigger] (out0 + mid) + error_report(r, target),
    }
}

impl<A: Action> Command<A> {
    /// Resolve the tokens against this subtree and run the target: the
    /// single dispatch point of the engine.
    pub fn run_sub(
        &self,
        app: &App<A>,
        state: &mut ShellState,
        args: &[&str],
        out: &mut Vec<String>,
    ) -> (r: XcliResult)
        ensures
            run_post(
                self@,
                *app,
                *old(state),
                *final(state),
                args.deep_view(),
                r,
                old(out).deep_view(),
                final(out).deep_view(),
            ),
    {
        proof {
            assert(args.deep_view().skip(0) =~= args.deep_view());
        }
        self.run_from(app, state, args, 0, out)
    }

    /// Resolve and run, consuming tokens from index `from` on.
    fn run_from(
        &self,
        app: &App<A>,
        state: &mut ShellState,
        args: &[&str],
        from: usize,
        out: &mut Vec<String>,
    ) -> (r: XcliResult)
        requires
            from <= args.len(),
        ensures
            run_post(
                self@,
                *app,
                *old(state),
                *final(state),
                args.deep_view().skip(from as int),
                r,
                old(out).deep_view(),
                final(out).deep_view(),
            ),
        decreases args.len() - from,
    {
        broadcast use
            {crate::command::lemma_cmds_view_len, crate::command::lemma_cmds_view_index,
            crate::command::lemma_cmd_view_children};

        let ghost toks = args.deep_view().skip(from as int);
        let ghost path = crate::command::dispatch_path(self@, toks);
        let ghost target = crate::command::node_at(self@, path);
        let ghost out0 = out.deep_view();
        if from < args.len() {
            proof {
                assert(toks[0] == args.deep_view()[from as int]);
            }
            match self.find_match(args[from]) {
                Some(j) => {
                    proof {
                        assert(self@.children[j as int] == crate::command::cmd_view(
                            self.subcommands@[j as int],
                        ));
                    }
                    let r = self.subcommands[j].run_from(app, state, args, from + 1, out);
                    proof {
                        let sub = self@.children[j as int];
                        let toks1 = toks.skip(1);
                        assert(args.deep_view().skip(from as int + 1) =~= toks1);
                        let path1 = crate::command::dispatch_path(sub, toks1);
                        assert(path == seq![j as int] + path1);
                        assert(path[0] == j as int);
                        assert(path.skip(1) =~= path1);
                        assert(target == crate::command::node_at(sub, path1));
                        crate::command::lemma_dispatch_path_len(sub, toks1);
                        assert(path.len() == 1 + path1.len());
                        assert forall|i: int| 0 <= i < toks.skip(path.len() as int).len() implies
                            toks.skip(path.len() as int)[i] == toks1.skip(path1.len() as int)[i] by {
                            assert(toks1.skip(path1.len() as int)[i] == toks1[path1.len() + i]);
                            assert(toks1[path1.len() + i] == toks[1 + path1.len() + i]);
                        }
                        assert(toks.skip(path.len() as int) =~= toks1.skip(path1.len() as int));
                    }
                    return r;
                },
                None => {},
            }
        }
        proof {
            assert(path =~= Seq::<int>::empty());
            assert(target == self@);
            assert(toks.skip(0) =~= toks);
        }
        match &self.action {
            Some(act) => {
                let rest = &args[from..args.len()];
                proof {
                    assert forall|i: int| 0 <= i < rest.deep_view().len() implies rest.deep_view()[i]
                        == toks[i] by {
                        assert(rest@[i] == args@[from + i]);
                        assert(toks[i] == args.deep_view()[from + i]);
                    }
                    assert(rest.deep_view() =~= toks);
                }
                let mut act_out: Vec<String> = Vec::new();
                proof {
                    assert(act_out.deep_view() =~= Seq::<Seq<char>>::empty());
                }
                let r = match act {
                    NodeAction::Builtin(b) => exec_builtin(*b, app, state, rest, &mut act_out),
                    NodeAction::User(a) => a.run(app, state, rest, &mut act_out),
                };
                let ghost mid = act_out.deep_view();
                let mut moved = act_out;
                out.append(&mut moved);
                proof {
                    assert(out.deep_view() =~= out0 + mid);
                }
                match &r {
                    Err(XcliError::Other(m)) => {
                        out.push(m.clone());
                        proof {
                            assert(out.deep_view() =~= out0 + mid + error_report(r, target));
                        }
                    },
                    Err(e) => {
                        let mut msg = e.message();
                        msg.append("\n");
                        out.push(msg);
                        self.show_command_usage(out);
                        proof {
                            assert(out.deep_view() =~= out0 + mid + error_report(r, target));
                        }
                    },
                    Ok(_) => {
                        proof {
                            assert(out.deep_view() =~= out0 + mid + error_report(r, target));
                        }
                    },
                }
                proof {
                    match target.action {
                        Some(NodeAction::Builtin(b)) => {
                            assert(builtin_post(
                                b,
                                *app,
                                *old(state),
                                *state,
                                toks,
                                r,
                                Seq::empty(),
                                mid,
                            ));
                        },
                        _ => {},
                    }
                }
                r
            },
            None => {
                if from < args.len() {
                    let mut line = String::from_str("Unknown command or arguments : ");
                    let listing = fmt_args(args, from);
                    line.append(listing.as_str());
                    out.push(line);
                    proof {
                        assert(out.deep_view() =~= out0.push(unknown_line(toks)));
                    }
                } else {
                    self.show_command_help(out);
                    self.show_subcommand_help(out);
                    proof {
                        assert(out.deep_view() =~= out0.push(crate::command::help_text_spec(
                            target,
                        )) + crate::command::sub_help_lines(target));
                    }
                }
                Ok(CmdExeCode::Success)
            },
        }
    }
}

} // verus!
