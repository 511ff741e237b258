//! The command tree: named nodes with optional alias, display text, optional
//! action and ordered children, together with the resolution rules that walk
//! the tree by matching tokens against names and aliases.

use vstd::prelude::*;

verus! {

/// The engine's always-present commands, attached to the root before user
/// commands are added. Each is an ordinary tree node; no special-cased
/// dispatch logic applies to them.
#[derive(Clone, Copy, Debug, PartialEq, Eq, Structural)]
pub enum BuiltinCmd {
    /// Print the whole command tree.
    Tree,
    /// Query or set the line editor mode.
    Mode,
    /// Query or set the log level filter.
    Log,
    /// Print help for the root or for a located subtree.
    Help,
    /// Quit the command loop.
    Exit,
    /// Print name, author and version.
    Version,
}

/// What a node runs when it is the dispatch target: one of the engine's own
/// commands, or an action the application registered.
pub enum NodeAction<A> {
    /// An engine-provided command.
    Builtin(BuiltinCmd),
    /// An application-registered action.
    User(A),
}

/// A node of the command tree.
///
/// A node either is a leaf action (it has an action) or a category (no
/// action; it exists to group children and print help). Children are
/// exclusively owned, so the tree is acyclic and rooted.
pub struct Command<A> {
    pub name: String,
    pub alias: Option<String>,
    pub about: Option<String>,
    pub usage: Option<String>,
    pub subcommands: Vec<Command<A>>,
    pub action: Option<NodeAction<A>>,
}

/// The mathematical model of a command node: its texts as character
/// sequences and its children in order.
#[verifier::ext_equal]
pub ghost struct CmdView<A> {
    pub name: Seq<char>,
    pub alias: Option<Seq<char>>,
    pub about: Option<Seq<char>>,
    pub usage: Option<Seq<char>>,
    pub action: Option<NodeAction<A>>,
    pub children: Seq<CmdView<A>>,
}

/// The model of a command node.
pub open spec fn cmd_view<A>(c: Command<A>) -> CmdView<A>
    decreases c,
    via cmd_view_decreases::<A>
{
    CmdView {
        name: c.name@,
        alias: c.alias.deep_view(),
        about: c.about.deep_view(),
        usage: c.usage.deep_view(),
        action: match c.action {
            Some(a) => Some(a),
            None => None,
        },
        children: cmds_view(c.subcommands@),
    }
}

#[via_fn]
proof fn cmd_view_decreases<A>(c: Command<A>) {
    assert(decreases_to!(c => c.subcommands));
    assert(decreases_to!(c.subcommands => c.subcommands@));
    assert(decreases_to!(c => c.subcommands@));
}

/// The models of a sequence of command nodes, in order.
pub open spec fn cmds_view<A>(cs: Seq<Command<A>>) -> Seq<CmdView<A>>
    decreases cs,
    via cmds_view_decreases::<A>
{
    if cs.len() == 0 {
        Seq::empty()
    } else {
        seq![cmd_view(cs[0])] + cmds_view(cs.skip(1))
    }
}

#[via_fn]
proof fn cmds_view_decreases<A>(cs: Seq<Command<A>>) {
    if cs.len() > 0 {
        assert(decreases_to!(cs => cs[0]));
        assert(cs.skip(1) == cs.subrange(1, cs.len() as int));
        vstd::seq::axiom_seq_subrange_decreases(cs, 1, cs.len() as int);
    }
}

impl<A> View for Command<A> {
    type V = CmdView<A>;

    open spec fn view(&self) -> CmdView<A> {
        cmd_view(*self)
    }
}

/// The model of a node sequence has one entry per node.
pub broadcast proof fn lemma_cmds_view_len<A>(cs: Seq<Command<A>>)
    ensures
        #[trigger] cmds_view(cs).len() == cs.len(),
    decreases cs.len(),
{
    if cs.len() > 0 {
        lemma_cmds_view_len(cs.skip(1));
    }
}

/// The model of a node sequence is the node models, position by position.
pub broadcast proof fn lemma_cmds_view_index<A>(cs: Seq<Command<A>>, i: int)
    requires
        0 <= i < cs.len(),
    ensures
        #[trigger] cmds_view(cs)[i] == cmd_view(cs[i]),
    decreases cs.len(),
{
    lemma_cmds_view_len(cs);
    if i > 0 {
        lemma_cmds_view_index(cs.skip(1), i - 1);
    }
}

/// A node model's children are the models of the node's subcommands.
pub broadcast proof fn lemma_cmd_view_children<A>(c: Command<A>)
    ensures
        (#[trigger] cmd_view(c)).children == cmds_view(c.subcommands@),
{
}

/// Appending a node to a sequence appends its model to the sequence's model.
pub proof fn lemma_cmds_view_push<A>(cs: Seq<Command<A>>, c: Command<A>)
    ensures
        cmds_view(cs.push(c)) == cmds_view(cs).push(cmd_view(c)),
{
    lemma_cmds_view_len(cs.push(c));
    lemma_cmds_view_len(cs);
    assert forall|i: int| 0 <= i < cs.len() + 1 implies cmds_view(cs.push(c))[i] == cmds_view(
        cs,
    ).push(cmd_view(c))[i] by {
        lemma_cmds_view_index(cs.push(c), i);
        if i < cs.len() {
            lemma_cmds_view_index(cs, i);
            assert(cs.push(c)[i] == cs[i]);
        } else {
            assert(cs.push(c)[i] == c);
        }
    }
    assert(cmds_view(cs.push(c)) =~= cmds_view(cs).push(cmd_view(c)));
}

/// Concatenating node sequences concatenates their models.
pub proof fn lemma_cmds_view_concat<A>(a: Seq<Command<A>>, b: Seq<Command<A>>)
    ensures
        cmds_view(a + b) == cmds_view(a) + cmds_view(b),
{
    lemma_cmds_view_len(a + b);
    lemma_cmds_view_len(a);
    lemma_cmds_view_len(b);
    assert forall|i: int| 0 <= i < a.len() + b.len() implies cmds_view(a + b)[i] == (cmds_view(a)
        + cmds_view(b))[i] by {
        lemma_cmds_view_index(a + b, i);
        if i < a.len() {
            lemma_cmds_view_index(a, i);
            assert((a + b)[i] == a[i]);
        } else {
            lemma_cmds_view_index(b, i - a.len());
            assert((a + b)[i] == b[i - a.len()]);
        }
    }
    assert(cmds_view(a + b) =~= cmds_view(a) + cmds_view(b));
}

/// The name description of a node: its name, with the alias appended the
/// way the help printer shows it.
pub open spec fn desc_spec<A>(c: CmdView<A>) -> Seq<char> {
    match c.alias {
        Some(a) => c.name + ", "@ + a + " "@,
        None => c.name,
    }
}

/// The usage text of a node: its usage string, or its name when none was
/// set.
pub open spec fn usage_or_name<A>(c: CmdView<A>) -> Seq<char> {
    match c.usage {
        Some(u) => u,
        None => c.name,
    }
}

/// The description text of a node, or empty when none was set.
pub open spec fn about_text<A>(c: CmdView<A>) -> Seq<char> {
    match c.about {
        Some(a) => a,
        None => ""@,
    }
}

/// The usage message printed under a failed action.
pub open spec fn usage_line_spec<A>(c: CmdView<A>) -> Seq<char> {
    "Usage:       "@ + usage_or_name(c)
}

/// The help message of a node: its description, usage and about texts.
pub open spec fn help_text_spec<A>(c: CmdView<A>) -> Seq<char> {
    "Command:     "@ + desc_spec(c) + "\nUsage:       "@ + usage_or_name(c) + "\nDescription: "@
        + about_text(c)
}

/// The one-line summary of a child in its parent's help listing.
pub open spec fn child_summary_spec<A>(c: CmdView<A>) -> Seq<char> {
    crate::text::pad16_spec(desc_spec(c)) + ": "@ + usage_or_name(c)
}

/// The one-line summaries of a node's children, in child order.
pub open spec fn sub_help_lines<A>(c: CmdView<A>) -> Seq<Seq<char>> {
    Seq::new(c.children.len(), |i: int| child_summary_spec(c.children[i]))
}

/// A token matches a node when it equals the node's name or its alias.
pub open spec fn tok_matches<A>(c: CmdView<A>, t: Seq<char>) -> bool {
    c.name == t || c.alias == Some(t)
}

/// The index of the first sibling the token matches, if any.
pub open spec fn first_match<A>(cs: Seq<CmdView<A>>, t: Seq<char>) -> Option<int>
    decreases cs.len(),
{
    if cs.len() == 0 {
        None
    } else if tok_matches(cs[0], t) {
        Some(0int)
    } else {
        match first_match(cs.skip(1), t) {
            Some(i) => Some(i + 1),
            None => None,
        }
    }
}

/// Lookup-only resolution: descend along matching children; the node when
/// the tokens are exhausted, `None` the moment a token fails to match.
pub open spec fn locate_spec<A>(c: CmdView<A>, toks: Seq<Seq<char>>) -> Option<CmdView<A>>
    decreases toks.len(),
{
    if toks.len() == 0 {
        Some(c)
    } else {
        match first_match(c.children, toks[0]) {
            Some(i) => locate_spec(c.children[i], toks.skip(1)),
            None => None,
        }
    }
}

/// The child-index path walked by dispatch: repeatedly match the next token
/// against the children; stop when tokens run out or no child matches.
pub open spec fn dispatch_path<A>(c: CmdView<A>, toks: Seq<Seq<char>>) -> Seq<int>
    decreases toks.len(),
{
    if toks.len() == 0 {
        Seq::empty()
    } else {
        match first_match(c.children, toks[0]) {
            Some(i) => seq![i] + dispatch_path(c.children[i], toks.skip(1)),
            None => Seq::empty(),
        }
    }
}

/// Dispatch consumes at most one child step per token.
pub proof fn lemma_dispatch_path_len<A>(c: CmdView<A>, toks: Seq<Seq<char>>)
    ensures
        dispatch_path(c, toks).len() <= toks.len(),
    decreases toks.len(),
{
    if toks.len() > 0 {
        match first_match(c.children, toks[0]) {
            Some(i) => {
                lemma_dispatch_path_len(c.children[i], toks.skip(1));
            },
            None => {},
        }
    }
}

/// The node at the end of a child-index path.
pub open spec fn node_at<A>(c: CmdView<A>, path: Seq<int>) -> CmdView<A>
    decreases path.len(),
{
    if path.len() == 0 {
        c
    } else {
        node_at(c.children[path[0]], path.skip(1))
    }
}

/// The dispatch walk, step by step: every entry of the dispatch path is
/// the first child matched by the token at that level, one level per
/// token from the root down, and the walk stops only because the tokens
/// are exhausted or because the next token matches no child. Together
/// with `run_post` this pins down the one node whose action a dispatch
/// may run.
pub proof fn lemma_dispatch_walk<A>(c: CmdView<A>, toks: Seq<Seq<char>>)
    ensures
        dispatch_path(c, toks).len() <= toks.len(),
        forall|k: int|
            0 <= k < dispatch_path(c, toks).len() ==> {
                &&& first_match(
                    node_at(c, #[trigger] dispatch_path(c, toks).take(k)).children,
                    toks[k],
                ) is Some
                &&& dispatch_path(c, toks)[k] == first_match(
                    node_at(c, dispatch_path(c, toks).take(k)).children,
                    toks[k],
                )->0
            },
        dispatch_path(c, toks).len() < toks.len() ==> first_match(
            node_at(c, dispatch_path(c, toks)).children,
            toks[dispatch_path(c, toks).len() as int],
        ) is None,
    decreases toks.len(),
{
    if toks.len() > 0 {
        match first_match(c.children, toks[0]) {
            Some(i) => {
                lemma_first_match(c.children, toks[0]);
                lemma_dispatch_walk(c.children[i], toks.skip(1));
                let path = dispatch_path(c, toks);
                let path1 = dispatch_path(c.children[i], toks.skip(1));
                assert(path == seq![i] + path1);
                assert(path.skip(1) =~= path1);
                assert(path.take(0) =~= Seq::<int>::empty());
                assert forall|k: int| 0 <= k < path.len() implies {
                    &&& first_match(
                        node_at(c, #[trigger] path.take(k)).children,
                        toks[k],
                    ) is Some
                    &&& path[k] == first_match(node_at(c, path.take(k)).children, toks[k])->0
                } by {
                    if k == 0 {
                        assert(node_at(c, path.take(0)) == c);
                        assert(path[0] == i);
                    } else {
                        assert(path.take(k)[0] == i);
                        assert(path.take(k).skip(1) =~= path1.take(k - 1));
                        assert(node_at(c, path.take(k)) == node_at(
                            c.children[i],
                            path1.take(k - 1),
                        ));
                        assert(path[k] == path1[k - 1]);
                        assert(toks[k] == toks.skip(1)[k - 1]);
                    }
                }
                if path.len() < toks.len() {
                    assert(node_at(c, path) == node_at(c.children[i], path1));
                    assert(toks[path.len() as int] == toks.skip(1)[path1.len() as int]);
                }
            },
            None => {
                assert(dispatch_path(c, toks) =~= Seq::<int>::empty());
                assert(node_at(c, dispatch_path(c, toks)) == c);
            },
        }
    }
}

/// Lookup-only resolution succeeds exactly when every token matches by
/// name or alias at its level — the dispatch walk consumes the whole
/// token list — and the located node is then the dispatch target itself.
/// Any mismatch on the way yields nothing, never a partial node.
pub proof fn lemma_locate_is_dispatch<A>(c: CmdView<A>, toks: Seq<Seq<char>>)
    ensures
        locate_spec(c, toks) is Some <==> dispatch_path(c, toks).len() == toks.len(),
        locate_spec(c, toks) is Some ==> locate_spec(c, toks) == Some(
            node_at(c, dispatch_path(c, toks)),
        ),
    decreases toks.len(),
{
    lemma_dispatch_path_len(c, toks);
    if toks.len() > 0 {
        match first_match(c.children, toks[0]) {
            Some(i) => {
                lemma_locate_is_dispatch(c.children[i], toks.skip(1));
                lemma_dispatch_path_len(c.children[i], toks.skip(1));
                let path1 = dispatch_path(c.children[i], toks.skip(1));
                assert((seq![i] + path1).skip(1) =~= path1);
            },
            None => {},
        }
    }
}

/// `first_match` finds a match iff one exists, and then the earliest one.
pub proof fn lemma_first_match<A>(cs: Seq<CmdView<A>>, t: Seq<char>)
    ensures
        match first_match(cs, t) {
            Some(i) => 0 <= i < cs.len() && tok_matches(cs[i], t) && (forall|k: int|
                0 <= k < i ==> !tok_matches(cs[k], t)),
            None => forall|k: int| 0 <= k < cs.len() ==> !tok_matches(cs[k], t),
        },
    decreases cs.len(),
{
    if cs.len() > 0 && !tok_matches(cs[0], t) {
        lemma_first_match(cs.skip(1), t);
        match first_match(cs.skip(1), t) {
            Some(i) => {
                assert(cs.skip(1)[i] == cs[i + 1]);
                assert forall|k: int| 0 <= k < i + 1 implies !tok_matches(cs[k], t) by {
                    if k > 0 {
                        assert(cs.skip(1)[k - 1] == cs[k]);
                    }
                }
            },
            None => {
                assert forall|k: int| 0 <= k < cs.len() implies !tok_matches(cs[k], t) by {
                    if k > 0 {
                        assert(cs.skip(1)[k - 1] == cs[k]);
                    }
                }
            },
        }
    }
}

impl<A> Command<A> {
    /// Create a command with the given name.
    pub fn new(n: &str) -> (c: Command<A>)
        ensures
            c@ == (CmdView::<A> {
                name: n@,
                alias: None,
                about: None,
                usage: None,
                action: None,
                children: Seq::empty(),
            }),
    {
        broadcast use {lemma_cmds_view_len, lemma_cmds_view_index, lemma_cmd_view_children};

        let c = Command {
            name: n.to_owned(),
            alias: None,
            about: None,
            usage: None,
            subcommands: Vec::new(),
            action: None,
        };
        proof {
            assert(c@ =~= CmdView::<A> {
                name: n@,
                alias: None,
                about: None,
                usage: None,
                action: None,
                children: Seq::empty(),
            });
        }
        c
    }

    /// Create a command with the given name and alias.
    pub fn new_with_alias(n: &str, s: &str) -> (c: Command<A>)
        ensures
            c@ == (CmdView::<A> {
                name: n@,
                alias: Some(s@),
                about: None,
                usage: None,
                action: None,
                children: Seq::empty(),
            }),
    {
        broadcast use {lemma_cmds_view_len, lemma_cmds_view_index, lemma_cmd_view_children};

        let c = Command {
            name: n.to_owned(),
            alias: Some(s.to_owned()),
            about: None,
            usage: None,
            subcommands: Vec::new(),
            action: None,
        };
        proof {
            assert(c@ =~= CmdView::<A> {
                name: n@,
                alias: Some(s@),
                about: None,
                usage: None,
                action: None,
                children: Seq::empty(),
            });
        }
        c
    }

    /// Get the name of this command.
    pub fn get_name(&self) -> (r: &str)
        ensures
            r@ == self@.name,
    {
        self.name.as_str()
    }

    /// Get the alias of this command.
    pub fn get_alias(&self) -> (r: &Option<String>)
        ensures
            r.deep_view() == self@.alias,
    {
        &self.alias
    }

    /// Set an application action on this command.
    pub fn action(self, action: A) -> (c: Command<A>)
        ensures
            c@ == (CmdView { action: Some(NodeAction::User(action)), ..self@ }),
    {
        let c = Command { action: Some(NodeAction::User(action)), ..self };
        proof {
            assert(c@ =~= CmdView { action: Some(NodeAction::User(action)), ..self@ });
        }
        c
    }

    /// Set an engine-provided action on this command.
    pub(crate) fn action_builtin(self, b: BuiltinCmd) -> (c: Command<A>)
        ensures
            c@ == (CmdView { action: Some(NodeAction::Builtin(b)), ..self@ }),
    {
        let c = Command { action: Some(NodeAction::Builtin(b)), ..self };
        proof {
            assert(c@ =~= CmdView { action: Some(NodeAction::Builtin(b)), ..self@ });
        }
        c
    }

    /// Set a description on this command.
    pub fn about(self, about: &str) -> (c: Command<A>)
        ensures
            c@ == (CmdView { about: Some(about@), ..self@ }),
    {
        let c = Command { about: Some(about.to_owned()), ..self };
        proof {
            assert(c@ =~= CmdView { about: Some(about@), ..self@ });
        }
        c
    }

    /// Set a usage string on this command.
    pub fn usage(self, usage: &str) -> (c: Command<A>)
        ensures
            c@ == (CmdView { usage: Some(usage@), ..self@ }),
    {
        let c = Command { usage: Some(usage.to_owned()), ..self };
        proof {
            assert(c@ =~= CmdView { usage: Some(usage@), ..self@ });
        }
        c
    }

    /// Get all subcommands of this command.
    pub fn get_subcommands(&self) -> (r: &[Command<A>])
        ensures
            r@.len() == self@.children.len(),
            forall|i: int| 0 <= i < r@.len() ==> r@[i]@ == self@.children[i],
    {
        broadcast use {lemma_cmds_view_len, lemma_cmds_view_index, lemma_cmd_view_children};

        self.subcommands.as_slice()
    }

    /// Append one subcommand to this command.
    pub fn subcommand(self, subcmd: Command<A>) -> (c: Command<A>)
        ensures
            c@ == (CmdView { children: self@.children.push(subcmd@), ..self@ }),
    {
        broadcast use {lemma_cmds_view_len, lemma_cmds_view_index, lemma_cmd_view_children};

        let ghost sub_view = subcmd@;
        let mut s = self;
        let ghost old_view = s@;
        let ghost old_vec = s.subcommands@;
        s.subcommands.push(subcmd);
        proof {
            lemma_cmds_view_push(old_vec, s.subcommands@.last());
            assert(s@ =~= CmdView { children: old_view.children.push(sub_view), ..old_view });
        }
        s
    }

    /// Append subcommands to this command, keeping their order.
    pub fn subcommands(self, subcmds: Vec<Command<A>>) -> (c: Command<A>)
        ensures
            c@ == (CmdView { children: self@.children + cmds_view(subcmds@), ..self@ }),
    {
        broadcast use {lemma_cmds_view_len, lemma_cmds_view_index, lemma_cmd_view_children};

        let mut s = self;
        let mut rest = subcmds;
        let ghost old_view = s@;
        let ghost old_vec = s.subcommands@;
        let ghost rest_vec = rest@;
        s.subcommands.append(&mut rest);
        proof {
            lemma_cmds_view_concat(old_vec, rest_vec);
            assert(s@ =~= CmdView { children: old_view.children + cmds_view(rest_vec), ..old_view });
        }
        s
    }

    /// The name description of this command: name, or name with alias.
    pub(crate) fn get_description(&self) -> (s: String)
        ensures
            s@ == desc_spec(self@),
    {
        let mut s = self.name.clone();
        match &self.alias {
            Some(a) => {
                s.append(", ");
                s.append(a.as_str());
                s.append(" ");
                proof {
                    assert(s@ =~= desc_spec(self@));
                }
            },
            None => {},
        }
        s
    }

    /// The usage text of this command: its usage string, or its name.
    pub(crate) fn usage_text(&self) -> (r: &str)
        ensures
            r@ == usage_or_name(self@),
    {
        match &self.usage {
            Some(u) => u.as_str(),
            None => self.name.as_str(),
        }
    }

    /// Write the usage message for this command.
    pub fn show_command_usage(&self, out: &mut Vec<String>)
        ensures
            final(out).deep_view() == old(out).deep_view().push(usage_line_spec(self@)),
    {
        let mut line = String::from_str("Usage:       ");
        line.append(self.usage_text());
        out.push(line);
        proof {
            assert(out.deep_view() =~= old(out).deep_view().push(usage_line_spec(self@)));
        }
    }

    /// Write the help message for this command.
    pub fn show_command_help(&self, out: &mut Vec<String>)
        ensures
            final(out).deep_view() == old(out).deep_view().push(help_text_spec(self@)),
    {
        let mut line = String::from_str("Command:     ");
        let desc = self.get_description();
        line.append(desc.as_str());
        line.append("\nUsage:       ");
        line.append(self.usage_text());
        line.append("\nDescription: ");
        match &self.about {
            Some(a) => {
                line.append(a.as_str());
            },
            None => {},
        }
        proof {
            reveal_strlit("");
            assert(line@ =~= help_text_spec(self@));
        }
        out.push(line);
        proof {
            assert(out.deep_view() =~= old(out).deep_view().push(help_text_spec(self@)));
        }
    }

    /// Write the one-line summary of each subcommand of this command.
    pub fn show_subcommand_help(&self, out: &mut Vec<String>)
        ensures
            final(out).deep_view() == old(out).deep_view() + sub_help_lines(self@),
    {
        broadcast use {lemma_cmds_view_len, lemma_cmds_view_index, lemma_cmd_view_children};

        let n = self.subcommands.len();
        let mut j: usize = 0;
        proof {
            assert(out.deep_view() =~= old(out).deep_view() + sub_help_lines(self@).take(0));
        }
        while j < n
            invariant
                j <= n,
                n == self.subcommands@.len(),
                n == self@.children.len(),
                out.deep_view() == old(out).deep_view() + sub_help_lines(self@).take(j as int),
            decreases n - j,
        {
            broadcast use {lemma_cmds_view_len, lemma_cmds_view_index, lemma_cmd_view_children};

            let child = &self.subcommands[j];
            proof {
                assert(self@.children[j as int] == cmd_view(self.subcommands@[j as int]));
            }
            let mut line = crate::text::pad16(child.get_description());
            line.append(": ");
            line.append(child.usage_text());
            proof {
                assert(line@ =~= child_summary_spec(self@.children[j as int]));
            }
            let ghost prev = out.deep_view();
            out.push(line);
            proof {
                assert(out.deep_view() =~= prev.push(line@));
                assert(sub_help_lines(self@).take(j as int + 1) =~= sub_help_lines(self@).take(
                    j as int,
                ).push(child_summary_spec(self@.children[j as int])));
                assert(out.deep_view() =~= old(out).deep_view() + sub_help_lines(self@).take(
                    j as int + 1,
                ));
            }
            j += 1;
        }
        proof {
            assert(sub_help_lines(self@).take(n as int) =~= sub_help_lines(self@));
        }
    }

    /// Whether a token matches this command's name or alias.
    pub(crate) fn matches_token(&self, tok: &str) -> (r: bool)
        ensures
            r == tok_matches(self@, tok@),
    {
        if crate::text::str_eq(tok, self.name.as_str()) {
            true
        } else {
            match &self.alias {
                Some(a) => crate::text::str_eq(tok, a.as_str()),
                None => false,
            }
        }
    }

    /// The first child, in registration order, that the token matches.
    pub(crate) fn find_match(&self, tok: &str) -> (r: Option<usize>)
        ensures
            match r {
                Some(j) => j < self.subcommands@.len() && first_match(self@.children, tok@)
                    == Some(j as int),
                None => first_match(self@.children, tok@) is None,
            },
    {
        broadcast use {lemma_cmds_view_len, lemma_cmds_view_index, lemma_cmd_view_children};

        let n = self.subcommands.len();
        let mut j: usize = 0;
        while j < n
            invariant
                j <= n,
                n == self.subcommands@.len(),
                forall|k: int| 0 <= k < j ==> !tok_matches(self@.children[k], tok@),
            decreases n - j,
        {
            proof {
                lemma_cmd_view_children(*self);
                lemma_cmds_view_len(self.subcommands@);
                lemma_cmds_view_index(self.subcommands@, j as int);
                assert(self@.children[j as int] == cmd_view(self.subcommands@[j as int]));
            }
            if self.subcommands[j].matches_token(tok) {
                proof {
                    lemma_first_match(self@.children, tok@);
                    let cs = self@.children;
                    let fm = first_match(cs, tok@);
                    if fm is None {
                        assert(!tok_matches(cs[j as int], tok@));
                        assert(false);
                    } else {
                        let i = fm->0;
                        if i < j as int {
                            assert(!tok_matches(cs[i], tok@));
                            assert(false);
                        } else if i > j as int {
                            assert(!tok_matches(cs[j as int], tok@));
                            assert(false);
                        }
                    }
                    assert(fm == Some(j as int));
                }
                return Some(j);
            }
            j += 1;
        }
        proof {
            lemma_first_match(self@.children, tok@);
        }
        None
    }

    /// Visit this node and every node below it, in depth-first child
    /// order, handing the visitor each node together with its path: the
    /// parent's path, a separator, and the node's name. What the visitor
    /// does with them is its own affair.
    pub fn for_each<F: Fn(&Command<A>, &str)>(&self, path: &str, f: &F)
        requires
            forall|c: &Command<A>, p: &str| #[trigger] call_requires(*f, (c, p)),
        decreases *self,
    {
        f(self, path);
        let n = self.subcommands.len();
        let mut i: usize = 0;
        while i < n
            invariant
                i <= n,
                n == self.subcommands@.len(),
                forall|c: &Command<A>, p: &str| #[trigger] call_requires(*f, (c, p)),
            decreases n - i,
        {
            let a = &self.subcommands[i];
            let mut child_path = path.to_owned();
            child_path.append("/");
            child_path.append(a.name.as_str());
            proof {
                assert(decreases_to!(*self => self.subcommands));
                assert(decreases_to!(self.subcommands => self.subcommands@));
                assert(decreases_to!(self.subcommands@ => self.subcommands@[i as int]));
                assert(decreases_to!(*self => self.subcommands@[i as int]));
            }
            a.for_each(child_path.as_str(), f);
            i += 1;
        }
    }

    /// Locate the subcommand the argument tokens name, without running
    /// anything: descend along children matched by name or alias; the
    /// walk fails the moment a token matches no child.
    pub fn locate_subcommand(&self, args: &[&str]) -> (r: Option<&Command<A>>)
        ensures
            match r {
                Some(c) => locate_spec(self@, args.deep_view()) == Some(c@),
                None => locate_spec(self@, args.deep_view()) is None,
            },
    {
        proof {
            assert(args.deep_view().skip(0) =~= args.deep_view());
        }
        self.locate_from(args, 0)
    }

    /// Locate the subcommand named by the tokens from index `from` on.
    fn locate_from(&self, args: &[&str], from: usize) -> (r: Option<&Command<A>>)
        requires
            from <= args.len(),
        ensures
            match r {
                Some(c) => locate_spec(self@, args.deep_view().skip(from as int)) == Some(c@),
                None => locate_spec(self@, args.deep_view().skip(from as int)) is None,
            },
        decreases args.len() - from,
    {
        broadcast use {lemma_cmds_view_len, lemma_cmds_view_index, lemma_cmd_view_children};

        let ghost toks = args.deep_view().skip(from as int);
        if from == args.len() {
            Some(self)
        } else {
            proof {
                assert(toks[0] == args.deep_view()[from as int]);
            }
            match self.find_match(args[from]) {
                Some(j) => {
                    proof {
                        assert(self@.children[j as int] == cmd_view(self.subcommands@[j as int]));
                    }
                    let r = self.subcommands[j].locate_from(args, from + 1);
                    proof {
                        assert(args.deep_view().skip(from as int + 1) =~= toks.skip(1));
                    }
                    r
                },
                None => None,
            }
        }
    }
}

} // verus!
