//! The prefix completion engine: a space-suffixed shadow of the command
//! tree, walked level by level against the text before the cursor to
//! compute the valid next-token completions.
//!
//! The engine descends into a single unambiguous full match and stops to
//! report all candidates on ambiguity. It is stateless: every call
//! rebuilds its matches from scratch.

use vstd::prelude::*;

use crate::command::CmdView;
use crate::command::Command;

verus! {

/// A node of the completion shadow tree: the command name with a trailing
/// space, and the shadows of the command's children.
pub struct PrefixNode {
    pub name: String,
    pub children: Vec<PrefixNode>,
}

/// A completer over a shadow of the command tree, built once from the tree
/// and not updated afterwards: a snapshot, not a live view.
pub struct PrefixCompleter {
    pub tree: PrefixNode,
}

/// The mathematical model of a shadow node.
#[verifier::ext_equal]
pub ghost struct PrefixView {
    pub name: Seq<char>,
    pub children: Seq<PrefixView>,
}

/// The model of a shadow node.
pub open spec fn pnode_view(n: PrefixNode) -> PrefixView
    decreases n,
    via pnode_view_decreases
{
    PrefixView { name: n.name@, children: pnodes_view(n.children@) }
}

#[via_fn]
proof fn pnode_view_decreases(n: PrefixNode) {
    assert(decreases_to!(n => n.children));
    assert(decreases_to!(n.children => n.children@));
    assert(decreases_to!(n => n.children@));
}

/// The models of a sequence of shadow nodes, in order.
pub open spec fn pnodes_view(ns: Seq<PrefixNode>) -> Seq<PrefixView>
    decreases ns,
    via pnodes_view_decreases
{
    if ns.len() == 0 {
        Seq::empty()
    } else {
        seq![pnode_view(ns[0])] + pnodes_view(ns.skip(1))
    }
}

#[via_fn]
proof fn pnodes_view_decreases(ns: Seq<PrefixNode>) {
    if ns.len() > 0 {
        assert(decreases_to!(ns => ns[0]));
        assert(ns.skip(1) == ns.subrange(1, ns.len() as int));
        vstd::seq::axiom_seq_subrange_decreases(ns, 1, ns.len() as int);
    }
}

impl View for PrefixNode {
    type V = PrefixView;

    open spec fn view(&self) -> PrefixView {
        pnode_view(*self)
    }
}

impl View for PrefixCompleter {
    type V = PrefixView;

    open spec fn view(&self) -> PrefixView {
        pnode_view(self.tree)
    }
}

/// The model of a shadow node sequence has one entry per node.
pub broadcast proof fn lemma_pnodes_view_len(ns: Seq<PrefixNode>)
    ensures
        #[trigger] pnodes_view(ns).len() == ns.len(),
    decreases ns.len(),
{
    if ns.len() > 0 {
        lemma_pnodes_view_len(ns.skip(1));
    }
}

/// The model of a shadow node sequence, position by position.
pub broadcast proof fn lemma_pnodes_view_index(ns: Seq<PrefixNode>, i: int)
    requires
        0 <= i < ns.len(),
    ensures
        #[trigger] pnodes_view(ns)[i] == pnode_view(ns[i]),
    decreases ns.len(),
{
    lemma_pnodes_view_len(ns);
    if i > 0 {
        lemma_pnodes_view_index(ns.skip(1), i - 1);
    }
}

/// A shadow node model's children are the models of the node's children.
pub broadcast proof fn lemma_pnode_view_children(n: PrefixNode)
    ensures
        (#[trigger] pnode_view(n)).children == pnodes_view(n.children@),
{
}

/// Appending a shadow node appends its model.
pub proof fn lemma_pnodes_view_push(ns: Seq<PrefixNode>, n: PrefixNode)
    ensures
        pnodes_view(ns.push(n)) == pnodes_view(ns).push(pnode_view(n)),
{
    lemma_pnodes_view_len(ns.push(n));
    lemma_pnodes_view_len(ns);
    assert forall|i: int| 0 <= i < ns.len() + 1 implies pnodes_view(ns.push(n))[i] == pnodes_view(
        ns,
    ).push(pnode_view(n))[i] by {
        lemma_pnodes_view_index(ns.push(n), i);
        if i < ns.len() {
            lemma_pnodes_view_index(ns, i);
            assert(ns.push(n)[i] == ns[i]);
        } else {
            assert(ns.push(n)[i] == n);
        }
    }
    assert(pnodes_view(ns.push(n)) =~= pnodes_view(ns).push(pnode_view(n)));
}

/// Whitespace, as the completion scanner trims it.
pub open spec fn is_space_spec(c: char) -> bool {
    c == ' ' || c == '\t' || c == '\n' || c == '\r' || c == '\x0b' || c == '\x0c'
}

/// The text with its leading whitespace removed.
pub open spec fn trim_start_spec(s: Seq<char>) -> Seq<char>
    decreases s.len(),
{
    if s.len() > 0 && is_space_spec(s[0]) {
        trim_start_spec(s.skip(1))
    } else {
        s
    }
}

/// The scan covers the whole name: the child is typed out in full.
pub open spec fn full_match(name: Seq<char>, scan: Seq<char>) -> bool {
    scan.len() >= name.len() && scan.take(name.len() as int) == name
}

/// The scan is a strict prefix of the name: the child is partially typed.
pub open spec fn partial_match(name: Seq<char>, scan: Seq<char>) -> bool {
    scan.len() < name.len() && name.take(scan.len() as int) == scan
}

/// Whether a child contributes a candidate fragment.
pub open spec fn pmatches(name: Seq<char>, scan: Seq<char>) -> bool {
    full_match(name, scan) || partial_match(name, scan)
}

/// The candidate fragment a matching child contributes: a single-space
/// placeholder when the token is complete, the whole name on a longer
/// full match, and the untyped suffix of the name on a partial match.
pub open spec fn fragment(name: Seq<char>, scan: Seq<char>) -> Seq<char> {
    if full_match(name, scan) {
        if scan.len() == name.len() {
            " "@
        } else {
            name
        }
    } else {
        name.skip(scan.len() as int)
    }
}

/// The candidate fragments of the matching children, in child order.
pub open spec fn candidates_spec(cs: Seq<PrefixView>, scan: Seq<char>) -> Seq<Seq<char>>
    decreases cs.len(),
{
    if cs.len() == 0 {
        Seq::empty()
    } else {
        (if pmatches(cs[0].name, scan) {
            seq![fragment(cs[0].name, scan)]
        } else {
            Seq::empty()
        }) + candidates_spec(cs.skip(1), scan)
    }
}

/// How many children the scan matches.
pub open spec fn match_count(cs: Seq<PrefixView>, scan: Seq<char>) -> nat
    decreases cs.len(),
{
    if cs.len() == 0 {
        0
    } else {
        (if pmatches(cs[0].name, scan) {
            1nat
        } else {
            0nat
        }) + match_count(cs.skip(1), scan)
    }
}

/// There is one candidate fragment per matching child.
pub proof fn lemma_candidates_len(cs: Seq<PrefixView>, scan: Seq<char>)
    ensures
        candidates_spec(cs, scan).len() == match_count(cs, scan),
    decreases cs.len(),
{
    if cs.len() > 0 {
        lemma_candidates_len(cs.skip(1), scan);
    }
}

/// A matching child means the match count is positive.
proof fn lemma_match_count_pos(cs: Seq<PrefixView>, scan: Seq<char>, i: int)
    requires
        0 <= i < cs.len(),
        pmatches(cs[i].name, scan),
    ensures
        match_count(cs, scan) >= 1,
    decreases cs.len(),
{
    if i > 0 {
        assert(cs.skip(1)[i - 1] == cs[i]);
        lemma_match_count_pos(cs.skip(1), scan, i - 1);
    }
}

/// Two distinct matching children mean the match count is at least two.
pub proof fn lemma_match_count_two(cs: Seq<PrefixView>, scan: Seq<char>, i: int, j: int)
    requires
        0 <= i < j < cs.len(),
        pmatches(cs[i].name, scan),
        pmatches(cs[j].name, scan),
    ensures
        match_count(cs, scan) >= 2,
    decreases cs.len(),
{
    assert(cs.skip(1)[j - 1] == cs[j]);
    if i == 0 {
        lemma_match_count_pos(cs.skip(1), scan, j - 1);
    } else {
        assert(cs.skip(1)[i - 1] == cs[i]);
        lemma_match_count_two(cs.skip(1), scan, i - 1, j - 1);
    }
}

/// With exactly one match, the matching child is unique.
pub proof fn lemma_match_unique(cs: Seq<PrefixView>, scan: Seq<char>, i: int, j: int)
    requires
        match_count(cs, scan) == 1,
        0 <= i < cs.len(),
        0 <= j < cs.len(),
        pmatches(cs[i].name, scan),
        pmatches(cs[j].name, scan),
    ensures
        i == j,
{
    if i < j {
        lemma_match_count_two(cs, scan, i, j);
    } else if j < i {
        lemma_match_count_two(cs, scan, j, i);
    }
}

/// Completion is stateless: its outcome is a function of the shadow tree,
/// the line and the cursor alone, so two completions of the same query
/// are the same, with no memory of earlier calls.
pub proof fn lemma_completion_stateless(
    n: PrefixView,
    line: Seq<char>,
    pos: int,
    r1: Seq<Seq<char>>,
    r2: Seq<Seq<char>>,
)
    requires
        r1 == complete_spec(n, line.take(pos)),
        r2 == complete_spec(n, line.take(pos)),
    ensures
        r1 == r2,
{
}

/// Every matching child's fragment appears among the candidates.
pub proof fn lemma_candidates_has(cs: Seq<PrefixView>, scan: Seq<char>, k: int)
    requires
        0 <= k < cs.len(),
        pmatches(cs[k].name, scan),
    ensures
        exists|m: int|
            0 <= m < candidates_spec(cs, scan).len() && #[trigger] candidates_spec(cs, scan)[m]
                == fragment(cs[k].name, scan),
    decreases cs.len(),
{
    if k == 0 {
        assert(candidates_spec(cs, scan)[0] == fragment(cs[0].name, scan));
    } else {
        assert(cs.skip(1)[k - 1] == cs[k]);
        lemma_candidates_has(cs.skip(1), scan, k - 1);
        let m = choose|m: int|
            0 <= m < candidates_spec(cs.skip(1), scan).len() && #[trigger] candidates_spec(
                cs.skip(1),
                scan,
            )[m] == fragment(cs.skip(1)[k - 1].name, scan);
        if pmatches(cs[0].name, scan) {
            assert(candidates_spec(cs, scan)[m + 1] == candidates_spec(cs.skip(1), scan)[m]);
        } else {
            assert(candidates_spec(cs, scan)[m] == candidates_spec(cs.skip(1), scan)[m]);
        }
    }
}

/// Ambiguity stops the descent: when two or more sibling names extend the
/// non-empty trimmed scan, the completion is exactly the candidate list —
/// one fragment per matching sibling, in child order, each partial
/// fragment being the part of the name past the scan — and it holds two
/// or more entries, so no level below this one is consulted.
pub proof fn lemma_ambiguity_no_descent(n: PrefixView, scan: Seq<char>, i: int, j: int)
    requires
        0 <= i < j < n.children.len(),
        trim_start_spec(scan).len() > 0,
        partial_match(n.children[i].name, trim_start_spec(scan)),
        partial_match(n.children[j].name, trim_start_spec(scan)),
    ensures
        complete_spec(n, scan) == candidates_spec(n.children, trim_start_spec(scan)),
        complete_spec(n, scan).len() >= 2,
        forall|k: int|
            0 <= k < n.children.len() && partial_match(
                #[trigger] n.children[k].name,
                trim_start_spec(scan),
            ) ==> exists|m: int|
                0 <= m < complete_spec(n, scan).len() && #[trigger] complete_spec(n, scan)[m]
                    == n.children[k].name.skip(trim_start_spec(scan).len() as int),
{
    let s = trim_start_spec(scan);
    lemma_match_count_two(n.children, s, i, j);
    lemma_candidates_len(n.children, s);
    assert(complete_spec(n, scan) == candidates_spec(n.children, s));
    assert forall|k: int|
        0 <= k < n.children.len() && partial_match(
            #[trigger] n.children[k].name,
            s,
        ) implies exists|m: int|
        0 <= m < complete_spec(n, scan).len() && #[trigger] complete_spec(n, scan)[m]
            == n.children[k].name.skip(s.len() as int) by {
        lemma_candidates_has(n.children, s, k);
        assert(fragment(n.children[k].name, s) == n.children[k].name.skip(s.len() as int));
    }
}

/// The unique matching child, meaningful when the match count is one.
pub open spec fn the_match(cs: Seq<PrefixView>, scan: Seq<char>) -> int {
    choose|i: int| 0 <= i < cs.len() && #[trigger] pmatches(cs[i].name, scan)
}

/// The completions for the text before the cursor at this node: trim
/// leading whitespace, collect one fragment per matching child; descend
/// into a single full match with the remainder of the scan, report
/// anything else (none, several, or a single partial match) as it stands.
pub open spec fn complete_spec(n: PrefixView, scan: Seq<char>) -> Seq<Seq<char>>
    decreases n,
    via complete_spec_decreases
{
    let s = trim_start_spec(scan);
    let cands = candidates_spec(n.children, s);
    if cands.len() != 1 {
        cands
    } else {
        let i = the_match(n.children, s);
        if 0 <= i < n.children.len() && full_match(n.children[i].name, s) {
            complete_spec(n.children[i], s.skip(n.children[i].name.len() as int))
        } else {
            cands
        }
    }
}

#[via_fn]
proof fn complete_spec_decreases(n: PrefixView, scan: Seq<char>) {
    let s = trim_start_spec(scan);
    let cands = candidates_spec(n.children, s);
    if cands.len() == 1 {
        let i = the_match(n.children, s);
        if 0 <= i < n.children.len() {
            assert(decreases_to!(n => n.children));
            assert(decreases_to!(n.children => n.children[i]));
            assert(decreases_to!(n => n.children[i]));
        }
    }
}

/// The shadow of a command node: its name with a trailing space, and the
/// shadows of its children.
pub open spec fn prefix_view<A>(c: CmdView<A>) -> PrefixView
    decreases c,
    via prefix_view_decreases::<A>
{
    PrefixView { name: c.name + " "@, children: prefix_views(c.children) }
}

#[via_fn]
proof fn prefix_view_decreases<A>(c: CmdView<A>) {
    assert(decreases_to!(c => c.children));
}

/// The shadows of a sequence of command nodes, in order.
pub open spec fn prefix_views<A>(cs: Seq<CmdView<A>>) -> Seq<PrefixView>
    decreases cs,
    via prefix_views_decreases::<A>
{
    if cs.len() == 0 {
        Seq::empty()
    } else {
        seq![prefix_view(cs[0])] + prefix_views(cs.skip(1))
    }
}

#[via_fn]
proof fn prefix_views_decreases<A>(cs: Seq<CmdView<A>>) {
    if cs.len() > 0 {
        assert(decreases_to!(cs => cs[0]));
        assert(cs.skip(1) == cs.subrange(1, cs.len() as int));
        vstd::seq::axiom_seq_subrange_decreases(cs, 1, cs.len() as int);
    }
}

/// The shadow sequence has one entry per node.
pub broadcast proof fn lemma_prefix_views_len<A>(cs: Seq<CmdView<A>>)
    ensures
        #[trigger] prefix_views(cs).len() == cs.len(),
    decreases cs.len(),
{
    if cs.len() > 0 {
        lemma_prefix_views_len(cs.skip(1));
    }
}

/// The shadow sequence, position by position.
pub broadcast proof fn lemma_prefix_views_index<A>(cs: Seq<CmdView<A>>, i: int)
    requires
        0 <= i < cs.len(),
    ensures
        #[trigger] prefix_views(cs)[i] == prefix_view(cs[i]),
    decreases cs.len(),
{
    lemma_prefix_views_len(cs);
    if i > 0 {
        lemma_prefix_views_index(cs.skip(1), i - 1);
    }
}

/// Appending a node appends its shadow.
pub proof fn lemma_prefix_views_push<A>(cs: Seq<CmdView<A>>, c: CmdView<A>)
    ensures
        prefix_views(cs.push(c)) == prefix_views(cs).push(prefix_view(c)),
{
    lemma_prefix_views_len(cs.push(c));
    lemma_prefix_views_len(cs);
    assert forall|i: int| 0 <= i < cs.len() + 1 implies prefix_views(cs.push(c))[i]
        == prefix_views(cs).push(prefix_view(c))[i] by {
        lemma_prefix_views_index(cs.push(c), i);
        if i < cs.len() {
            lemma_prefix_views_index(cs, i);
            assert(cs.push(c)[i] == cs[i]);
        } else {
            assert(cs.push(c)[i] == c);
        }
    }
    assert(prefix_views(cs.push(c)) =~= prefix_views(cs).push(prefix_view(c)));
}

impl PrefixNode {
    /// The shadow of one command node, without children yet.
    fn new<A>(cmd: &Command<A>) -> (n: PrefixNode)
        ensures
            n@ == (PrefixView { name: cmd@.name + " "@, children: Seq::empty() }),
    {
        let n = PrefixNode { name: cmd.name.clone().concat(" "), children: Vec::new() };
        proof {
            assert(n@ =~= PrefixView { name: cmd@.name + " "@, children: Seq::empty() });
        }
        n
    }

    /// Add a child shadow node to this shadow node.
    pub fn add_children(&mut self, child: PrefixNode)
        ensures
            final(self)@ == (PrefixView {
                name: old(self)@.name,
                children: old(self)@.children.push(child@),
            }),
    {
        broadcast use {lemma_pnodes_view_len, lemma_pnode_view_children};

        let ghost old_vec = self.children@;
        let ghost child_view = child@;
        self.children.push(child);
        proof {
            lemma_pnodes_view_push(old_vec, self.children@.last());
            assert(self@ =~= PrefixView {
                name: old(self)@.name,
                children: old(self)@.children.push(child_view),
            });
        }
    }
}

/// The branch drawing in front of a node's name: nothing at the root
/// level, else a joint and a run of dashes that grows with the level.
pub open spec fn dash_prefix(level: nat) -> Seq<char> {
    if level == 0 {
        Seq::empty()
    } else {
        "├"@ + crate::text::repeat_char('─', (4 * level - 2) as nat)
    }
}

/// The printed lines of the shadow tree under one node: the node's own
/// line when it has a name, then its children one level deeper. The level
/// stops growing at the largest machine value.
pub open spec fn tree_lines(n: PrefixView, prefix: Seq<char>, level: nat) -> Seq<Seq<char>>
    decreases n,
    via tree_lines_decreases
{
    if n.name.len() > 0 {
        let next = if level < u32::MAX as nat {
            level + 1
        } else {
            level
        };
        seq![prefix + dash_prefix(level) + n.name] + children_lines(n.children, prefix, next)
    } else {
        children_lines(n.children, prefix, level)
    }
}

#[via_fn]
proof fn tree_lines_decreases(n: PrefixView, prefix: Seq<char>, level: nat) {
    assert(decreases_to!(n => n.children));
}

/// The printed lines of a sequence of shadow nodes, in order.
pub open spec fn children_lines(ns: Seq<PrefixView>, prefix: Seq<char>, level: nat) -> Seq<
    Seq<char>,
>
    decreases ns,
    via children_lines_decreases
{
    if ns.len() == 0 {
        Seq::empty()
    } else {
        tree_lines(ns[0], prefix, level) + children_lines(ns.skip(1), prefix, level)
    }
}

#[via_fn]
proof fn children_lines_decreases(ns: Seq<PrefixView>, prefix: Seq<char>, level: nat) {
    if ns.len() > 0 {
        assert(decreases_to!(ns => ns[0]));
        assert(ns.skip(1) == ns.subrange(1, ns.len() as int));
        vstd::seq::axiom_seq_subrange_decreases(ns, 1, ns.len() as int);
    }
}

/// Whitespace test for one character.
fn is_space(c: char) -> (r: bool)
    ensures
        r == is_space_spec(c),
{
    c == ' ' || c == '\t' || c == '\n' || c == '\r' || c == '\x0b' || c == '\x0c'
}

/// Dropping a counted prefix of spaces, up to the first non-space, trims
/// the whole text.
proof fn lemma_trim_start_at(s: Seq<char>, i: int)
    requires
        0 <= i <= s.len(),
        forall|k: int| 0 <= k < i ==> is_space_spec(s[k]),
        i < s.len() ==> !is_space_spec(s[i]),
    ensures
        trim_start_spec(s) == s.skip(i),
    decreases i,
{
    if i == 0 {
        assert(s.skip(0) =~= s);
    } else {
        assert(is_space_spec(s[0]));
        assert forall|k: int| 0 <= k < i - 1 implies is_space_spec(s.skip(1)[k]) by {
            assert(s.skip(1)[k] == s[k + 1]);
        }
        if i - 1 < s.skip(1).len() {
            assert(s.skip(1)[i - 1] == s[i]);
        }
        lemma_trim_start_at(s.skip(1), i - 1);
        assert(s.skip(1).skip(i - 1) =~= s.skip(i));
    }
}

/// Remove leading whitespace from a string slice.
fn trim_start_exec<'a>(s: &'a str) -> (r: &'a str)
    ensures
        r@ == trim_start_spec(s@),
{
    let len = s.unicode_len();
    let mut i: usize = 0;
    loop
        invariant
            i <= len,
            len == s@.len(),
            forall|k: int| 0 <= k < i ==> is_space_spec(s@[k]),
        ensures
            i <= len,
            len == s@.len(),
            forall|k: int| 0 <= k < i ==> is_space_spec(s@[k]),
            i < len ==> !is_space_spec(s@[i as int]),
        decreases len - i,
    {
        if i >= len {
            break ;
        }
        if !is_space(s.get_char(i)) {
            break ;
        }
        i += 1;
    }
    proof {
        lemma_trim_start_at(s@, i as int);
    }
    s.substring_char(i, len)
}

/// Whether the scan covers the whole child name.
fn full_match_exec(name: &str, scan: &str) -> (r: bool)
    ensures
        r == full_match(name@, scan@),
{
    let nl = name.unicode_len();
    let sl = scan.unicode_len();
    if sl >= nl {
        let head = scan.substring_char(0, nl);
        let r = crate::text::str_eq(head, name);
        proof {
            assert(scan@.take(nl as int) =~= scan@.subrange(0, nl as int));
        }
        r
    } else {
        false
    }
}

/// Whether the scan is a strict prefix of the child name.
fn partial_match_exec(name: &str, scan: &str) -> (r: bool)
    ensures
        r == partial_match(name@, scan@),
{
    let nl = name.unicode_len();
    let sl = scan.unicode_len();
    if sl < nl {
        let head = name.substring_char(0, sl);
        let r = crate::text::str_eq(head, scan);
        proof {
            assert(name@.take(sl as int) =~= name@.subrange(0, sl as int));
        }
        r
    } else {
        false
    }
}

impl PrefixCompleter {
    /// All completions of the line up to the cursor, walking the shadow
    /// tree from this node. The cursor position counts characters.
    pub fn _complete_cmd(node: &PrefixNode, line: &str, pos: usize) -> (r: Vec<String>)
        requires
            pos <= line@.len(),
        ensures
            r.deep_view() == complete_spec(node@, line@.take(pos as int)),
        decreases *node,
    {
        broadcast use {lemma_pnodes_view_len, lemma_pnodes_view_index, lemma_pnode_view_children};

        let upto = line.substring_char(0, pos);
        proof {
            assert(upto@ =~= line@.take(pos as int));
        }
        let scan = trim_start_exec(upto);
        let ghost s = trim_start_spec(line@.take(pos as int));
        let ghost cs = node@.children;
        let n = node.children.len();
        let mut new_line: Vec<String> = Vec::new();
        let mut offset: usize = 0;
        let mut have: bool = false;
        let mut next_i: usize = 0;
        let mut go_next: bool = false;
        proof {
            assert(cs.skip(0) =~= cs);
        }
        let mut j: usize = 0;
        while j < n
            invariant
                j <= n,
                n == node.children@.len(),
                cs == node@.children,
                cs.len() == n,
                s == scan@,
                pos <= line@.len(),
                s == trim_start_spec(line@.take(pos as int)),
                candidates_spec(cs, s) == new_line.deep_view() + candidates_spec(
                    cs.skip(j as int),
                    s,
                ),
                match_count(cs, s) == new_line.len() + match_count(cs.skip(j as int), s),
                have == (new_line.len() > 0),
                have ==> next_i < j && pmatches(cs[next_i as int].name, s),
                have ==> offset as int == (if full_match(cs[next_i as int].name, s) {
                    cs[next_i as int].name.len() as int
                } else {
                    s.len() as int
                }),
                go_next == (exists|k: int| 0 <= k < j && #[trigger] full_match(cs[k].name, s)),
            decreases n - j,
        {
            broadcast use {lemma_pnodes_view_len, lemma_pnodes_view_index, lemma_pnode_view_children};

            let child = &node.children[j];
            proof {
                assert(cs[j as int] == pnode_view(node.children@[j as int]));
                assert(cs.skip(j as int)[0] == cs[j as int]);
                assert(cs.skip(j as int).skip(1) =~= cs.skip(j as int + 1));
                lemma_candidates_len(cs.skip(j as int), s);
                lemma_candidates_len(cs.skip(j as int + 1), s);
            }
            let ghost prev = new_line.deep_view();
            let cname = child.name.as_str();
            if full_match_exec(cname, scan) {
                let nl = cname.unicode_len();
                let sl = scan.unicode_len();
                if sl == nl {
                    new_line.push(String::from_str(" "));
                } else {
                    new_line.push(child.name.clone());
                }
                offset = nl;
                next_i = j;
                have = true;
                go_next = true;
                proof {
                    assert(new_line.deep_view() =~= prev.push(fragment(cs[j as int].name, s)));
                    assert(full_match(cs[j as int].name, s));
                }
            } else {
                if partial_match_exec(cname, scan) {
                    let nl = cname.unicode_len();
                    let sl = scan.unicode_len();
                    let frag = cname.substring_char(sl, nl).to_owned();
                    proof {
                        assert(frag@ =~= cs[j as int].name.skip(s.len() as int));
                    }
                    new_line.push(frag);
                    offset = sl;
                    next_i = j;
                    have = true;
                    proof {
                        assert(new_line.deep_view() =~= prev.push(fragment(cs[j as int].name, s)));
                    }
                }
            }
            proof {
                assert(candidates_spec(cs, s) == new_line.deep_view() + candidates_spec(
                    cs.skip(j as int + 1),
                    s,
                )) by {
                    if pmatches(cs[j as int].name, s) {
                        assert(candidates_spec(cs.skip(j as int), s) =~= seq![
                            fragment(cs[j as int].name, s),
                        ] + candidates_spec(cs.skip(j as int + 1), s));
                        assert(new_line.deep_view() + candidates_spec(cs.skip(j as int + 1), s)
                            =~= prev + candidates_spec(cs.skip(j as int), s));
                    } else {
                        assert(candidates_spec(cs.skip(j as int), s) =~= candidates_spec(
                            cs.skip(j as int + 1),
                            s,
                        ));
                    }
                }
            }
            j += 1;
        }
        proof {
            assert(cs.skip(n as int).len() == 0);
            assert(new_line.deep_view() =~= candidates_spec(cs, s));
            lemma_candidates_len(cs, s);
        }
        if new_line.len() != 1 {
            return new_line;
        }
        proof {
            assert(pmatches(cs[next_i as int].name, s));
            assert(exists|i: int| 0 <= i < cs.len() && #[trigger] pmatches(cs[i].name, s));
            assert(0 <= the_match(cs, s) < cs.len() && pmatches(cs[the_match(cs, s)].name, s));
            lemma_match_unique(cs, s, the_match(cs, s), next_i as int);
            assert(the_match(cs, s) == next_i as int);
        }
        if go_next {
            proof {
                let k = choose|k: int| 0 <= k < n && #[trigger] full_match(cs[k].name, s);
                assert(pmatches(cs[k].name, s));
                lemma_match_unique(cs, s, k, next_i as int);
                assert(full_match(cs[next_i as int].name, s));
            }
            let sl = scan.unicode_len();
            let rest = scan.substring_char(offset, sl);
            proof {
                assert(rest@ =~= s.skip(cs[next_i as int].name.len() as int));
                assert(decreases_to!(*node => node.children));
                assert(decreases_to!(node.children => node.children@));
                assert(decreases_to!(node.children@ => node.children@[next_i as int]));
                assert(decreases_to!(*node => node.children@[next_i as int]));
            }
            let rl = rest.unicode_len();
            let r = PrefixCompleter::_complete_cmd(&node.children[next_i], rest, rl);
            proof {
                assert(rest@.take(rl as int) =~= rest@);
                assert(node.children@[next_i as int]@ == cs[next_i as int]);
                assert(r.deep_view() == complete_spec(node@, line@.take(pos as int)));
            }
            return r;
        }
        proof {
            assert(!full_match(cs[next_i as int].name, s));
            assert(complete_spec(node@, line@.take(pos as int)) == new_line.deep_view());
        }
        new_line
    }

    /// Takes the currently edited line with the cursor position, in
    /// characters, and returns the start position and the completion
    /// candidates for the partial token to be completed.
    pub fn complete_cmd(&self, line: &str, pos: usize) -> (r: (usize, Vec<String>))
        requires
            pos <= line@.len(),
        ensures
            r.0 == pos,
            r.1.deep_view() == complete_spec(self@, line@.take(pos as int)),
    {
        let v = PrefixCompleter::_complete_cmd(&self.tree, line, pos);
        (pos, v)
    }

    /// Complete the line at the cursor: the line-source interface entry.
    pub fn complete(&self, line: &str, pos: usize) -> (r: (usize, Vec<String>))
        requires
            pos <= line@.len(),
        ensures
            r.0 == pos,
            r.1.deep_view() == complete_spec(self@, line@.take(pos as int)),
    {
        self.complete_cmd(line, pos)
    }

    /// Build the shadow tree snapshot of a command tree.
    pub fn new<A>(cmd_tree: &Command<A>) -> (pc: PrefixCompleter)
        ensures
            pc@ == prefix_view(cmd_tree@),
    {
        broadcast use
            {crate::command::lemma_cmds_view_len, crate::command::lemma_cmds_view_index,
            crate::command::lemma_cmd_view_children, lemma_prefix_views_len};

        let mut prefix_tree = PrefixNode::new(cmd_tree);
        let k = cmd_tree.subcommands.len();
        let ghost ccs = cmd_tree@.children;
        proof {
            assert(prefix_views(ccs.take(0)) =~= Seq::<PrefixView>::empty());
        }
        let mut i: usize = 0;
        while i < k
            invariant
                i <= k,
                k == cmd_tree.subcommands@.len(),
                ccs == cmd_tree@.children,
                ccs.len() == k,
                prefix_tree@ == (PrefixView {
                    name: cmd_tree@.name + " "@,
                    children: prefix_views(ccs.take(i as int)),
                }),
            decreases k - i,
        {
            broadcast use
                {crate::command::lemma_cmds_view_len, crate::command::lemma_cmds_view_index,
                crate::command::lemma_cmd_view_children};

            proof {
                assert(ccs[i as int] == crate::command::cmd_view(
                    cmd_tree.subcommands@[i as int],
                ));
            }
            PrefixCompleter::generate_cmd_tree(&mut prefix_tree, &cmd_tree.subcommands[i]);
            proof {
                lemma_prefix_views_push(ccs.take(i as int), ccs[i as int]);
                assert(ccs.take(i as int).push(ccs[i as int]) =~= ccs.take(i as int + 1));
                assert(prefix_tree@ =~= PrefixView {
                    name: cmd_tree@.name + " "@,
                    children: prefix_views(ccs.take(i as int + 1)),
                });
            }
            i += 1;
        }
        proof {
            assert(ccs.take(k as int) =~= ccs);
            assert(prefix_view(cmd_tree@) =~= prefix_tree@);
        }
        Self { tree: prefix_tree }
    }

    /// Print the shadow tree: one line per named node.
    pub fn print_tree(&self, prefix: &str, out: &mut Vec<String>)
        ensures
            final(out).deep_view() == old(out).deep_view() + tree_lines(self@, prefix@, 0),
    {
        PrefixCompleter::_print_tree(&self.tree, prefix, 0, out);
    }

    /// Write the lines of the shadow tree under one node: the node's own
    /// line, when it has a name, then its children one level deeper.
    /// The level saturates at the largest machine value, which no tree
    /// that fits in memory reaches.
    pub fn _print_tree(node: &PrefixNode, prefix: &str, level: u32, buf: &mut Vec<String>)
        ensures
            final(buf).deep_view() == old(buf).deep_view() + tree_lines(
                node@,
                prefix@,
                level as nat,
            ),
        decreases *node,
    {
        broadcast use
            {lemma_pnodes_view_len, lemma_pnodes_view_index, lemma_pnode_view_children,
            crate::text::lemma_repeat_char_len, crate::text::lemma_repeat_char_index};

        let mut next_level = level;
        if !node.name.as_str().is_empty() {
            let mut line = prefix.to_owned();
            if level > 0 {
                line.append("├");
                line.append("──");
                proof {
                    reveal_strlit("├");
                    reveal_strlit("──");
                    assert(line@ =~= prefix@ + "├"@ + crate::text::repeat_char(
                        '─',
                        (4 * 1 - 2) as nat,
                    ));
                }
                let mut k: u32 = 1;
                while k < level
                    invariant
                        1 <= k <= level,
                        line@ == prefix@ + "├"@ + crate::text::repeat_char(
                            '─',
                            (4 * k - 2) as nat,
                        ),
                    decreases level - k,
                {
                    broadcast use
                        {crate::text::lemma_repeat_char_len, crate::text::lemma_repeat_char_index};

                    line.append("────");
                    proof {
                        reveal_strlit("────");
                        assert(line@ =~= prefix@ + "├"@ + crate::text::repeat_char(
                            '─',
                            (4 * (k + 1) - 2) as nat,
                        ));
                    }
                    k += 1;
                }
                proof {
                    assert(line@ == prefix@ + dash_prefix(level as nat));
                }
            } else {
                proof {
                    assert(line@ =~= prefix@ + dash_prefix(level as nat));
                }
            }
            line.append(node.name.as_str());
            let ghost prev = buf.deep_view();
            buf.push(line);
            proof {
                assert(buf.deep_view() =~= prev.push(
                    prefix@ + dash_prefix(level as nat) + node@.name,
                ));
            }
            if level < u32::MAX {
                next_level = level + 1;
            }
        }
        let ghost csv = node@.children;
        let ghost base = buf.deep_view();
        let ghost lvl = next_level as nat;
        let n = node.children.len();
        proof {
            assert(base + children_lines(csv.skip(0), prefix@, lvl) == old(buf).deep_view()
                + tree_lines(node@, prefix@, level as nat)) by {
                assert(csv.skip(0) =~= csv);
                if node@.name.len() > 0 {
                    assert(tree_lines(node@, prefix@, level as nat) == seq![
                        prefix@ + dash_prefix(level as nat) + node@.name,
                    ] + children_lines(csv, prefix@, lvl));
                    assert(base + children_lines(csv, prefix@, lvl) =~= old(buf).deep_view() + (
                    seq![prefix@ + dash_prefix(level as nat) + node@.name] + children_lines(
                        csv,
                        prefix@,
                        lvl,
                    )));
                } else {
                }
            }
        }
        let mut i: usize = 0;
        while i < n
            invariant
                i <= n,
                n == node.children@.len(),
                csv == node@.children,
                csv.len() == n,
                lvl == next_level as nat,
                buf.deep_view() + children_lines(csv.skip(i as int), prefix@, lvl) == old(
                    buf,
                ).deep_view() + tree_lines(node@, prefix@, level as nat),
            decreases n - i,
        {
            broadcast use {lemma_pnodes_view_len, lemma_pnodes_view_index, lemma_pnode_view_children};

            proof {
                assert(csv[i as int] == pnode_view(node.children@[i as int]));
                assert(decreases_to!(*node => node.children));
                assert(decreases_to!(node.children => node.children@));
                assert(decreases_to!(node.children@ => node.children@[i as int]));
                assert(decreases_to!(*node => node.children@[i as int]));
            }
            let ghost before = buf.deep_view();
            PrefixCompleter::_print_tree(&node.children[i], prefix, next_level, buf);
            proof {
                assert(csv.skip(i as int)[0] == csv[i as int]);
                assert(csv.skip(i as int).skip(1) =~= csv.skip(i as int + 1));
                assert(children_lines(csv.skip(i as int), prefix@, lvl) == tree_lines(
                    csv[i as int],
                    prefix@,
                    lvl,
                ) + children_lines(csv.skip(i as int + 1), prefix@, lvl));
                assert(buf.deep_view() =~~= before + tree_lines(csv[i as int], prefix@, lvl));
                assert(buf.deep_view() + children_lines(csv.skip(i as int + 1), prefix@, lvl)
                    =~~= before + children_lines(csv.skip(i as int), prefix@, lvl));
            }
            i += 1;
        }
        proof {
            assert(csv.skip(n as int).len() == 0);
            assert(children_lines(csv.skip(n as int), prefix@, lvl)
                =~= Seq::<Seq<char>>::empty());
            assert(buf.deep_view() =~= buf.deep_view() + children_lines(
                csv.skip(n as int),
                prefix@,
                lvl,
            ));
        }
    }

    /// Append the shadow of one command, with all its children, to a
    /// parent shadow node.
    fn generate_cmd_tree<A>(parent: &mut PrefixNode, cmd: &Command<A>)
        ensures
            final(parent)@ == (PrefixView {
                name: old(parent)@.name,
                children: old(parent)@.children.push(prefix_view(cmd@)),
            }),
        decreases *cmd,
    {
        broadcast use
            {crate::command::lemma_cmds_view_len, crate::command::lemma_cmds_view_index,
            crate::command::lemma_cmd_view_children, lemma_prefix_views_len};

        let mut node = PrefixNode::new(cmd);
        let k = cmd.subcommands.len();
        let ghost ccs = cmd@.children;
        proof {
            assert(prefix_views(ccs.take(0)) =~= Seq::<PrefixView>::empty());
        }
        let mut i: usize = 0;
        while i < k
            invariant
                i <= k,
                k == cmd.subcommands@.len(),
                ccs == cmd@.children,
                ccs.len() == k,
                node@ == (PrefixView {
                    name: cmd@.name + " "@,
                    children: prefix_views(ccs.take(i as int)),
                }),
            decreases k - i,
        {
            broadcast use
                {crate::command::lemma_cmds_view_len, crate::command::lemma_cmds_view_index,
                crate::command::lemma_cmd_view_children};

            proof {
                assert(ccs[i as int] == crate::command::cmd_view(cmd.subcommands@[i as int]));
                assert(decreases_to!(*cmd => cmd.subcommands));
                assert(decreases_to!(cmd.subcommands => cmd.subcommands@));
                assert(decreases_to!(cmd.subcommands@ => cmd.subcommands@[i as int]));
                assert(decreases_to!(*cmd => cmd.subcommands@[i as int]));
            }
            PrefixCompleter::generate_cmd_tree(&mut node, &cmd.subcommands[i]);
            proof {
                lemma_prefix_views_push(ccs.take(i as int), ccs[i as int]);
                assert(ccs.take(i as int).push(ccs[i as int]) =~= ccs.take(i as int + 1));
                assert(node@ =~= PrefixView {
                    name: cmd@.name + " "@,
                    children: prefix_views(ccs.take(i as int + 1)),
                });
            }
            i += 1;
        }
        proof {
            assert(ccs.take(k as int) =~= ccs);
            assert(node@ =~= prefix_view(cmd@));
        }
        parent.add_children(node);
    }
}

} // verus!
