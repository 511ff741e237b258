use xcli::Action;
use xcli::App;
use xcli::Command;
use xcli::PrefixCompleter;
use xcli::ShellState;
use xcli::XcliResult;

struct NoAct;

impl Action for NoAct {
    type Data = ();

    fn run(
        &self,
        _app: &App<Self>,
        _state: &mut ShellState,
        _args: &[&str],
        _out: &mut Vec<String>,
    ) -> XcliResult {
        Ok(xcli::CmdExeCode::Success)
    }
}

fn log_level_tree() -> Command<NoAct> {
    Command::new("").subcommand(Command::new("log").subcommand(Command::new("level")))
}

fn para_tree() -> Command<NoAct> {
    Command::new("")
        .subcommand(Command::new("para1"))
        .subcommand(Command::new("para2"))
}

#[test]
fn single_full_match_descends_to_placeholder() {
    // root -> {"log "} -> {"level "}; "log level" with the cursor at the
    // end completes to the single-space placeholder at the second level.
    let pc = PrefixCompleter::new(&log_level_tree());
    let (start, cands) = pc.complete_cmd("log level", 9);
    assert_eq!(start, 9);
    assert_eq!(cands, vec![" ".to_string()]);
}

#[test]
fn exact_token_completes_to_placeholder() {
    let pc = PrefixCompleter::new(&log_level_tree());
    let (_, cands) = pc.complete_cmd("log ", 4);
    assert_eq!(cands, vec!["level ".to_string()]);
    // A fully typed token with its space descends into the node; a node
    // without children then has nothing left to offer.
    let (_, cands) = pc.complete_cmd("log level ", 10);
    assert!(cands.is_empty());
}

#[test]
fn partial_token_completes_with_the_missing_suffix() {
    let pc = PrefixCompleter::new(&log_level_tree());
    let (_, cands) = pc.complete_cmd("lo", 2);
    assert_eq!(cands, vec!["g ".to_string()]);
    let (_, cands) = pc.complete_cmd("log lev", 7);
    assert_eq!(cands, vec!["el ".to_string()]);
}

#[test]
fn ambiguous_prefix_reports_all_candidates_and_does_not_descend() {
    let pc = PrefixCompleter::new(&para_tree());
    let (start, cands) = pc.complete_cmd("para", 4);
    assert_eq!(start, 4);
    assert_eq!(cands, vec!["1 ".to_string(), "2 ".to_string()]);
}

#[test]
fn no_match_returns_no_candidates() {
    let pc = PrefixCompleter::new(&para_tree());
    let (_, cands) = pc.complete_cmd("zzz", 3);
    assert!(cands.is_empty());
}

#[test]
fn shadow_nodes_can_be_assembled_by_hand() {
    let mut root = xcli::PrefixNode { name: " ".to_string(), children: vec![] };
    root.add_children(xcli::PrefixNode { name: "alpha ".to_string(), children: vec![] });
    root.add_children(xcli::PrefixNode { name: "beta ".to_string(), children: vec![] });
    let cands = PrefixCompleter::_complete_cmd(&root, "al", 2);
    assert_eq!(cands, vec!["pha ".to_string()]);
}

#[test]
fn completion_is_idempotent() {
    let pc = PrefixCompleter::new(&para_tree());
    let first = pc.complete_cmd("pa", 2);
    let second = pc.complete_cmd("pa", 2);
    assert_eq!(first, second);
    let through_interface = pc.complete("pa", 2);
    assert_eq!(through_interface, first);

    let pc2 = PrefixCompleter::new(&log_level_tree());
    let a = pc2.complete_cmd("log le", 6);
    let b = pc2.complete_cmd("log le", 6);
    assert_eq!(a, b);
}

#[test]
fn empty_scan_matches_every_child() {
    let app: App<NoAct> = App::new("x");
    let pc = PrefixCompleter::new(&app.tree);
    let (_, cands) = pc.complete_cmd("", 0);
    assert_eq!(
        cands,
        vec![
            "tree ".to_string(),
            "mode ".to_string(),
            "log ".to_string(),
            "help ".to_string(),
            "exit ".to_string(),
            "version ".to_string(),
        ]
    );
}

#[test]
fn leading_whitespace_is_trimmed() {
    let pc = PrefixCompleter::new(&para_tree());
    let (_, cands) = pc.complete_cmd("   para", 7);
    assert_eq!(cands, vec!["1 ".to_string(), "2 ".to_string()]);
}

#[test]
fn cursor_position_cuts_the_line() {
    let pc = PrefixCompleter::new(&log_level_tree());
    // Only the text before the cursor is considered.
    let (_, cands) = pc.complete_cmd("log level", 2);
    assert_eq!(cands, vec!["g ".to_string()]);
}

#[test]
fn child_with_empty_name_still_participates() {
    let root: Command<NoAct> = Command::new("").subcommand(Command::new(""));
    let pc = PrefixCompleter::new(&root);
    // The empty-named child's shadow is a single space: on an empty scan
    // it is a partial match contributing that space.
    let (_, cands) = pc.complete_cmd("", 0);
    assert_eq!(cands, vec![" ".to_string()]);
}

#[test]
fn completer_is_a_snapshot_of_the_tree() {
    let mut app: App<NoAct> = App::new("x");
    let pc = PrefixCompleter::new(&app.tree);
    app.add_subcommand(Command::new("later"));
    // The shadow tree was built before "later" was added.
    let (_, cands) = pc.complete_cmd("lat", 3);
    assert!(cands.is_empty());
    // A fresh snapshot sees it.
    let pc2 = PrefixCompleter::new(&app.tree);
    let (_, cands2) = pc2.complete_cmd("lat", 3);
    assert_eq!(cands2, vec!["er ".to_string()]);
}

#[test]
fn print_tree_draws_one_line_per_named_node() {
    let root: Command<NoAct> = Command::new("")
        .subcommand(Command::new("top").subcommand(Command::new("sub")))
        .subcommand(Command::new("next"));
    let pc = PrefixCompleter::new(&root);
    let mut out: Vec<String> = vec![];
    pc.print_tree("", &mut out);
    // The root's shadow is a single space (empty name plus the suffix),
    // so it prints its own line; its children indent one level deeper.
    assert_eq!(
        out,
        vec![
            " ".to_string(),
            "├──top ".to_string(),
            "├──────sub ".to_string(),
            "├──next ".to_string(),
        ]
    );
}
