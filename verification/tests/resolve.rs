use xcli::Action;
use xcli::App;
use xcli::CmdExeCode;
use xcli::Command;
use xcli::EditMode;
use xcli::LevelFilter;
use xcli::ShellState;
use xcli::XcliError;
use xcli::XcliResult;

enum TestAct {
    Test1,
    Mismatch,
    Bad,
    Missing,
    Boom,
}

impl Action for TestAct {
    type Data = i32;

    fn run(
        &self,
        _app: &App<Self>,
        _state: &mut ShellState,
        args: &[&str],
        out: &mut Vec<String>,
    ) -> XcliResult {
        match self {
            TestAct::Test1 => {
                out.push("tested".to_string());
                Ok(CmdExeCode::Success)
            }
            TestAct::Mismatch => Err(XcliError::MismatchArgument(10, args.len())),
            TestAct::Bad => Err(XcliError::BadArgument("bad".to_string())),
            TestAct::Missing => Err(XcliError::MissingArgument),
            TestAct::Boom => Err(XcliError::Other("boom".to_string())),
        }
    }
}

fn test_app() -> App<TestAct> {
    let mut app: App<TestAct> = App::new("testapp");
    app.add_subcommand(
        Command::new("test1")
            .about("prints tested")
            .usage("test1")
            .action(TestAct::Test1),
    );
    app.add_subcommand(
        Command::new("mismatch")
            .usage("mismatch <ten args>")
            .action(TestAct::Mismatch),
    );
    app.add_subcommand(Command::new("bad").usage("bad <arg>").action(TestAct::Bad));
    app.add_subcommand(
        Command::new("missing")
            .usage("missing <arg>")
            .action(TestAct::Missing),
    );
    app.add_subcommand(Command::new("boom").action(TestAct::Boom));
    app.add_subcommand(
        Command::new_with_alias("alias1", "t1")
            .usage("alias1")
            .action(TestAct::Test1),
    );
    app.add_subcommand(
        Command::new("cat")
            .about("a category")
            .subcommand(
                Command::new("inner")
                    .about("inner leaf")
                    .usage("cat inner")
                    .action(TestAct::Test1),
            )
            .subcommand(Command::new("other").about("other leaf").action(TestAct::Boom)),
    );
    app
}

fn fresh_state() -> ShellState {
    ShellState::new(LevelFilter::Info, EditMode::Emacs)
}

#[test]
fn dispatch_mismatch_reports_counts_and_usage() {
    let app = test_app();
    let mut state = fresh_state();
    let mut out: Vec<String> = vec![];
    let r = app.tree.run_sub(&app, &mut state, &["mismatch", "x", "y"], &mut out);
    assert_eq!(r, Err(XcliError::MismatchArgument(10, 2)));
    assert_eq!(out.len(), 2);
    assert!(out[0].contains("wanted: 10"));
    assert!(out[0].contains("actual: 2"));
    assert_eq!(out[1], "Usage:       mismatch <ten args>");
}

#[test]
fn dispatch_runs_the_matched_action_once() {
    let app = test_app();
    let mut state = fresh_state();
    let mut out: Vec<String> = vec![];
    let r = app.tree.run_sub(&app, &mut state, &["test1"], &mut out);
    assert_eq!(r, Ok(CmdExeCode::Success));
    assert_eq!(out, vec!["tested".to_string()]);
}

#[test]
fn dispatch_hands_leftover_tokens_to_the_action() {
    let app = test_app();
    let mut state = fresh_state();
    let mut out: Vec<String> = vec![];
    // "test1" has an action and no children: the extra token is an
    // argument, and exactly one action runs.
    let r = app.tree.run_sub(&app, &mut state, &["test1", "extra"], &mut out);
    assert_eq!(r, Ok(CmdExeCode::Success));
    assert_eq!(out, vec!["tested".to_string()]);
}

#[test]
fn dispatch_descends_into_nested_commands() {
    let app = test_app();
    let mut state = fresh_state();
    let mut out: Vec<String> = vec![];
    let r = app.tree.run_sub(&app, &mut state, &["cat", "inner"], &mut out);
    assert_eq!(r, Ok(CmdExeCode::Success));
    assert_eq!(out, vec!["tested".to_string()]);
}

#[test]
fn alias_resolves_like_the_name() {
    let app = test_app();

    let by_name = app.tree.locate_subcommand(&["alias1"]).expect("by name");
    let by_alias = app.tree.locate_subcommand(&["t1"]).expect("by alias");
    assert_eq!(by_name.get_name(), by_alias.get_name());
    assert_eq!(by_name.get_alias(), &Some("t1".to_string()));

    let mut state = fresh_state();
    let mut out1: Vec<String> = vec![];
    let r1 = app.tree.run_sub(&app, &mut state, &["alias1"], &mut out1);
    let mut out2: Vec<String> = vec![];
    let r2 = app.tree.run_sub(&app, &mut state, &["t1"], &mut out2);
    assert_eq!(r1, r2);
    assert_eq!(out1, out2);
    assert_eq!(out1, vec!["tested".to_string()]);
}

#[test]
fn empty_tokens_on_category_print_help_and_children() {
    let app = test_app();
    let mut state = fresh_state();
    let mut out: Vec<String> = vec![];
    let r = app.tree.run_sub(&app, &mut state, &["cat"], &mut out);
    assert_eq!(r, Ok(CmdExeCode::Success));
    // The node's own help, then one summary line per child.
    assert_eq!(out.len(), 3);
    assert!(out[0].starts_with("Command:     cat"));
    assert!(out[0].contains("Description: a category"));
    assert!(out[1].contains("inner"));
    assert!(out[1].contains(": cat inner"));
    assert!(out[2].contains("other"));
}

#[test]
fn leftover_tokens_without_action_report_unknown_command() {
    let app = test_app();
    let mut state = fresh_state();
    let mut out: Vec<String> = vec![];
    let r = app.tree.run_sub(&app, &mut state, &["cat", "nope", "x"], &mut out);
    assert_eq!(r, Ok(CmdExeCode::Success));
    assert_eq!(out, vec!["Unknown command or arguments : [\"nope\", \"x\"]".to_string()]);
}

#[test]
fn bad_argument_prints_message_and_usage() {
    let app = test_app();
    let mut state = fresh_state();
    let mut out: Vec<String> = vec![];
    let r = app.tree.run_sub(&app, &mut state, &["bad", "z"], &mut out);
    assert_eq!(r, Err(XcliError::BadArgument("bad".to_string())));
    assert_eq!(out.len(), 2);
    assert_eq!(out[0], "Bad argument: bad\n");
    assert_eq!(out[1], "Usage:       bad <arg>");
}

#[test]
fn missing_argument_prints_message_and_usage() {
    let app = test_app();
    let mut state = fresh_state();
    let mut out: Vec<String> = vec![];
    let r = app.tree.run_sub(&app, &mut state, &["missing"], &mut out);
    assert_eq!(r, Err(XcliError::MissingArgument));
    assert_eq!(out.len(), 2);
    assert_eq!(out[0], "Missing required argument\n");
    assert_eq!(out[1], "Usage:       missing <arg>");
}

#[test]
fn other_error_prints_verbatim_and_nothing_else() {
    let app = test_app();
    let mut state = fresh_state();
    let mut out: Vec<String> = vec![];
    let r = app.tree.run_sub(&app, &mut state, &["boom"], &mut out);
    assert_eq!(r, Err(XcliError::Other("boom".to_string())));
    assert_eq!(out, vec!["boom".to_string()]);
}

#[test]
fn locate_returns_the_node_only_when_every_token_matches() {
    let app = test_app();
    let root = &app.tree;

    let found = root.locate_subcommand(&["cat", "inner"]).expect("found");
    assert_eq!(found.get_name(), "inner");

    // Exhausted tokens locate the node itself.
    let root_again = root.locate_subcommand(&[]).expect("root");
    assert_eq!(root_again.get_name(), "");

    // A mismatch at any level yields nothing, never a partial node.
    assert!(root.locate_subcommand(&["cat", "zzz"]).is_none());
    assert!(root.locate_subcommand(&["zzz"]).is_none());
    assert!(root.locate_subcommand(&["test1", "deeper"]).is_none());
}

#[test]
fn earlier_sibling_wins_on_duplicate_names() {
    let mut app: App<TestAct> = App::new("dup");
    app.add_subcommand(Command::new("same").usage("first same").action(TestAct::Test1));
    app.add_subcommand(Command::new("same").usage("second same").action(TestAct::Boom));
    let mut state = fresh_state();
    let mut out: Vec<String> = vec![];
    let r = app.tree.run_sub(&app, &mut state, &["same"], &mut out);
    assert_eq!(r, Ok(CmdExeCode::Success));
    assert_eq!(out, vec!["tested".to_string()]);
}

#[test]
fn for_each_visits_every_node_with_its_path() {
    let app = test_app();
    let visited: std::cell::RefCell<Vec<String>> = std::cell::RefCell::new(vec![]);
    let f = |c: &Command<TestAct>, p: &str| {
        let mut v = visited.borrow_mut();
        v.push(format!("{}={}", p, c.get_name()));
    };
    app.tree.for_each("", &f);
    let v = visited.borrow();
    assert!(v.contains(&"=".to_string()));
    assert!(v.contains(&"/test1=test1".to_string()));
    assert!(v.contains(&"/cat=cat".to_string()));
    assert!(v.contains(&"/cat/inner=inner".to_string()));
    assert_eq!(v.len(), 16);
}
