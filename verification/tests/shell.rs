use xcli::Action;
use xcli::App;
use xcli::CmdExeCode;
use xcli::Command;
use xcli::EditMode;
use xcli::LevelFilter;
use xcli::ShellState;
use xcli::XcliError;
use xcli::XcliResult;
use xcli::confirm_quit;
use xcli::text::usize_to_string;

struct Plain;

impl Action for Plain {
    type Data = u64;

    fn run(
        &self,
        app: &App<Self>,
        _state: &mut ShellState,
        _args: &[&str],
        out: &mut Vec<String>,
    ) -> XcliResult {
        match app.get_handler("data") {
            Ok(v) => {
                out.push(usize_to_string(*v as usize));
                Ok(CmdExeCode::Success)
            }
            Err(e) => Err(e),
        }
    }
}

fn fresh_state() -> ShellState {
    ShellState::new(LevelFilter::Info, EditMode::Emacs)
}

#[test]
fn metadata_builders_and_getters() {
    let app: App<Plain> = App::new("myapp").version("v0.5").author("someone");
    assert_eq!(app.get_name(), "myapp");
    assert_eq!(app.get_version(), "v0.5");
    assert_eq!(app.get_author(), "someone");

    let bare: App<Plain> = App::new("bare");
    assert_eq!(bare.get_author(), "");
    assert_eq!(bare.get_version(), "");
}

#[test]
fn version_command_prints_the_metadata() {
    let app: App<Plain> = App::new("myapp").version("v0.5").author("someone");
    let mut state = fresh_state();
    let mut out: Vec<String> = vec![];
    let r = app.tree.run_sub(&app, &mut state, &["version"], &mut out);
    assert_eq!(r, Ok(CmdExeCode::Success));
    assert_eq!(out, vec!["myapp\nsomeone\nv0.5\n".to_string()]);

    // The alias resolves to the same node.
    let mut out2: Vec<String> = vec![];
    let r2 = app.tree.run_sub(&app, &mut state, &["v"], &mut out2);
    assert_eq!(r2, Ok(CmdExeCode::Success));
    assert_eq!(out2, out);
}

#[test]
fn exit_command_returns_the_terminal_code() {
    let app: App<Plain> = App::new("x");
    let mut state = fresh_state();
    let mut out: Vec<String> = vec![];
    let r = app.tree.run_sub(&app, &mut state, &["exit"], &mut out);
    assert_eq!(r, Ok(CmdExeCode::Exit));
    assert!(out.is_empty());
}

#[test]
fn log_command_queries_and_sets_the_level() {
    let app: App<Plain> = App::new("x");
    let mut state = fresh_state();

    let mut out: Vec<String> = vec![];
    let r = app.tree.run_sub(&app, &mut state, &["log"], &mut out);
    assert_eq!(r, Ok(CmdExeCode::Success));
    assert_eq!(out, vec!["Global log level is: INFO".to_string()]);

    let mut out2: Vec<String> = vec![];
    let r2 = app.tree.run_sub(&app, &mut state, &["log", "trace"], &mut out2);
    assert_eq!(r2, Ok(CmdExeCode::Success));
    assert_eq!(state.log_level, LevelFilter::Trace);
    assert!(out2.is_empty());

    // Case folding decides: an uppercase token names the same level.
    let mut out3: Vec<String> = vec![];
    let r3 = app.tree.run_sub(&app, &mut state, &["l", "DEBUG"], &mut out3);
    assert_eq!(r3, Ok(CmdExeCode::Success));
    assert_eq!(state.log_level, LevelFilter::Debug);
}

#[test]
fn log_command_rejects_unknown_levels_and_extra_tokens() {
    let app: App<Plain> = App::new("x");
    let mut state = fresh_state();

    let mut out: Vec<String> = vec![];
    let r = app.tree.run_sub(&app, &mut state, &["log", "noisy"], &mut out);
    assert_eq!(r, Err(XcliError::BadArgument("noisy, unknown log level".to_string())));
    assert_eq!(state.log_level, LevelFilter::Info);
    assert_eq!(out.len(), 2);
    assert_eq!(out[0], "Bad argument: noisy, unknown log level\n");
    assert_eq!(out[1], "Usage:       log [off|error|warn|info|debug|trace]");

    let mut out2: Vec<String> = vec![];
    let r2 = app.tree.run_sub(&app, &mut state, &["log", "a", "b"], &mut out2);
    assert_eq!(r2, Err(XcliError::BadSyntax));
    assert_eq!(out2[0], "Bad syntax\n");
    assert_eq!(out2[1], "Usage:       log [off|error|warn|info|debug|trace]");
}

#[test]
fn mode_command_queries_and_sets_the_edit_mode() {
    let app: App<Plain> = App::new("x");
    let mut state = fresh_state();

    let mut out: Vec<String> = vec![];
    let r = app.tree.run_sub(&app, &mut state, &["mode"], &mut out);
    assert_eq!(r, Ok(CmdExeCode::Success));
    assert_eq!(out, vec!["Current edit mode is: Emacs".to_string()]);

    // ASCII case folding: "VI" names the vi mode.
    let mut out2: Vec<String> = vec![];
    let r2 = app.tree.run_sub(&app, &mut state, &["mode", "VI"], &mut out2);
    assert_eq!(r2, Ok(CmdExeCode::Success));
    assert_eq!(state.edit_mode, EditMode::Vi);

    let mut out3: Vec<String> = vec![];
    let r3 = app.tree.run_sub(&app, &mut state, &["mode", "teco"], &mut out3);
    assert_eq!(r3, Err(XcliError::BadArgument("teco".to_string())));
    assert_eq!(state.edit_mode, EditMode::Vi);

    let mut out4: Vec<String> = vec![];
    let r4 = app.tree.run_sub(&app, &mut state, &["mode", "vi", "x"], &mut out4);
    assert_eq!(r4, Err(XcliError::BadSyntax));
}

#[test]
fn help_lists_root_children_and_describes_subtrees() {
    let app: App<Plain> = App::new("x");
    let mut state = fresh_state();

    let mut out: Vec<String> = vec![];
    let r = app.tree.run_sub(&app, &mut state, &["help"], &mut out);
    assert_eq!(r, Ok(CmdExeCode::Success));
    assert_eq!(out.len(), 6);
    assert_eq!(out[0], "tree            : tree");
    assert_eq!(out[2], "log, l          : log [off|error|warn|info|debug|trace]");
    assert_eq!(out[4], "exit            : exit");

    let mut out2: Vec<String> = vec![];
    let r2 = app.tree.run_sub(&app, &mut state, &["help", "log"], &mut out2);
    assert_eq!(r2, Ok(CmdExeCode::Success));
    assert_eq!(
        out2,
        vec![
            "Command:     log, l \nUsage:       log [off|error|warn|info|debug|trace]\nDescription: manages log level filter"
                .to_string(),
        ]
    );

    let mut out3: Vec<String> = vec![];
    let r3 = app.tree.run_sub(&app, &mut state, &["h", "nope"], &mut out3);
    assert_eq!(r3, Ok(CmdExeCode::Success));
    assert_eq!(out3, vec!["Unrecognized command [\"nope\"]".to_string()]);
}

#[test]
fn tree_command_prints_the_whole_tree() {
    let app: App<Plain> = App::new("x");
    let mut state = fresh_state();
    let mut out: Vec<String> = vec![];
    let r = app.tree.run_sub(&app, &mut state, &["tree"], &mut out);
    assert_eq!(r, Ok(CmdExeCode::Success));
    // The root shadow line, then one line per command.
    assert_eq!(out.len(), 7);
    assert_eq!(out[0], " ");
    assert_eq!(out[1], "├──tree ");
    assert_eq!(out[6], "├──version ");
}

#[test]
fn unknown_top_level_command_is_echoed_back() {
    let app: App<Plain> = App::new("x");
    let mut state = fresh_state();
    let mut out: Vec<String> = vec![];
    let r = app.tree.run_sub(&app, &mut state, &["nope", "x"], &mut out);
    assert_eq!(r, Ok(CmdExeCode::Success));
    assert_eq!(out, vec!["Unknown command or arguments : [\"nope\", \"x\"]".to_string()]);
}

#[test]
fn userdata_registry_finds_the_registered_value() {
    let mut app: App<Plain> = App::new("x");
    app.add_subcommand_with_userdata(Command::new("data").usage("data").action(Plain), 42u64);
    let mut state = fresh_state();
    let mut out: Vec<String> = vec![];
    let r = app.tree.run_sub(&app, &mut state, &["data"], &mut out);
    assert_eq!(r, Ok(CmdExeCode::Success));
    assert_eq!(out, vec!["42".to_string()]);
}

#[test]
fn missing_handler_is_a_distinct_error() {
    let mut app: App<Plain> = App::new("x");
    app.add_subcommand(Command::new("data").usage("data").action(Plain));
    let r = app.get_handler("data");
    assert_eq!(r, Err(XcliError::MissingHandler("data".to_string())));
    assert_eq!(
        r.unwrap_err().message(),
        "Missing handler: data not found".to_string()
    );
}

#[test]
fn newest_registration_wins_in_the_registry() {
    let mut app: App<Plain> = App::new("x");
    app.add_subcommand_with_userdata(Command::new("k").action(Plain), 1u64);
    app.add_subcommand_with_userdata(Command::new("k").action(Plain), 2u64);
    assert_eq!(app.get_handler("k"), Ok(&2u64));
}

#[test]
fn error_messages_render_exactly() {
    assert_eq!(XcliError::BadSyntax.message(), "Bad syntax");
    assert_eq!(XcliError::MissingArgument.message(), "Missing required argument");
    assert_eq!(XcliError::BadArgument("x".to_string()).message(), "Bad argument: x");
    assert_eq!(
        XcliError::MismatchArgument(10, 2).message(),
        "Mismatched argument(s): wanted: 10, actual: 2"
    );
    assert_eq!(
        XcliError::MissingHandler("h".to_string()).message(),
        "Missing handler: h not found"
    );
    assert_eq!(XcliError::Other("just this".to_string()).message(), "just this");
}

#[test]
fn decimal_rendering_is_exact() {
    assert_eq!(usize_to_string(0), "0");
    assert_eq!(usize_to_string(7), "7");
    assert_eq!(usize_to_string(10), "10");
    assert_eq!(usize_to_string(90210), "90210");
}

#[test]
fn quit_confirmation_defaults_to_staying() {
    assert!(confirm_quit("y"));
    assert!(confirm_quit("Y"));
    assert!(!confirm_quit(""));
    assert!(!confirm_quit("n"));
    assert!(!confirm_quit("yes"));
}

#[test]
fn level_parse_accepts_any_case_and_rejects_the_rest() {
    assert_eq!(LevelFilter::parse("off"), Some(LevelFilter::Off));
    assert_eq!(LevelFilter::parse("ERROR"), Some(LevelFilter::Error));
    assert_eq!(LevelFilter::parse("Warn"), Some(LevelFilter::Warn));
    assert_eq!(LevelFilter::parse("info"), Some(LevelFilter::Info));
    assert_eq!(LevelFilter::parse("DeBuG"), Some(LevelFilter::Debug));
    assert_eq!(LevelFilter::parse("trace"), Some(LevelFilter::Trace));
    assert_eq!(LevelFilter::parse("verbose"), None);
    assert_eq!(LevelFilter::parse(""), None);
}
