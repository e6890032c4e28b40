use reverb::command_spec::{CallOutcome, CommandCallType, CommandSpec};
use reverb::failure::{Failure, FailureType};

fn parts(f: &Failure) -> (FailureType, String, String) {
    match f {
        Failure::Fatal(e, m) => (FailureType::Fatal, e.clone(), m.clone()),
        Failure::Warning(e, m) => (FailureType::Warning, e.clone(), m.clone()),
    }
}

fn warning(text: &str) -> (FailureType, String, String) {
    (FailureType::Warning, text.to_string(), String::new())
}

fn fatal(text: &str) -> (FailureType, String, String) {
    (FailureType::Fatal, text.to_string(), String::new())
}

fn base() -> CommandSpec<u32> {
    CommandSpec::<u32>::new()
        .add("connect", vec!["connect", "c"], " : connect to the server", Some(1), CommandCallType::NoArgs, None)
        .unwrap()
        .add("say", vec!["say"], " : say something", Some(2), CommandCallType::Args, None)
        .unwrap()
        .add("group", vec!["group", "g"], " : groups", None, CommandCallType::NotCallable, None)
        .unwrap()
        .add("group join", vec!["join"], " : join a group", Some(3), CommandCallType::Args, Some("group"))
        .unwrap()
}

fn run_of(r: Result<CallOutcome<u32>, Failure>) -> (Option<u32>, String) {
    match r {
        Ok(CallOutcome::Run(h, a)) => (h, a),
        Ok(CallOutcome::ShowHelp(t)) => panic!("unexpected help: {}", t),
        Err(f) => panic!("unexpected failure: {:?}", parts(&f)),
    }
}

fn help_of(r: Result<CallOutcome<u32>, Failure>) -> String {
    match r {
        Ok(CallOutcome::ShowHelp(t)) => t,
        Ok(CallOutcome::Run(_, _)) => panic!("unexpected run"),
        Err(f) => panic!("unexpected failure: {:?}", parts(&f)),
    }
}

fn failure_of(r: Result<CallOutcome<u32>, Failure>) -> (FailureType, String, String) {
    match r {
        Err(f) => parts(&f),
        Ok(_) => panic!("expected a failure"),
    }
}

#[test]
fn call_runs_no_args_command_by_any_alias() {
    let spec = base();
    assert_eq!(run_of(spec.call("connect")), (Some(1), String::new()));
    assert_eq!(run_of(spec.call("c")), (Some(1), String::new()));
}

#[test]
fn call_passes_arguments_joined() {
    let spec = base();
    assert_eq!(run_of(spec.call("say hello  world")), (Some(2), "hello  world".to_string()));
    assert_eq!(run_of(spec.call("g join 5")), (Some(3), "5".to_string()));
}

#[test]
fn call_refuses_arguments_to_no_args_command() {
    let spec = base();
    assert_eq!(
        failure_of(spec.call("connect now")),
        warning("Command connect does not take arguments")
    );
}

#[test]
fn call_requires_arguments_for_args_command() {
    let spec = base();
    assert_eq!(failure_of(spec.call("say")), warning("Command say requires arguments"));
    assert_eq!(failure_of(spec.call("group join")), warning("Command group join requires arguments"));
}

#[test]
fn call_refuses_not_callable_command() {
    let spec = base();
    assert_eq!(failure_of(spec.call("group")), warning("Command group is not callable"));
    assert_eq!(
        failure_of(spec.call("group leave now")),
        warning("Command group is not callable, unexpected arguments: leave now")
    );
    assert_eq!(
        failure_of(spec.call("")),
        warning("Command  is not callable, unexpected arguments: ")
    );
}

#[test]
fn root_help_lists_commands_one_level_deep() {
    let spec = base();
    let expected = "Help:\n REVERB commands:\n connect | c : connect to the server\n help | h : Show help for connect command\n say : say something\n group | g : groups\n group | g <args> | help (for more information on this command and its subcommands)\n";
    assert_eq!(help_of(spec.call("help")), expected);
    assert_eq!(help_of(spec.call("h")), expected);
}

#[test]
fn sub_help_prefixes_the_path() {
    let spec = base();
    let expected = "Help:\n group | g : groups\ngroup  join : join a group\ngroup  help | h : Show help for group join command\n";
    assert_eq!(help_of(spec.call("group help")), expected);
    assert_eq!(help_of(spec.call("g h extra words")), expected);
}

#[test]
fn add_refuses_duplicate_name() {
    let r = base().add("connect", vec!["x"], "", None, CommandCallType::NoArgs, None);
    assert_eq!(parts(&r.err().unwrap()), fatal("Command spec node with name connect already exists"));
}

#[test]
fn add_refuses_missing_alias() {
    let r = base().add("x", vec![], "", None, CommandCallType::NoArgs, None);
    assert_eq!(parts(&r.err().unwrap()), fatal("Command spec node must have at least one valid alias"));
}

#[test]
fn add_refuses_alias_with_space() {
    let r = base().add("x", vec!["ok", "a b"], "", None, CommandCallType::NoArgs, None);
    assert_eq!(
        parts(&r.err().unwrap()),
        fatal("Command spec node aliases cannot contain spaces, invalid alias: a b")
    );
}

#[test]
fn add_refuses_reserved_help_alias() {
    let r = base().add("x", vec!["h"], "", None, CommandCallType::NoArgs, None);
    assert_eq!(
        parts(&r.err().unwrap()),
        fatal("Command spec node aliases cannot be 'h', this is a reserved help alias")
    );
}

#[test]
fn add_refuses_help_parent() {
    let r = base().add("x", vec!["x"], "", None, CommandCallType::NoArgs, Some("root help"));
    assert_eq!(
        parts(&r.err().unwrap()),
        fatal("Parent command root help cannot be a help command, or command cant end with reserved ' help' suffix")
    );
}

#[test]
fn add_refuses_missing_parent() {
    let r = base().add("x", vec!["x"], "", None, CommandCallType::NoArgs, Some("nope"));
    assert_eq!(parts(&r.err().unwrap()), fatal("Parent node nope not found when adding command spec node"));
}

#[test]
fn add_refuses_sibling_alias_clash() {
    let r = base().add("conn2", vec!["c"], "", None, CommandCallType::NoArgs, None);
    assert_eq!(
        parts(&r.err().unwrap()),
        fatal("Parent node  already has a child with alias c, this should not be possible please report this bug")
    );
}

#[test]
fn add_refuses_child_of_args_command() {
    let r = base().add("x", vec!["x"], "", None, CommandCallType::NoArgs, Some("say"));
    assert_eq!(
        parts(&r.err().unwrap()),
        fatal("Parent node say is an args command, it cannot have children, this should not be possible please report this bug")
    );
}

#[test]
fn add_places_help_command_once() {
    let spec = CommandSpec::<u32>::new()
        .add("a", vec!["a"], " : first", Some(1), CommandCallType::NoArgs, None)
        .unwrap()
        .add("b", vec!["b"], " : second", Some(2), CommandCallType::NoArgs, None)
        .unwrap();
    let help = help_of(spec.call("help"));
    assert_eq!(help, "Help:\n REVERB commands:\n a : first\n help | h : Show help for a command\n b : second\n");
}

#[test]
fn new_tree_is_not_callable() {
    let spec = CommandSpec::<u32>::new();
    assert_eq!(failure_of(spec.call("anything")), warning("Command  is not callable, unexpected arguments: anything"));
}

#[test]
fn input_sliced_out_of_range_is_reported() {
    // the empty word selects a command past the end of the input
    let spec = CommandSpec::<u32>::new()
        .add("outer", vec![""], " : outer", None, CommandCallType::NotCallable, None)
        .unwrap()
        .add("inner", vec![""], " : inner", Some(4), CommandCallType::Args, Some("outer"))
        .unwrap();
    assert!(spec.try_call("").is_none());
    assert_eq!(failure_of(spec.try_call("x").unwrap()), warning("Command  is not callable, unexpected arguments: x"));
    assert!(matches!(spec.try_call("help"), Some(Ok(CallOutcome::ShowHelp(_)))));
}
