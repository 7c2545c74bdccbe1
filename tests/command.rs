use rspi::command::{parse_command_line, plan_command, stdin_line, ChildProbe, CommandLine, SessionError};

#[test]
fn program_and_arguments() {
    match parse_command_line("echo hello") {
        CommandLine::Program { program, args } => {
            assert_eq!(program, "echo");
            assert_eq!(args, vec!["hello"]);
        }
        other => panic!("unexpected {:?}", other),
    }
}

#[test]
fn cd_is_a_change_of_directory() {
    match parse_command_line("cd /tmp") {
        CommandLine::ChangeDir(t) => assert_eq!(t, "/tmp"),
        other => panic!("unexpected {:?}", other),
    }
    match parse_command_line("  cd   my  dir ") {
        CommandLine::ChangeDir(t) => assert_eq!(t, "my dir"),
        other => panic!("unexpected {:?}", other),
    }
    match parse_command_line("cd") {
        CommandLine::ChangeDir(t) => assert_eq!(t, ""),
        other => panic!("unexpected {:?}", other),
    }
}

#[test]
fn cd_needs_the_whole_word() {
    match parse_command_line("cdx a") {
        CommandLine::Program { program, args } => {
            assert_eq!(program, "cdx");
            assert_eq!(args, vec!["a"]);
        }
        other => panic!("unexpected {:?}", other),
    }
}

#[test]
fn blank_line_is_empty() {
    assert!(matches!(parse_command_line(""), CommandLine::Empty));
    assert!(matches!(parse_command_line(" \t "), CommandLine::Empty));
}

#[test]
fn running_child_makes_session_busy() {
    assert_eq!(plan_command(ChildProbe::Running, "ls").err(), Some(SessionError::Busy));
    assert_eq!(plan_command(ChildProbe::Running, "cd /").err(), Some(SessionError::Busy));
}

#[test]
fn exited_child_is_reaped_first() {
    let plan = plan_command(ChildProbe::Exited, "ls -l").unwrap();
    assert!(plan.reap);
    assert!(matches!(plan.action, CommandLine::Program { .. }));
    let plan = plan_command(ChildProbe::NoChild, "").unwrap();
    assert!(!plan.reap);
    assert!(matches!(plan.action, CommandLine::Empty));
}

#[test]
fn stdin_gets_a_newline() {
    assert_eq!(stdin_line("yes"), "yes\n");
    assert_eq!(stdin_line(""), "\n");
}
