use arch_installer::command::split_command;
use arch_installer::error::StorageError;

#[test]
fn an_empty_command_is_missing() {
    assert!(matches!(split_command(&Vec::new()), Err(StorageError::MissingCommand)));
}

#[test]
fn program_and_arguments_are_split() {
    let (program, args) = split_command(&vec!["echo".to_string(), "true".to_string()]).unwrap();
    assert_eq!(program, "echo");
    assert_eq!(args, vec!["true".to_string()]);
    let (program, args) = split_command(&vec!["echo".to_string()]).unwrap();
    assert_eq!(program, "echo");
    assert!(args.is_empty());
}
