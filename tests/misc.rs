use turbo_aggregation::cli::EnvMode;
use turbo_aggregation::cli::LogOrder;
use turbo_aggregation::cli::LogPrefix;
use turbo_aggregation::cli::OutputLogsMode;
use turbo_aggregation::cli::Verbosity;
use turbo_aggregation::code_builder::CodeBuilder;
use turbo_aggregation::module_id::ModuleId;
use turbo_aggregation::task_error::TaskError;

#[test]
fn module_id_parses_numbers() {
    assert_eq!(ModuleId::parse("42"), Ok(ModuleId::Number(42)));
    assert_eq!(ModuleId::parse("+7"), Ok(ModuleId::Number(7)));
    assert_eq!(ModuleId::parse("4294967295"), Ok(ModuleId::Number(u32::MAX)));
    assert_eq!(
        ModuleId::parse("4294967296"),
        Ok(ModuleId::String("4294967296".to_string()))
    );
    assert_eq!(ModuleId::parse("12a"), Ok(ModuleId::String("12a".to_string())));
    assert_eq!(ModuleId::parse("+"), Ok(ModuleId::String("+".to_string())));
    assert_eq!(ModuleId::parse(""), Ok(ModuleId::String(String::new())));
}

#[test]
fn task_error_exit_code() {
    let exited = TaskError::from_exit("web#build".to_string(), "next build".to_string(), 3);
    assert_eq!(exited.exit_code(), Some(3));
    let spawn = TaskError::from_spawn("web#build".to_string(), "not found".to_string());
    assert_eq!(spawn.exit_code(), None);
    assert_eq!(TaskError::internal("x".to_string()).exit_code(), None);
}

#[test]
fn cli_defaults_and_verbosity() {
    assert_eq!(OutputLogsMode::default(), OutputLogsMode::Full);
    assert_eq!(LogOrder::default(), LogOrder::Auto);
    assert_eq!(EnvMode::default(), EnvMode::Infer);
    assert_eq!(LogPrefix::default(), LogPrefix::Auto);
    assert_eq!(Verbosity { verbosity: Some(2), v: 5 }.level(), 2);
    assert_eq!(Verbosity { verbosity: None, v: 3 }.level(), 3);
}

#[test]
fn code_builder_tracks_sections() {
    let mut b = CodeBuilder::new();
    b.push_static_bytes(b"a");
    assert!(!b.has_source_map());
    b.push_source(&b"bc".to_vec(), Some(7));
    b.push_static_bytes(b"d");
    b.push_static_bytes(b"e");
    let code = b.build();
    assert_eq!(code.source_code(), &b"abcde".to_vec());
    assert!(code.has_source_map());

    let mut outer = CodeBuilder::new();
    outer.push_source(&b"xy".to_vec(), Some(1));
    outer.push_code(&code);
    let built = outer.build();
    assert_eq!(built.source_code(), &b"xyabcde".to_vec());
    assert!(built.has_source_map());
}
