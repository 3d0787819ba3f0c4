use stash::connections::{AwsExternalIdPrefix, ConnectionContext, LogLevel, StringOrSecret};

#[test]
fn connection_context() {
    let context = ConnectionContext::default();
    assert_eq!(context.librdkafka_log_level, LogLevel::Info);
    assert!(context.aws_external_id_prefix.is_none());
    let context = ConnectionContext::from_cli_args(LogLevel::Debug, Some("prefix".to_string()));
    assert_eq!(context.librdkafka_log_level, LogLevel::Debug);
    assert!(matches!(context.aws_external_id_prefix, Some(AwsExternalIdPrefix(ref p)) if p == "prefix"));
    let context = ConnectionContext::from_cli_args(LogLevel::Error, None);
    assert!(context.aws_external_id_prefix.is_none());
}

#[test]
fn strings_are_inline_or_secret() {
    assert_eq!(
        StringOrSecret::String("plain".to_string()).inline_string(),
        Some("plain".to_string())
    );
    assert_eq!(StringOrSecret::Secret("u7".to_string()).inline_string(), None);
}
