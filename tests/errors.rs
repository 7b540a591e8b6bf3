use my_http_server::error::{AppError, AppResult, IoKind};

#[test]
fn test_io_error_display() {
    let app_err = AppError::Io(IoKind::PermissionDenied, "access denied".to_string());
    let message = app_err.to_string();
    assert!(message.contains("IO error"));
    assert!(message.contains("access denied"));
    assert_eq!(app_err.status_code(), 403);
}

#[test]
fn test_markdown_parse_error() {
    let err = AppError::MarkdownParseError("Invalid syntax".to_string());
    let message = err.to_string();
    assert!(message.contains("Markdown parse error"));
    assert!(message.contains("Invalid syntax"));
}

#[test]
fn test_app_result_ok() {
    let result: AppResult<i32> = Ok(42);
    assert!(result.is_ok());
    assert_eq!(result.unwrap(), 42);
}

#[test]
fn test_app_result_err() {
    let result: AppResult<()> = Err(AppError::OtherError("Failed".to_string()));
    assert!(result.is_err());
}

#[test]
fn test_multiple_error_types() {
    let errors = vec![
        AppError::Io(IoKind::NotFound, "missing".to_string()),
        AppError::TemplateError("t".to_string()),
        AppError::RenderError("r".to_string()),
        AppError::ConfigError("c".to_string()),
        AppError::CliError("cli".to_string()),
        AppError::GlobPatternError("g".to_string()),
        AppError::GlobWalkError("w".to_string()),
        AppError::StripPrefixError("s".to_string()),
    ];
    let prefixes = [
        "IO error: ", "Template error: ", "Render error: ", "Config error: ", "cli Error: ",
        "Glob pattern error: ", "Glob walk error: ", "StripPrefixError: ",
    ];
    for (e, p) in errors.iter().zip(prefixes.iter()) {
        assert!(e.to_string().starts_with(p), "{}", e.to_string());
    }
    assert_eq!(errors[0].status_code(), 404);
    for e in &errors[1..] {
        assert_eq!(e.status_code(), 500);
    }
}

#[test]
fn test_error_debug_format() {
    let err = AppError::OtherError("debug me".to_string());
    assert!(format!("{err:?}").contains("debug me"));
}

#[test]
fn test_error_from_string() {
    let err = AppError::OtherError(String::from("from string"));
    assert_eq!(err.to_string(), "Other error: from string");
}

#[test]
fn test_config_error_message() {
    let err = AppError::ConfigError("Invalid config".to_string());
    assert_eq!(err.to_string(), "Config error: Invalid config");
}

fn may_fail(fail: bool) -> AppResult<String> {
    if fail {
        return Err(AppError::OtherError("failed".to_string()));
    }
    Ok("success".to_string())
}

#[test]
fn test_result_propagation() {
    fn outer(fail: bool) -> AppResult<usize> {
        let s = may_fail(fail)?;
        Ok(s.len())
    }
    assert_eq!(outer(false).unwrap(), 7);
    assert!(matches!(outer(true), Err(AppError::OtherError(_))));
}
