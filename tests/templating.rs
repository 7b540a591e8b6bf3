use my_http_server::context::{infer_value, parse_i64, CtxValue, TemplateContext};
use my_http_server::render::{get_context, SERVER_VERSION};

fn no_env() -> Vec<(String, String)> {
    Vec::new()
}

fn set(ctx: &mut TemplateContext, data: &str) {
    ctx.set_context_value(data, &no_env());
}

fn text(s: &str) -> CtxValue {
    CtxValue::Str(s.to_string())
}

#[test]
fn test_set_context_value_bool_true() {
    let mut context = TemplateContext::new();
    set(&mut context, "flag:true");
    assert_eq!(context.get("flag"), Some(&CtxValue::Bool(true)));
}

#[test]
fn test_set_context_value_bool_false() {
    let mut context = TemplateContext::new();
    set(&mut context, "enabled:false");
    assert_eq!(context.get("enabled"), Some(&CtxValue::Bool(false)));
}

#[test]
fn test_set_context_value_integer() {
    let mut context = TemplateContext::new();
    set(&mut context, "count:42");
    assert_eq!(context.get("count"), Some(&CtxValue::Int(42)));
}

#[test]
fn test_set_context_value_negative_integer() {
    let mut context = TemplateContext::new();
    set(&mut context, "temp:-15");
    assert_eq!(context.get("temp"), Some(&CtxValue::Int(-15)));
}

#[test]
fn test_set_context_value_string() {
    let mut context = TemplateContext::new();
    set(&mut context, "name:test value");
    assert_eq!(context.get("name"), Some(&text("test value")));
}

#[test]
fn test_set_context_value_string_with_spaces() {
    let mut context = TemplateContext::new();
    set(&mut context, "message:hello world");
    assert_eq!(context.get("message"), Some(&text("hello world")));
}

#[test]
fn test_set_context_value_type_precedence() {
    let mut context1 = TemplateContext::new();
    set(&mut context1, "val:true");
    assert_eq!(context1.get("val"), Some(&CtxValue::Bool(true)));

    let mut context2 = TemplateContext::new();
    set(&mut context2, "val:123");
    assert_eq!(context2.get("val"), Some(&CtxValue::Int(123)));

    let mut context3 = TemplateContext::new();
    set(&mut context3, "val:abc123");
    assert_eq!(context3.get("val"), Some(&text("abc123")));
}

#[test]
fn test_set_context_value_env_variable() {
    let env = vec![("TEST_VAR".to_string(), "test_value".to_string())];
    let mut context = TemplateContext::new();
    context.set_context_value("myvar:env:TEST_VAR", &env);
    assert_eq!(context.get("myvar"), Some(&text("test_value")));
}

#[test]
fn test_set_context_value_env_bool() {
    let env = vec![("BOOL_VAR".to_string(), "true".to_string())];
    let mut context = TemplateContext::new();
    context.set_context_value("flag:env:BOOL_VAR", &env);
    assert_eq!(context.get("flag"), Some(&CtxValue::Bool(true)));
}

#[test]
fn test_set_context_value_env_number() {
    let env = vec![("NUM_VAR".to_string(), "999".to_string())];
    let mut context = TemplateContext::new();
    context.set_context_value("count:env:NUM_VAR", &env);
    assert_eq!(context.get("count"), Some(&CtxValue::Int(999)));
}

#[test]
fn test_set_context_value_malformed_no_colon() {
    let mut context = TemplateContext::new();
    set(&mut context, "malformed");
    assert!(context.entries().is_empty());
}

#[test]
fn test_set_context_value_empty_name() {
    let mut context = TemplateContext::new();
    set(&mut context, ":value");
    assert!(context.entries().is_empty());
}

#[test]
fn test_set_context_value_whitespace_handling() {
    let mut context = TemplateContext::new();
    set(&mut context, "  key  :  value  ");
    assert_eq!(context.get("key"), Some(&text("value")));
}

#[test]
fn test_set_context_value_multiple_colons() {
    let mut context = TemplateContext::new();
    set(&mut context, "url:http://example.com");
    assert_eq!(context.get("url"), Some(&text("http://example.com")));
}

#[test]
fn test_set_context_value_empty_value() {
    let mut context = TemplateContext::new();
    set(&mut context, "empty:");
    assert_eq!(context.get("empty"), Some(&text("")));
}

#[test]
fn test_set_context_value_unicode() {
    let mut context = TemplateContext::new();
    set(&mut context, "text:你好世界");
    assert_eq!(context.get("text"), Some(&text("你好世界")));
}

#[test]
fn test_set_context_value_special_chars() {
    let mut context = TemplateContext::new();
    set(&mut context, "special:!@#$%^&*()");
    assert_eq!(context.get("special"), Some(&text("!@#$%^&*()")));
}

#[test]
fn test_get_context_includes_server_version() {
    let ctx = get_context(&Some(vec!["site:docs".to_string()]), &no_env());
    assert_eq!(ctx.get("server-version"), Some(&text(SERVER_VERSION)));
    assert_eq!(ctx.get("site"), Some(&text("docs")));
}

#[test]
fn test_context_value_inference_order() {
    let mut ctx = TemplateContext::new();
    set(&mut ctx, "a:true");
    assert!(matches!(ctx.get("a"), Some(CtxValue::Bool(_))));
    set(&mut ctx, "b:false");
    assert!(matches!(ctx.get("b"), Some(CtxValue::Bool(_))));
    set(&mut ctx, "c:0");
    assert!(matches!(ctx.get("c"), Some(CtxValue::Int(_))));
    set(&mut ctx, "d:12345");
    assert!(matches!(ctx.get("d"), Some(CtxValue::Int(_))));
    set(&mut ctx, "e:not_a_bool");
    assert!(matches!(ctx.get("e"), Some(CtxValue::Str(_))));
    set(&mut ctx, "f:3.14");
    assert!(matches!(ctx.get("f"), Some(CtxValue::Str(_))));
}

#[test]
fn test_env_var_missing() {
    let mut context = TemplateContext::new();
    set(&mut context, "missing:env:NONEXISTENT_VAR_12345");
    assert_eq!(context.get("missing"), None);
}

#[test]
fn unset_env_directive_is_dropped() {
    let mut context = TemplateContext::new();
    set(&mut context, "x:env:DOES_NOT_EXIST");
    assert_eq!(context.get("x"), None);
    assert!(context.entries().is_empty());
}

#[test]
fn test_multiple_context_values() {
    let mut context = TemplateContext::new();
    set(&mut context, "name:MyApp");
    set(&mut context, "version:1");
    set(&mut context, "debug:true");
    assert_eq!(context.get("name"), Some(&text("MyApp")));
    assert_eq!(context.get("version"), Some(&CtxValue::Int(1)));
    assert_eq!(context.get("debug"), Some(&CtxValue::Bool(true)));
}

#[test]
fn test_context_value_overwrite() {
    let mut context = TemplateContext::new();
    set(&mut context, "key:first");
    assert_eq!(context.get("key"), Some(&text("first")));
    set(&mut context, "key:second");
    assert_eq!(context.get("key"), Some(&text("second")));
    assert_eq!(context.entries().len(), 1);
}

#[test]
fn override_law_on_a_list() {
    let mut context = TemplateContext::new();
    context.apply_all(&vec!["key:first".to_string(), "key:second".to_string()], &no_env());
    assert_eq!(context.get("key"), Some(&text("second")));
}

#[test]
fn integer_syntax_and_range() {
    assert_eq!(parse_i64("9223372036854775807"), Some(i64::MAX));
    assert_eq!(parse_i64("-9223372036854775808"), Some(i64::MIN));
    assert_eq!(parse_i64("9223372036854775808"), None);
    assert_eq!(parse_i64("-9223372036854775809"), None);
    assert_eq!(parse_i64("+7"), Some(7));
    assert_eq!(parse_i64("-0"), Some(0));
    assert_eq!(parse_i64("0007"), Some(7));
    assert_eq!(parse_i64(""), None);
    assert_eq!(parse_i64("-"), None);
    assert_eq!(parse_i64("+"), None);
    assert_eq!(parse_i64("1 2"), None);
    assert_eq!(parse_i64("12a"), None);
    assert_eq!(infer_value("True"), text("True"));
    assert_eq!(infer_value("99999999999999999999"), text("99999999999999999999"));
}
