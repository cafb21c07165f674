use log4tc::formatter::MessageFormatter;
use log4tc::json::{Number, Value};
use log4tc::maps::{ArgMap, NamedMap};
use regex::Regex;

fn s(text: &str) -> Value {
    Value::String(text.to_string())
}

fn integer(i: i64) -> Value {
    if i < 0 {
        Value::Number(Number::NegInt(i))
    } else {
        Value::Number(Number::PosInt(i as u64))
    }
}

fn float(f: f64) -> Value {
    Value::Number(Number::Float(serde_json::Number::from_f64(f).unwrap().to_string()))
}

#[test]
fn test_format_positional_args() {
    let mut args = ArgMap::new();
    args.insert(0, s("world"));
    args.insert(1, integer(42));
    let result = MessageFormatter::format("Hello {0}, answer is {1}", &args);
    assert_eq!(result, "Hello world, answer is 42");
}

#[test]
fn test_format_with_context() {
    let mut args = ArgMap::new();
    args.insert(0, s("user123"));
    let mut context = NamedMap::new();
    context.insert("action".to_string(), s("login"));
    let result = MessageFormatter::format_with_context("User {0} performed {action}", &args, &context);
    assert_eq!(result, "User user123 performed login");
}

#[test]
fn test_extract_placeholders() {
    let template = "Hello {0}, action is {action}, count is {1}";
    let placeholders = MessageFormatter::extract_placeholders(template);
    assert_eq!(placeholders.len(), 3);
    assert!(placeholders.contains(&"0".to_string()));
    assert!(placeholders.contains(&"action".to_string()));
    assert!(placeholders.contains(&"1".to_string()));
}

#[test]
fn test_value_formatting() {
    assert_eq!(MessageFormatter::value_to_string(&Value::Null), "null");
    assert_eq!(MessageFormatter::value_to_string(&Value::Bool(true)), "true");
    assert_eq!(MessageFormatter::value_to_string(&integer(123)), "123");
    assert_eq!(MessageFormatter::value_to_string(&s("text")), "text");
}

#[test]
fn test_format_partial_placeholders() {
    let args = ArgMap::new();
    let result = MessageFormatter::format("Missing {0} here {1}", &args);
    assert_eq!(result, "Missing {0} here {1}");
}

#[test]
fn test_format_no_args() {
    let args = ArgMap::new();
    let result = MessageFormatter::format("Simple message without placeholders", &args);
    assert_eq!(result, "Simple message without placeholders");
}

#[test]
fn test_format_extra_args() {
    let mut args = ArgMap::new();
    args.insert(0, s("used"));
    args.insert(1, s("unused"));
    args.insert(2, s("also_unused"));
    let result = MessageFormatter::format("Only {0} is used", &args);
    assert_eq!(result, "Only used is used");
}

#[test]
fn test_format_out_of_order_indices() {
    let mut args = ArgMap::new();
    args.insert(2, s("third"));
    args.insert(0, s("first"));
    args.insert(1, s("second"));
    let result = MessageFormatter::format("Order: {0}, {1}, {2}", &args);
    assert_eq!(result, "Order: first, second, third");
}

#[test]
fn test_format_repeated_placeholders() {
    let mut args = ArgMap::new();
    args.insert(0, s("hello"));
    let result = MessageFormatter::format("{0} {0} {0}", &args);
    assert_eq!(result, "hello hello hello");
}

#[test]
fn test_format_named_args_only() {
    let args = ArgMap::new();
    let mut context = NamedMap::new();
    context.insert("name".to_string(), s("Alice"));
    context.insert("action".to_string(), s("logged in"));
    let result = MessageFormatter::format_with_context("{name} {action}", &args, &context);
    assert_eq!(result, "Alice logged in");
}

#[test]
fn test_format_arg_type_coercion() {
    let mut args = ArgMap::new();
    args.insert(0, integer(42));
    args.insert(1, float(3.14));
    args.insert(2, Value::Bool(true));
    args.insert(3, Value::Null);
    let result = MessageFormatter::format("Int: {0}, Float: {1}, Bool: {2}, Null: {3}", &args);
    assert_eq!(result, "Int: 42, Float: 3.14, Bool: true, Null: null");
}

#[test]
fn test_format_special_chars_in_args() {
    let mut args = ArgMap::new();
    args.insert(0, s("line1\nline2"));
    args.insert(1, s("\"quoted\""));
    args.insert(2, s("path\\to\\file"));
    let result = MessageFormatter::format("Newline: {0}, Quote: {1}, Path: {2}", &args);
    assert!(result.contains("line1\nline2"));
    assert!(result.contains("\"quoted\""));
}

#[test]
fn test_format_array_argument() {
    let mut args = ArgMap::new();
    args.insert(0, Value::Array(vec![integer(1), integer(2), integer(3)]));
    let result = MessageFormatter::format("Array: {0}", &args);
    assert!(result.contains("["));
    assert!(result.contains("]"));
    assert!(result.contains("1"));
    assert!(result.contains("2"));
    assert!(result.contains("3"));
}

#[test]
fn test_format_object_argument() {
    let mut args = ArgMap::new();
    args.insert(0, Value::Object(vec![("key".to_string(), s("value"))]));
    let result = MessageFormatter::format("Object: {0}", &args);
    assert!(result.contains("{"));
    assert!(result.contains("}"));
    assert!(result.contains("key"));
}

#[test]
fn test_extract_mixed_placeholders() {
    let template = "User {0} performed {action} with {count}";
    let placeholders = MessageFormatter::extract_placeholders(template);
    assert_eq!(placeholders.len(), 3);
    assert!(placeholders.contains(&"0".to_string()));
    assert!(placeholders.contains(&"action".to_string()));
    assert!(placeholders.contains(&"count".to_string()));
}

#[test]
fn test_extract_no_placeholders() {
    let template = "Just a plain message";
    let placeholders = MessageFormatter::extract_placeholders(template);
    assert_eq!(placeholders.len(), 0);
}

#[test]
fn test_extract_numeric_placeholders() {
    let template = "{0} {1} {2} {3} {4}";
    let placeholders = MessageFormatter::extract_placeholders(template);
    assert_eq!(placeholders.len(), 5);
    for i in 0..5 {
        assert!(placeholders.contains(&i.to_string()));
    }
}

#[test]
fn test_format_empty_template() {
    let args = ArgMap::new();
    let result = MessageFormatter::format("", &args);
    assert_eq!(result, "");
}

#[test]
fn test_format_context_overrides_positional() {
    let mut args = ArgMap::new();
    args.insert(0, s("positional"));
    let mut context = NamedMap::new();
    context.insert("name".to_string(), s("context_value"));
    let result =
        MessageFormatter::format_with_context("Positional: {0}, Named: {name}", &args, &context);
    assert!(result.contains("Positional: positional"));
    assert!(result.contains("Named: context_value"));
}

#[test]
fn test_format_special_placeholder_chars() {
    let mut args = ArgMap::new();
    args.insert(0, s("value"));
    let result = MessageFormatter::format("Placeholder: {0}", &args);
    assert_eq!(result, "Placeholder: value");
}

#[test]
fn test_value_to_string_number_precision() {
    let large_number = float(1234567890.123456789);
    let result = MessageFormatter::value_to_string(&large_number);
    assert!(result.contains("1234567890"));
}

#[test]
fn test_format_very_long_message() {
    let mut args = ArgMap::new();
    let long_arg = "x".repeat(10000);
    args.insert(0, s(&long_arg));
    let template = "Start {0} End";
    let result = MessageFormatter::format(template, &args);
    assert!(result.starts_with("Start x"));
    assert!(result.ends_with("x End"));
    assert_eq!(result.len(), 10000 + "Start  End".len());
}

#[test]
fn test_extract_placeholder_with_spaces() {
    let template = "Test { 0 } here";
    let placeholders = MessageFormatter::extract_placeholders(template);
    if !placeholders.is_empty() {
        assert!(placeholders[0].contains("0"));
    }
    assert_eq!(placeholders, vec![" 0 ".to_string()]);
}

#[test]
fn test_format_numeric_string_context() {
    let args = ArgMap::new();
    let mut context = NamedMap::new();
    context.insert("123".to_string(), s("numeric_key"));
    let result = MessageFormatter::format_with_context("Value: {123}", &args, &context);
    assert_eq!(result, "Value: {123}");
}

#[test]
fn test_format_with_empty_context_and_args() {
    let args = ArgMap::new();
    let context = NamedMap::new();
    let result = MessageFormatter::format_with_context("No substitution here", &args, &context);
    assert_eq!(result, "No substitution here");
}

// ---- further cases ----

#[test]
fn named_placeholders_take_arguments_by_order_of_appearance() {
    let mut args = ArgMap::new();
    args.insert(0, s("x"));
    args.insert(1, s("y"));
    let context = NamedMap::new();
    let result = MessageFormatter::format_with_context("{a} {b}", &args, &context);
    assert_eq!(result, "x y");
}

#[test]
fn named_placeholder_position_counts_numeric_placeholders_too() {
    let mut args = ArgMap::new();
    args.insert(0, s("zero"));
    args.insert(1, s("one"));
    let context = NamedMap::new();
    let result = MessageFormatter::format_with_context("{0} {name}", &args, &context);
    assert_eq!(result, "zero one");
}

#[test]
fn named_placeholder_prefers_argument_over_context() {
    let mut args = ArgMap::new();
    args.insert(0, s("from-arg"));
    let mut context = NamedMap::new();
    context.insert("who".to_string(), s("from-context"));
    let result = MessageFormatter::format_with_context("{who}", &args, &context);
    assert_eq!(result, "from-arg");
}

#[test]
fn index_with_plus_sign_counts_as_index() {
    let mut args = ArgMap::new();
    args.insert(1, s("one"));
    assert_eq!(MessageFormatter::format("{+1}", &args), "{+1}");
    let context = NamedMap::new();
    assert_eq!(MessageFormatter::format_with_context("{+1}", &args, &context), "one");
}

#[test]
fn format_leaves_named_placeholders() {
    let mut args = ArgMap::new();
    args.insert(0, s("zero"));
    assert_eq!(MessageFormatter::format("{name} {0}", &args), "{name} zero");
}

#[test]
fn value_text_of_nested_values() {
    let v = Value::Object(vec![
        ("a".to_string(), Value::Array(vec![integer(-1), Value::Bool(false), Value::Null])),
        ("b".to_string(), s("x")),
    ]);
    assert_eq!(MessageFormatter::value_to_string(&v), "{a=[-1, false, null], b=x}");
    assert_eq!(MessageFormatter::value_to_string(&Value::Array(vec![])), "[]");
    assert_eq!(MessageFormatter::value_to_string(&integer(i64::MIN)), "-9223372036854775808");
    assert_eq!(
        MessageFormatter::value_to_string(&Value::Number(Number::PosInt(u64::MAX))),
        "18446744073709551615"
    );
}

#[test]
fn replacement_text_is_not_rescanned_for_its_own_placeholder() {
    let mut args = ArgMap::new();
    args.insert(0, s("{0}{0}"));
    assert_eq!(MessageFormatter::format("<{0}>", &args), "<{0}{0}>");
}

#[test]
fn unclosed_and_empty_braces_are_not_placeholders() {
    assert!(MessageFormatter::extract_placeholders("{} and {open").is_empty());
    assert_eq!(MessageFormatter::extract_placeholders("{{x}}"), vec!["{x".to_string()]);
}

// ---- agreement with the regular expressions of the template grammar ----

fn regex_names(template: &str) -> Vec<String> {
    let re = Regex::new(r"\{([^}]+)\}").unwrap();
    re.captures_iter(template).map(|c| c[1].to_string()).collect()
}

fn regex_format(template: &str, args: &[(usize, &str)]) -> String {
    if !template.contains('{') {
        return template.to_string();
    }
    let re = Regex::new(r"\{(\d+)\}").unwrap();
    let mut pairs = Vec::new();
    for cap in re.captures_iter(template) {
        if let Ok(index) = cap[1].parse::<usize>() {
            if let Some((_, v)) = args.iter().find(|(k, _)| *k == index) {
                pairs.push((cap[0].to_string(), v.to_string()));
            }
        }
    }
    let mut result = template.to_string();
    for (p, r) in pairs {
        result = result.replace(&p, &r);
    }
    result
}

fn regex_format_with_context(template: &str, args: &[(usize, &str)], ctx: &[(&str, &str)]) -> String {
    if !template.contains('{') {
        return template.to_string();
    }
    let re = Regex::new(r"\{([^}]+)\}").unwrap();
    let mut pairs = Vec::new();
    let mut positional_index: usize = 0;
    for cap in re.captures_iter(template) {
        let key = &cap[1];
        let placeholder = cap[0].to_string();
        if let Ok(index) = key.parse::<usize>() {
            if let Some((_, v)) = args.iter().find(|(k, _)| *k == index) {
                pairs.push((placeholder, v.to_string()));
            }
        } else {
            if let Some((_, v)) = args.iter().find(|(k, _)| *k == positional_index) {
                pairs.push((placeholder, v.to_string()));
            } else if let Some((_, v)) = ctx.iter().find(|(k, _)| *k == key) {
                pairs.push((placeholder, v.to_string()));
            }
        }
        positional_index += 1;
    }
    let mut result = template.to_string();
    for (p, r) in pairs {
        result = result.replace(&p, &r);
    }
    result
}

const TEMPLATES: &[&str] = &[
    "",
    "plain",
    "{0}",
    "{0}{1}{0}",
    "a {1} b {0} c {2}",
    "{name} {0} {other}",
    "{{0}}",
    "{0}}",
    "{ 1 }",
    "{+0} {+1} {00} {01}",
    "{-1} {1a} {a1}",
    "{} {0",
    "x}{0}{",
    "{é} {ü1} {0}",
    "{name}{name}{1}",
    "{18446744073709551616} {99999999999999999999999}",
    "mixed {0} and {who} and {2} and {what}",
    "{{name}}",
    "}{}{0}{{}}",
];

#[test]
fn placeholder_names_agree_with_the_regex() {
    for t in TEMPLATES {
        assert_eq!(MessageFormatter::extract_placeholders(t), regex_names(t), "template {:?}", t);
    }
}

#[test]
fn format_agrees_with_the_regex_version() {
    let arg_sets: Vec<Vec<(usize, &str)>> = vec![
        vec![],
        vec![(0, "A")],
        vec![(0, "A"), (1, "{0}"), (2, "C")],
        vec![(1, "B"), (2, "{1}")],
        vec![(0, "{name}"), (1, "")],
    ];
    for t in TEMPLATES {
        for set in &arg_sets {
            let mut args = ArgMap::new();
            for (k, v) in set {
                args.insert(*k, s(v));
            }
            assert_eq!(
                MessageFormatter::format(t, &args),
                regex_format(t, set),
                "template {:?} args {:?}",
                t,
                set
            );
        }
    }
}

#[test]
fn format_with_context_agrees_with_the_regex_version() {
    let arg_sets: Vec<Vec<(usize, &str)>> = vec![
        vec![],
        vec![(0, "A")],
        vec![(1, "B"), (2, "C"), (3, "D")],
        vec![(0, "{who}"), (2, "{0}")],
    ];
    let ctx_sets: Vec<Vec<(&str, &str)>> = vec![
        vec![],
        vec![("name", "N"), ("who", "W"), ("what", "{name}")],
        vec![("0", "zero"), ("é", "E"), (" 1 ", "spaced")],
    ];
    for t in TEMPLATES {
        for set in &arg_sets {
            for ctx in &ctx_sets {
                let mut args = ArgMap::new();
                for (k, v) in set {
                    args.insert(*k, s(v));
                }
                let mut context = NamedMap::new();
                for (k, v) in ctx {
                    context.insert(k.to_string(), s(v));
                }
                assert_eq!(
                    MessageFormatter::format_with_context(t, &args, &context),
                    regex_format_with_context(t, set, ctx),
                    "template {:?} args {:?} context {:?}",
                    t,
                    set,
                    ctx
                );
            }
        }
    }
}

#[test]
fn numeric_templates_ignore_the_context() {
    let mut args = ArgMap::new();
    args.insert(0, s("a"));
    args.insert(2, s("c"));
    let mut context = NamedMap::new();
    context.insert("1".to_string(), s("ctx"));
    context.insert("0".to_string(), s("ctx0"));
    for t in ["{0} {1} {2}", "{2}{2}", "x {00} y", "plain", "{1}"] {
        assert_eq!(
            MessageFormatter::format_with_context(t, &args, &context),
            MessageFormatter::format(t, &args),
            "template {:?}",
            t
        );
    }
}
