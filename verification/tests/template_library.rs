use aetheris::config::template_library::{
    apply_validation_rule, json_as_u64, substitute_variables, validation_step, variable_type_matches, variable_value,
    ConfigTemplate, ConfigTemplateLibrary, RuleCheck, TemplateType, TemplateVariable, ValidationRule, ValidationRuleType,
    VariableType,
};
use aetheris::error::AetherisError;
use aetheris::json::JsonValue;

fn text(s: &str) -> JsonValue {
    JsonValue::String(s.to_string())
}

fn number(s: &str) -> JsonValue {
    JsonValue::Number(s.to_string())
}

fn object(members: Vec<(&str, JsonValue)>) -> JsonValue {
    JsonValue::Object(members.into_iter().map(|(k, v)| (k.to_string(), v)).collect())
}

fn template(id: &str, content: JsonValue) -> ConfigTemplate {
    ConfigTemplate {
        template_id: id.to_string(),
        name: "Test Template".to_string(),
        description: "A test template".to_string(),
        template_type: TemplateType::AetherisConfig,
        version: "1.0.0".to_string(),
        author: "test-author".to_string(),
        created_at: 0,
        updated_at: 0,
        tags: vec!["test".to_string()],
        categories: vec!["example".to_string()],
        content,
        variables: vec![],
        examples: vec![],
        is_official: false,
        is_published: true,
        download_count: 0,
        rating_total: 0,
        rating_count: 0,
    }
}

fn variable(name: &str, variable_type: VariableType, required: bool, rules: Vec<ValidationRule>) -> TemplateVariable {
    TemplateVariable {
        name: name.to_string(),
        description: String::new(),
        variable_type,
        required,
        default_value: None,
        validation_rules: rules,
    }
}

fn rule(rule_type: ValidationRuleType, params: Vec<(&str, JsonValue)>, message: &str) -> ValidationRule {
    ValidationRule {
        rule_type,
        parameters: params.into_iter().map(|(k, v)| (k.to_string(), v)).collect(),
        error_message: message.to_string(),
    }
}

fn validation_message(r: Result<RuleCheck, AetherisError>) -> String {
    match r {
        Err(AetherisError::Validation(m)) => m,
        other => panic!("expected a validation error, got {:?}", other),
    }
}

fn ids(list: &[&ConfigTemplate]) -> Vec<String> {
    list.iter().map(|t| t.template_id.clone()).collect()
}

#[test]
fn test_template_library_new() {
    let library = ConfigTemplateLibrary::new();
    assert_eq!(library.template_count(), 0);
}

#[test]
fn test_register_template() {
    let mut library = ConfigTemplateLibrary::new();
    let t = template("test-template", object(vec![("key", text("{{value}}"))]));
    let result = library.register_template(t);
    assert!(result.is_ok());
    assert_eq!(library.published_template_count(), 1);
}

#[test]
fn test_search_templates() {
    let mut library = ConfigTemplateLibrary::new();
    library.register_template(template("test-template", JsonValue::Object(vec![]))).unwrap();
    let results = library.search_templates("test");
    assert!(!results.is_empty());
}

#[test]
fn test_register_duplicate_template_is_refused() {
    let mut library = ConfigTemplateLibrary::new();
    library.register_template(template("dup", JsonValue::Null)).unwrap();
    match library.register_template(template("dup", JsonValue::Null)) {
        Err(AetherisError::Validation(m)) => assert_eq!(m, "Template with ID 'dup' already exists"),
        other => panic!("unexpected {:?}", other),
    }
    assert_eq!(library.template_count(), 1);
}

#[test]
fn test_templates_by_index_and_search() {
    let mut library = ConfigTemplateLibrary::new();
    let mut a = template("a", JsonValue::Null);
    a.template_type = TemplateType::Custom("x".to_string());
    a.tags = vec!["red".to_string()];
    a.author = "ann".to_string();
    let mut b = template("b", JsonValue::Null);
    b.tags = vec!["red".to_string(), "blue".to_string()];
    b.name = "Gateway Setup".to_string();
    let mut c = template("c", JsonValue::Null);
    c.is_published = false;
    c.tags = vec!["red".to_string()];
    library.register_template(a).unwrap();
    library.register_template(b).unwrap();
    library.register_template(c).unwrap();
    assert_eq!(ids(&library.get_templates_by_tag("red")), vec!["a", "b"]);
    assert_eq!(ids(&library.get_templates_by_tag("blue")), vec!["b"]);
    assert!(library.get_templates_by_tag("green").is_empty());
    assert_eq!(ids(&library.get_templates_by_type(&TemplateType::Custom("x".to_string()))), vec!["a"]);
    assert_eq!(ids(&library.get_templates_by_type(&TemplateType::AetherisConfig)), vec!["b"]);
    assert_eq!(ids(&library.get_templates_by_author("ann")), vec!["a"]);
    assert_eq!(ids(&library.get_templates_by_category("example")), vec!["a", "b"]);
    assert_eq!(ids(&library.search_templates("GATEWAY")), vec!["b"]);
    assert_eq!(ids(&library.list_templates()), vec!["a", "b"]);
    assert_eq!(library.template_count(), 3);
    assert_eq!(library.published_template_count(), 2);
    assert!(library.get_template("c").is_some());
    assert!(library.get_template("zzz").is_none());
}

#[test]
fn test_rate_template_updates_totals() {
    let mut library = ConfigTemplateLibrary::new();
    library.register_template(template("t", JsonValue::Null)).unwrap();
    match library.rate_template("t", "u1".to_string(), 0, None) {
        Err(AetherisError::Validation(m)) => assert_eq!(m, "Rating must be between 1 and 5"),
        other => panic!("unexpected {:?}", other),
    }
    assert!(library.rate_template("t", "u1".to_string(), 6, None).is_err());
    library.rate_template("t", "u1".to_string(), 4, Some("good".to_string())).unwrap();
    library.rate_template("t", "u2".to_string(), 5, None).unwrap();
    let t = library.get_template("t").unwrap();
    assert_eq!(t.rating_total, 9);
    assert_eq!(t.rating_count, 2);
    let ratings = library.get_template_ratings("t");
    assert_eq!(ratings.len(), 2);
    assert_eq!(ratings[0].user_id, "u1");
    assert_eq!(ratings[0].rating, 4);
    assert_eq!(ratings[0].comment, Some("good".to_string()));
    assert_eq!(ratings[0].template_id, "t");
    assert_eq!(ratings[1].rating, 5);
    assert_ne!(ratings[0].rating_id, ratings[1].rating_id);
    library.rate_template("missing", "u1".to_string(), 3, None).unwrap();
    assert_eq!(library.get_template_ratings("missing").len(), 1);
    assert!(library.get_template_ratings("none").is_empty());
}

#[test]
fn test_popular_and_top_rated_templates() {
    let mut library = ConfigTemplateLibrary::new();
    let mut a = template("a", JsonValue::Null);
    a.download_count = 5;
    a.rating_total = 6;
    a.rating_count = 2;
    let mut b = template("b", JsonValue::Null);
    b.download_count = 9;
    b.rating_total = 4;
    b.rating_count = 1;
    let mut c = template("c", JsonValue::Null);
    c.download_count = 5;
    c.rating_total = 9;
    c.rating_count = 2;
    let mut d = template("d", JsonValue::Null);
    d.download_count = 5;
    d.rating_total = 3;
    d.rating_count = 1;
    let mut hidden = template("h", JsonValue::Null);
    hidden.download_count = 100;
    hidden.is_published = false;
    for t in vec![a, b, c, d, hidden] {
        library.register_template(t).unwrap();
    }
    assert_eq!(ids(&library.get_popular_templates(10)), vec!["b", "c", "a", "d"]);
    assert_eq!(ids(&library.get_popular_templates(2)), vec!["b", "c"]);
    assert!(library.get_popular_templates(0).is_empty());
    assert_eq!(ids(&library.get_top_rated_templates(10)), vec!["c", "b", "a", "d"]);
    assert_eq!(ids(&library.get_top_rated_templates(1)), vec!["c"]);
}

#[test]
fn test_top_rated_ties_keep_order() {
    let mut library = ConfigTemplateLibrary::new();
    for id in ["x", "y", "z"] {
        library.register_template(template(id, JsonValue::Null)).unwrap();
    }
    assert_eq!(ids(&library.get_top_rated_templates(3)), vec!["x", "y", "z"]);
    assert_eq!(ids(&library.get_popular_templates(3)), vec!["x", "y", "z"]);
}

#[test]
fn test_record_download() {
    let mut library = ConfigTemplateLibrary::new();
    library.register_template(template("t", JsonValue::Null)).unwrap();
    library.record_download("t");
    library.record_download("t");
    library.record_download("unknown");
    assert_eq!(library.get_template("t").unwrap().download_count, 2);
}

#[test]
fn test_substitute_variables() {
    let mut content = object(vec![
        ("key", text("{{value}}")),
        ("list", JsonValue::Array(vec![text("a-{{value}}-{{value}}"), number("1")])),
        ("other", text("{{missing}}")),
    ]);
    let vars = vec![("value".to_string(), text("v")), ("n".to_string(), number("3"))];
    substitute_variables(&mut content, &vars).unwrap();
    let expected = object(vec![
        ("key", text("v")),
        ("list", JsonValue::Array(vec![text("a-v-v"), number("1")])),
        ("other", text("{{missing}}")),
    ]);
    assert!(content.equals(&expected), "{:?}", content);
}

#[test]
fn test_substitute_leaves_non_text_values_out() {
    let mut content = text("port={{n}}");
    let vars = vec![("n".to_string(), number("8080"))];
    substitute_variables(&mut content, &vars).unwrap();
    assert!(content.equals(&text("port={{n}}")), "{:?}", content);
}

#[test]
fn test_variable_types() {
    assert!(variable_type_matches(VariableType::String, &text("x")));
    assert!(variable_type_matches(VariableType::Number, &number("1.5")));
    assert!(variable_type_matches(VariableType::Boolean, &JsonValue::Bool(true)));
    assert!(variable_type_matches(VariableType::Array, &JsonValue::Array(vec![])));
    assert!(variable_type_matches(VariableType::Object, &JsonValue::Object(vec![])));
    assert!(!variable_type_matches(VariableType::String, &number("1")));
    assert!(!variable_type_matches(VariableType::Object, &JsonValue::Null));
}

#[test]
fn test_json_as_u64() {
    assert_eq!(json_as_u64(&number("42")), Some(42));
    assert_eq!(json_as_u64(&number("0")), Some(0));
    assert_eq!(json_as_u64(&number("18446744073709551615")), Some(u64::MAX));
    assert_eq!(json_as_u64(&number("18446744073709551616")), None);
    assert_eq!(json_as_u64(&number("-1")), None);
    assert_eq!(json_as_u64(&number("1.5")), None);
    assert_eq!(json_as_u64(&text("3")), None);
}

#[test]
fn test_length_rules() {
    let var = variable("v", VariableType::String, true, vec![]);
    let min = rule(ValidationRuleType::MinLength, vec![("min", number("3"))], "too short");
    let max = rule(ValidationRuleType::MaxLength, vec![("max", number("4"))], "too long");
    assert!(matches!(apply_validation_rule(&var, &text("abc"), &min), Ok(RuleCheck::Passes)));
    assert_eq!(validation_message(apply_validation_rule(&var, &text("ab"), &min)), "too short");
    assert!(matches!(apply_validation_rule(&var, &text("abcd"), &max), Ok(RuleCheck::Passes)));
    assert_eq!(validation_message(apply_validation_rule(&var, &text("abcde"), &max)), "too long");
    let arr = JsonValue::Array(vec![number("1"), number("2")]);
    assert_eq!(validation_message(apply_validation_rule(&var, &arr, &min)), "too short");
    assert!(matches!(apply_validation_rule(&var, &number("1"), &min), Ok(RuleCheck::Passes)));
    let no_param = rule(ValidationRuleType::MinLength, vec![], "x");
    assert!(matches!(apply_validation_rule(&var, &text(""), &no_param), Ok(RuleCheck::Passes)));
}

#[test]
fn test_value_rules_leave_a_comparison() {
    let var = variable("v", VariableType::Number, true, vec![]);
    let min = rule(ValidationRuleType::MinValue, vec![("min", number("1.5"))], "small");
    match apply_validation_rule(&var, &number("2"), &min) {
        Ok(RuleCheck::CompareNumbers(x, b, minimum)) => {
            assert_eq!(x, "2");
            assert_eq!(b, "1.5");
            assert!(minimum);
        },
        other => panic!("unexpected {:?}", other),
    }
    let max = rule(ValidationRuleType::MaxValue, vec![("max", number("10"))], "big");
    assert!(matches!(apply_validation_rule(&var, &number("2"), &max), Ok(RuleCheck::CompareNumbers(_, _, false))));
    assert!(matches!(apply_validation_rule(&var, &text("2"), &max), Ok(RuleCheck::Passes)));
}

#[test]
fn test_pattern_and_enum_rules() {
    let var = variable("v", VariableType::String, true, vec![]);
    let pattern = rule(ValidationRuleType::Pattern, vec![("pattern", text("^[a-z]+$"))], "letters only");
    assert!(matches!(apply_validation_rule(&var, &text("abc"), &pattern), Ok(RuleCheck::Passes)));
    assert_eq!(validation_message(apply_validation_rule(&var, &text("ab1"), &pattern)), "letters only");
    let bad = rule(ValidationRuleType::Pattern, vec![("pattern", text("(["))], "never");
    assert!(validation_message(apply_validation_rule(&var, &text("x"), &bad)).starts_with("Invalid pattern: "));
    let options = rule(
        ValidationRuleType::Enum,
        vec![("options", JsonValue::Array(vec![text("dev"), text("prod")]))],
        "unknown environment",
    );
    assert!(matches!(apply_validation_rule(&var, &text("prod"), &options), Ok(RuleCheck::Passes)));
    assert_eq!(validation_message(apply_validation_rule(&var, &text("test"), &options)), "unknown environment");
    let custom = rule(ValidationRuleType::Custom, vec![], "never");
    assert!(matches!(apply_validation_rule(&var, &text("x"), &custom), Ok(RuleCheck::Passes)));
}

#[test]
fn test_validation_step() {
    let rules = vec![
        rule(ValidationRuleType::MinLength, vec![("min", number("1"))], "empty"),
        rule(ValidationRuleType::MinValue, vec![("min", number("0"))], "negative"),
        rule(ValidationRuleType::MaxLength, vec![("max", number("2"))], "too long"),
    ];
    let var = variable("port", VariableType::String, true, rules);
    match validation_step(&var, &number("5"), 0) {
        Err(AetherisError::Validation(m)) => assert_eq!(m, "Variable 'port' has incorrect type"),
        other => panic!("unexpected {:?}", other),
    }
    assert!(matches!(validation_step(&var, &text("ab"), 0), Ok(None)));
    match validation_step(&var, &text("abc"), 0) {
        Err(AetherisError::Validation(m)) => assert_eq!(m, "too long"),
        other => panic!("unexpected {:?}", other),
    }
    let numeric = variable("n", VariableType::Number, false, vec![rule(ValidationRuleType::MinValue, vec![("min", number("0"))], "negative")]);
    match validation_step(&numeric, &number("7"), 0) {
        Ok(Some(p)) => {
            assert_eq!(p.rule_index, 0);
            assert_eq!(p.value, "7");
            assert_eq!(p.bound, "0");
            assert!(p.minimum);
        },
        other => panic!("unexpected {:?}", other),
    }
    assert!(matches!(validation_step(&numeric, &number("7"), 1), Ok(None)));
}

#[test]
fn test_variable_value() {
    let vars = vec![("a".to_string(), text("1"))];
    let required = variable("b", VariableType::String, true, vec![]);
    match variable_value(&required, &vars) {
        Err(AetherisError::Validation(m)) => assert_eq!(m, "Required variable 'b' is missing"),
        other => panic!("unexpected {:?}", other),
    }
    let optional = variable("b", VariableType::String, false, vec![]);
    assert!(matches!(variable_value(&optional, &vars), Ok(None)));
    let present = variable("a", VariableType::String, true, vec![]);
    assert!(matches!(variable_value(&present, &vars), Ok(Some(JsonValue::String(s))) if s == "1"));
}

#[test]
fn test_restore_tables() {
    let mut library = ConfigTemplateLibrary::new();
    library.insert_template(template("a", JsonValue::Null));
    let mut again = template("a", JsonValue::Null);
    again.name = "Second".to_string();
    library.insert_template(again);
    assert_eq!(library.template_count(), 1);
    assert_eq!(library.get_template("a").unwrap().name, "Second");
    assert!(library.get_templates_by_tag("test").is_empty());
    library.set_tag_index("test".to_string(), vec!["a".to_string()]);
    library.set_tag_index("test".to_string(), vec!["a".to_string(), "zz".to_string()]);
    assert_eq!(ids(&library.get_templates_by_tag("test")), vec!["a"]);
    assert_eq!(library.tag_index_entries().len(), 1);
    library.set_type_index(TemplateType::Soul, vec!["a".to_string()]);
    assert_eq!(ids(&library.get_templates_by_type(&TemplateType::Soul)), vec!["a"]);
    library.set_category_index("c".to_string(), vec!["a".to_string()]);
    library.set_author_index("who".to_string(), vec!["a".to_string()]);
    assert_eq!(ids(&library.get_templates_by_category("c")), vec!["a"]);
    assert_eq!(ids(&library.get_templates_by_author("who")), vec!["a"]);
    library.set_ratings("a".to_string(), vec![]);
    assert!(library.get_template_ratings("a").is_empty());
    assert_eq!(library.rating_entries().len(), 1);
    assert_eq!(library.all_templates().len(), 1);
    assert_eq!(library.type_index_entries().len(), 1);
    assert_eq!(library.category_index_entries().len(), 1);
    assert_eq!(library.author_index_entries().len(), 1);
}
