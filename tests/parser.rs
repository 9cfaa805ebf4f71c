use guarding::ast::{Expr, FunctionCall, Operator, RuleAssert, RuleLevel, RuleScope, RuleType};
use guarding::parser::parse;

#[test]
fn should_parse_rule_level() {
    let code = "class::name contains \"Controller\";";
    let rules = parse(code).unwrap();

    assert_eq!(1, rules.len());
    assert_eq!(RuleLevel::Class, rules[0].level);
    assert_eq!(RuleScope::All, rules[0].scope);
}

#[test]
fn should_parse_string_assert() {
    let code = "class::name contains \"Controller\";";
    let rules = parse(code).unwrap();

    assert_eq!(RuleAssert::Stringed("Controller".to_string()), rules[0].assert);
}

#[test]
fn mod_should_parse_struct() {
    let code = "struct::name contains \"Controller\";";
    let rules = parse(code).unwrap();

    assert_eq!(RuleLevel::Struct, rules[0].level);
    assert_eq!(RuleAssert::Stringed("Controller".to_string()), rules[0].assert);
}

#[test]
fn should_parse_package_asset() {
    let code = "class(\"..myapp..\")::function.name should contains(\"\");";
    let rules = parse(code).unwrap();

    assert_eq!(RuleScope::PathDefine(("..myapp..").to_string()), rules[0].scope);
    let chains = vec!["function".to_string(), "name".to_string()];
    assert_eq!(Expr::PropsCall(chains), rules[0].expr);
}

#[test]
fn should_parse_package_extends() {
    let code = "class(extends \"Connection.class\")::name endsWith \"Connection\";";
    let vec = parse(code).unwrap();
    assert_eq!(1, vec[0].ops.len());
    assert_eq!(Operator::Endswith, vec[0].ops[0])
}

#[test]
fn should_parse_not_symbol() {
    let code = "class(extends \"Connection.class\")::name should not endsWith \"Connection\";";
    let vec = parse(code).unwrap();
    assert_eq!(2, vec[0].ops.len());
    assert_eq!(Operator::Not, vec[0].ops[0]);
    assert_eq!(Operator::Endswith, vec[0].ops[1]);
    assert_eq!(RuleScope::Extend("Connection.class".to_string()), vec[0].scope);
}

#[test]
fn should_parse_sized_assert() {
    let code = "class(\"..myapp..\")::function.vars.len should <= 20;";
    let vec = parse(code).unwrap();
    assert_eq!(RuleAssert::Sized(20), vec[0].assert);
}

#[test]
fn should_parse_package_container_scope() {
    let code = "class(assignable \"EntityManager.class\") resideIn package(\"..persistence.\");";
    let vec = parse(code).unwrap();
    assert_eq!(
        RuleAssert::Leveled(RuleLevel::Package, "..persistence.".to_string()),
        vec[0].assert
    );
}

#[test]
fn should_parse_package_regex() {
    let code = "package(match(\"^/app\")) endsWith \"Connection\";";
    let vec = parse(code).unwrap();
    assert_eq!(RuleScope::MatchRegex("^/app".to_string()), vec[0].scope);
}

#[test]
fn should_parse_class_compare() {
    let code = "class(\"..myapp..\")::function.name should not contains(\"\");
class(\"..myapp..\")::function.name !contains(\"\");

class(\"..myapp..\")::vars.len should <= 20;
class(\"..myapp..\")::function.vars.len should <= 20;
";
    let rules = parse(code).unwrap();
    assert_eq!(4, rules.len());
    assert_eq!(vec![Operator::Not, Operator::Contains], rules[1].ops);
}

#[test]
fn should_parse_simple_usage() {
    let code = "class::name.len should < 20;
function::name.len should < 30;
";
    let rules = parse(code).unwrap();
    assert_eq!(2, rules.len());
    assert_eq!(RuleLevel::Function, rules[1].level);
}

#[test]
fn should_parse_arrow_usage() {
    let code = "class -> name.len should < 20;
function -> name.len should < 30;
";
    let rules = parse(code).unwrap();
    assert_eq!(2, rules.len());
    assert_eq!(
        Expr::PropsCall(vec!["name".to_string(), "len".to_string()]),
        rules[0].expr
    );
}

#[test]
fn should_parse_layer() {
    let code = "layer(\"onion\")
    ::domainModel(\"\")
    ::domainService(\"\")
    ::applicationService(\"\")
    ::adapter(\"com.phodal.com\", \"zero\");

";
    let rules = parse(code).unwrap();
    assert_eq!(1, rules.len());
    assert_eq!(RuleType::Layer, rules[0].ty);
    assert_eq!(vec![Operator::DependBy], rules[0].ops);
}

#[test]
fn parses_contains_rule_exactly() {
    let rules = parse("class::name contains \"Controller\";").unwrap();
    assert_eq!(1, rules.len());
    assert_eq!(RuleType::Normal, rules[0].ty);
    assert_eq!(RuleLevel::Class, rules[0].level);
    assert_eq!(RuleScope::All, rules[0].scope);
    assert_eq!(RuleAssert::Stringed("Controller".to_string()), rules[0].assert);
    assert_eq!(vec![Operator::Contains], rules[0].ops);
}

#[test]
fn parses_negated_ends_with() {
    let rules = parse("class::name should not endsWith \"Connection\";").unwrap();
    assert_eq!(vec![Operator::Not, Operator::Endswith], rules[0].ops);
}

#[test]
fn parses_sized_rule_exactly() {
    let rules = parse("class(\"..myapp..\")::function.vars.len should <= 20;").unwrap();
    assert_eq!(RuleScope::PathDefine("..myapp..".to_string()), rules[0].scope);
    assert_eq!(
        Expr::PropsCall(vec![
            "function".to_string(),
            "vars".to_string(),
            "len".to_string()
        ]),
        rules[0].expr
    );
    assert_eq!(RuleAssert::Sized(20), rules[0].assert);
    assert_eq!(vec![Operator::Lte], rules[0].ops);
}

#[test]
fn parses_accessed_list() {
    let rules = parse(
        "class(\"java.util.Map\") only accessed([\"com.a\", 'com.b']);",
    )
    .unwrap();
    assert_eq!(vec![Operator::Accessed], rules[0].ops);
    assert_eq!(
        RuleAssert::ArrayStringed(vec!["com.a".to_string(), "com.b".to_string()]),
        rules[0].assert
    );
    assert_eq!(Expr::Identifier(String::new()), rules[0].expr);
}

#[test]
fn parses_implementation_scope_and_bang() {
    let rules = parse("class(implementation \"BaseParser\")::name ! startsWith `Json`").unwrap();
    assert_eq!(RuleScope::Implementation("BaseParser".to_string()), rules[0].scope);
    assert_eq!(vec![Operator::Not, Operator::StartsWith], rules[0].ops);
    assert_eq!(RuleAssert::Stringed("Json".to_string()), rules[0].assert);
}

#[test]
fn parses_escapes_in_strings() {
    let rules = parse("class(\"a\\x41\\u{263A}\\n\")::len > 1;").unwrap();
    assert_eq!(RuleScope::PathDefine("aA\u{263A}\n".to_string()), rules[0].scope);
}

#[test]
fn parses_empty_document() {
    assert_eq!(0, parse("  \n ").unwrap().len());
}

#[test]
fn rejects_bad_escape() {
    assert!(parse("class(\"a\\q\")::len > 1;").is_err());
}

#[test]
fn rejects_incomplete_rule() {
    let e = parse("class::name contains").unwrap_err();
    assert_eq!(0, e.position);
}

#[test]
fn rejects_missing_separator() {
    let e = parse("class::len > 1 class::len > 2").unwrap_err();
    assert_eq!(15, e.position);
}

#[test]
fn rejects_oversized_integer() {
    assert!(parse("class::len > 99999999999999999999999;").is_err());
}

#[test]
fn parses_call_expression() {
    let rules = parse("class::annotated(name: \"Service\", scope: 'x') should = 1;").unwrap();
    let mut call = FunctionCall::new("annotated".to_string());
    call.args.push(("name".to_string(), Expr::Identifier("Service".to_string())));
    call.args.push(("scope".to_string(), Expr::Identifier("x".to_string())));
    assert_eq!(Expr::Call(call), rules[0].expr);
    assert_eq!(vec![Operator::Eq], rules[0].ops);
}

#[test]
fn parses_call_without_arguments() {
    let rules = parse("class::count( ) > 1;").unwrap();
    assert_eq!(Expr::Call(FunctionCall::new("count".to_string())), rules[0].expr);
}

#[test]
fn new_call_has_no_arguments() {
    let call = FunctionCall::new("f".to_string());
    assert_eq!("f", call.name);
    assert!(call.args.is_empty());
}
