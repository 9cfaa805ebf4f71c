use guarding::domain::{CodeClass, CodeFile};
use guarding::executor::{exec, RuleExecutor};
use guarding::parser::parse;
use guarding::rule_error::{MismatchType, RuleErrorMsg};
use guarding::{evaluate, GuardError};

fn class(name: &str, package: &str, implements: &[&str]) -> CodeClass {
    let mut c = CodeClass::default();
    c.name = name.to_string();
    c.package = package.to_string();
    c.implements = implements.iter().map(|s| s.to_string()).collect();
    c
}

fn file(path: &str, package: &str, imports: &[&str], classes: Vec<CodeClass>) -> CodeFile {
    let mut f = CodeFile::default();
    f.path = path.to_string();
    f.file_name = path.rsplit('/').next().unwrap().to_string();
    f.package = package.to_string();
    f.imports = imports.iter().map(|s| s.to_string()).collect();
    f.classes = classes;
    f
}

/// A Java code base of 26 files and 22 classes: three files in the parser package, two
/// classes implementing `BaseParser` there, and one file outside `staticclass` that
/// imports `java.util.Map`.
fn test_models() -> Vec<CodeFile> {
    let parser = "com.phodal.pepper.refactor.parser";
    let mut models = vec![
        file(
            "java/parser/JsonParser.java",
            parser,
            &["java.util.List"],
            vec![class("JsonParser", parser, &["BaseParser"])],
        ),
        file(
            "java/parser/XmlParser.java",
            parser,
            &[],
            vec![class("XmlParser", parser, &["BaseParser"])],
        ),
        file(
            "java/parser/BaseParser.java",
            parser,
            &[],
            vec![class("BaseParser", parser, &[])],
        ),
        file(
            "java/staticclass/MyMap.java",
            "com.phodal.pepper.refactor.staticclass",
            &["java.util.Map"],
            vec![class("MyMap", "com.phodal.pepper.refactor.staticclass", &[])],
        ),
        file(
            "java/dictionary/MyDictionary.java",
            "com.phodal.pepper.refactor.dictionary",
            &["java.util.HashMap", "java.util.Map"],
            vec![class("MyDictionary", "com.phodal.pepper.refactor.dictionary", &[])],
        ),
    ];
    for i in 0..21 {
        let pkg = format!("com.phodal.pepper.misc{}", i);
        let classes = if i < 17 {
            vec![class(&format!("Misc{}", i), &pkg, &[])]
        } else {
            vec![]
        };
        models.push(file(&format!("java/misc/Misc{}.java", i), &pkg, &[], classes));
    }
    models
}

fn run(content: &str) -> Vec<RuleErrorMsg> {
    let rules = parse(content).unwrap();
    exec(rules, test_models()).unwrap().errors
}

#[test]
fn tests_should_working_in_process() {
    let errors = run("package(\".\")::file.len should > 50;");

    assert_eq!(1, errors.len());
    assert_eq!("50".to_string(), errors[0].expected);
    assert_eq!("26".to_string(), errors[0].actual);
    assert_eq!(MismatchType::FileSize, errors[0].mismatch_type);
    assert_eq!("file.len = 26, expected: len > 50".to_string(), errors[0].msg);
    assert_eq!(0, errors[0].rule_index);
}

#[test]
fn tests_should_get_errors_when_lt() {
    let errors = run("package(\".\")::file.len should = 27;");

    assert_eq!(1, errors.len());
}

#[test]
fn should_support_filter() {
    let errors = run("package(\"com.phodal.pepper.refactor.parser\")::file.len should = 3;");

    assert_eq!(0, errors.len());
}

#[test]
fn tests_should_support_for_class_filter() {
    let errors = run("class(\".\")::len should < 25;
class(\".\")::len should > 20;");

    assert_eq!(0, errors.len());
}

#[test]
fn should_support_for_extends_count() {
    let errors = run("class(implementation \"BaseParser\")::len = 2");

    assert_eq!(0, errors.len());
}

#[test]
fn should_support_for_extends_ends_with() {
    let errors = run("class(implementation \"BaseParser\")::name should endsWith \"Parser2\";");
    assert_eq!(1, errors.len());
    assert_eq!(2, errors[0].items.len());

    let errors = run("class(implementation \"BaseParser\")::name should endsWith \"Parser\";");
    assert_eq!(0, errors.len());
}

#[test]
fn should_support_for_starts_with() {
    let errors = run("class(implementation \"BaseParser\")::name should startsWith \"Json\";");
    assert_eq!(1, errors.len());
    assert_eq!(1, errors[0].items.len());
}

#[test]
fn should_support_for_reside_in() {
    let errors = run("class(implementation \"BaseParser\") resideIn package(\"....parser2\");");
    assert_eq!(1, errors.len());

    let errors = run("class(implementation \"BaseParser\") resideIn package(\"....parser\");");
    assert_eq!(0, errors.len());
}

#[test]
fn should_support_for_not_reside_in() {
    let errors = run("class(implementation \"BaseParser\") not resideIn package(\"....parser2\");");
    assert_eq!(0, errors.len());

    let errors = run("class(implementation \"BaseParser\") not resideIn package(\"....parser\");");
    assert_eq!(1, errors.len());
}

#[test]
fn should_support_for_contains() {
    let errors = run("class(implementation \"BaseParser\")::name should contains \"Lexer\";");
    assert_eq!(1, errors.len());
    assert_eq!(2, errors[0].items.len());

    let errors = run("class(implementation \"BaseParser\")::name should contains \"Parser\";");
    assert_eq!(0, errors.len());
}

#[test]
fn should_support_for_not_contains() {
    let errors = run("class(implementation \"BaseParser\")::name should not contains \"Lexer\";");
    assert_eq!(0, errors.len());

    let errors = run("class(implementation \"BaseParser\")::name should not contains \"Parser\";");
    assert_eq!(1, errors.len());
}

#[test]
fn should_support_for_accessed() {
    let errors = run(
        "class(\"java.util.Map\") only accessed([\"com.phodal.pepper.refactor.staticclass\"]);",
    );

    assert_eq!(1, errors.len());
    assert!(errors[0].items[0].contains("MyDictionary.java"))
}

#[test]
fn name_violation_lists_each_class() {
    let errors = run("class(implementation \"BaseParser\")::name should endsWith \"Parser2\";");
    assert_eq!(MismatchType::FileName, errors[0].mismatch_type);
    assert_eq!("endsWith: \"Parser2\"", errors[0].msg);
    assert_eq!(
        vec![
            "path: com.phodal.pepper.refactor.parser, name: JsonParser".to_string(),
            "path: com.phodal.pepper.refactor.parser, name: XmlParser".to_string(),
        ],
        errors[0].items
    );
}

#[test]
fn access_violation_names_the_file() {
    let errors = run("class(\"java.util.Map\") accessed(\"..staticclass\");");
    assert_eq!(MismatchType::Access, errors[0].mismatch_type);
    assert_eq!(vec!["java/dictionary/MyDictionary.java".to_string()], errors[0].items);
}

#[test]
fn reside_negation_is_complementary() {
    for target in ["....parser", "....parser2"] {
        let plain = run(&format!(
            "class(implementation \"BaseParser\") resideIn package(\"{}\");",
            target
        ));
        let negated = run(&format!(
            "class(implementation \"BaseParser\") not resideIn package(\"{}\");",
            target
        ));
        assert_ne!(plain.is_empty(), negated.is_empty());
    }
}

#[test]
fn violations_carry_rule_index_in_order() {
    let errors = run("package(\".\")::len > 100;
class(\".\")::name contains \"Controller\";
class(\".\")::len < 1;");
    assert_eq!(3, errors.len());
    assert_eq!(0, errors[0].rule_index);
    assert_eq!(1, errors[1].rule_index);
    assert_eq!(2, errors[2].rule_index);
    assert_eq!(22, errors[1].items.len());
    assert_eq!("22", errors[2].actual);
}

#[test]
fn evaluating_twice_gives_the_same_violations() {
    let content = "class(implementation \"BaseParser\")::name should startsWith \"Json\";
package(\".\")::file.len should > 50;";
    let first = evaluate(content, test_models()).unwrap();
    let second = evaluate(content, test_models()).unwrap();
    assert_eq!(first, second);
    assert_eq!(2, first.errors.len());
}

#[test]
fn unsupported_rules_are_recorded() {
    let rules = parse("function::name.len should < 30;
class(\".\")::name contains \"Parser\";
class(\".\")::vars.len should <= 20;
layer(\"onion\")::domainModel(\"\");").unwrap();
    let mut executor = RuleExecutor::new(test_models(), rules);
    executor.run().unwrap();
    assert_eq!(vec![0, 2, 3], executor.skipped);
    assert_eq!(1, executor.errors.len());
    assert_eq!(1, executor.errors[0].rule_index);
}

#[test]
fn size_operators_compare_exactly() {
    assert_eq!(0, run("package(\".\")::len >= 26;").len());
    assert_eq!(1, run("package(\".\")::len > 26;").len());
    assert_eq!(0, run("package(\".\")::len <= 26;").len());
    assert_eq!(1, run("package(\".\")::len < 26;").len());
    assert_eq!(0, run("package(\".\")::len == 26;").len());
    assert_eq!(1, run("package(\".\")::len != 26;").len());
    assert_eq!("file.len = 26, expected: len <= 3", run("package(\".\")::len <= 3;")[0].msg);
}

#[test]
fn bad_pattern_fails_the_run() {
    match evaluate("package(\"a(b\")::len > 1;", test_models()) {
        Err(GuardError::Pattern(e)) => assert_eq!("a(b", e.pattern),
        other => panic!("unexpected {:?}", other),
    }
}

#[test]
fn bad_rule_text_fails_the_run() {
    assert!(matches!(
        evaluate("class::", test_models()),
        Err(GuardError::Parse(_))
    ));
}

#[test]
fn new_error_is_empty() {
    let e = RuleErrorMsg::new(MismatchType::Access, 4);
    assert_eq!("", e.expected);
    assert_eq!("", e.msg);
    assert!(e.items.is_empty());
    assert_eq!(4, e.rule_index);
}

#[test]
fn rules_without_scope_are_skipped() {
    let rules = parse("package::len > 100;
class::name contains \"Controller\";
class(\".\")::len < 1;").unwrap();
    let ev = exec(rules, test_models()).unwrap();
    assert_eq!(vec![0, 1], ev.skipped);
    assert_eq!(1, ev.errors.len());
    assert_eq!(2, ev.errors[0].rule_index);
}

#[test]
fn evaluation_reports_skipped_rules() {
    let ev = evaluate("function::name.len should < 30;
package(\".\")::len > 1;", test_models()).unwrap();
    assert_eq!(vec![0], ev.skipped);
    assert!(ev.errors.is_empty());
}

#[test]
fn reside_message_quotes_like_debug() {
    let errors = run("class(implementation \"BaseParser\") resideIn package(\"x\\\"y\");");
    assert_eq!(1, errors.len());
    assert_eq!(format!("resideIn: {:?}", "x\"y"), errors[0].msg);
    assert_eq!("resideIn: \"x\\\"y\"", errors[0].msg);
}
