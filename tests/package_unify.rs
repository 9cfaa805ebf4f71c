use guarding::model_builder::{ModelBuilder, SourceLanguage};
use guarding::package_unify::PackageUnify;

#[test]
fn should_convert_rust_import() {
    let imp = "std::path::PathBuf";
    assert_eq!("std.path".to_string(), PackageUnify::from_rust_import(imp, true));

    let imp = "std::path";
    assert_eq!("std.path".to_string(), PackageUnify::from_rust_import(imp, false));
}

#[test]
fn package_unify_should_convert_path_to_package() {
    let parts = vec!["src".to_string(), "core".to_string(), "domain".to_string()];
    assert_eq!("src.core.domain".to_string(), PackageUnify::from_path(&parts));
}

#[test]
fn converts_relative_path_to_package() {
    let parts: Vec<String> = vec!["..", "..", "..", "src", "core", "domain"]
        .into_iter()
        .map(|s| s.to_string())
        .collect();
    assert_eq!(".........src.core.domain".to_string(), PackageUnify::from_path(&parts));
}

#[test]
fn converts_single_piece_import() {
    assert_eq!("std".to_string(), PackageUnify::from_rust_import("std", false));
}

#[test]
fn picks_language_by_extension() {
    assert_eq!(Some(SourceLanguage::Java), ModelBuilder::language_of("java"));
    assert_eq!(Some(SourceLanguage::JavaScript), ModelBuilder::language_of("js"));
    assert_eq!(Some(SourceLanguage::Rust), ModelBuilder::language_of("rs"));
    assert_eq!(Some(SourceLanguage::CSharp), ModelBuilder::language_of("cs"));
    assert_eq!(None, ModelBuilder::language_of("txt"));
}
