//! Scaffolding generators: each output carries the requested name.

use alpha_core::codegen;

#[test]
fn test_generate_service_cargo_toml() {
    let result = codegen::generate_service_cargo_toml("test-service", "http");
    assert!(result.is_ok());
    let cargo_toml = result.unwrap();
    assert!(cargo_toml.contains("alpha-test-service"));
}

#[test]
fn test_generate_react_component() {
    let result = codegen::generate_react_component("TestComponent");
    assert!(result.is_ok());
    let component = result.unwrap();
    assert!(component.contains("TestComponent"));
}

#[test]
fn test_cargo_toml_lowercases_name() {
    // Would fail if the case-folding call handed its argument back
    // unchanged.
    let cargo_toml = codegen::generate_service_cargo_toml("Test-Service", "http").unwrap();
    assert!(cargo_toml.contains("name = \"alpha-test-service\""));
    assert!(!cargo_toml.contains("Test-Service"));
}

#[test]
fn test_service_config_database_name() {
    let config = codegen::generate_service_config("Data-Feed").unwrap();
    assert!(config.contains("# Data-Feed service configuration"));
    assert!(config.contains("postgresql://localhost/alpha_data_feed"));
}

#[test]
fn test_service_main_variants() {
    let http = codegen::generate_service_main_rs("gateway", "http").unwrap();
    assert!(http.contains("axum::serve"));
    let plain = codegen::generate_service_main_rs("worker", "queue").unwrap();
    assert!(plain.contains("starting worker"));
    assert!(!plain.contains("axum"));
}

#[test]
fn test_react_component_test_mentions_component() {
    let t = codegen::generate_react_component_test("Chart").unwrap();
    assert!(t.contains("render(<Chart />)"));
}

#[test]
fn test_vue_component_class_name() {
    let v = codegen::generate_vue_component("PriceBoard").unwrap();
    assert!(v.contains("class=\"priceboard\""));
    assert!(v.contains("PriceBoard Component"));
}
