use openapi_joiner::document::{Category, Reference};
use openapi_joiner::loader::{load_format, output_format, path_extension, DocFormat, LoadError};
use openapi_joiner::paths::join_paths;
use openapi_joiner::refs::{parse_ref, to_ref_string};

#[test]
fn unsupported_format() {
    assert_eq!(load_format("spec.txt"), Err(LoadError::UnsupportedFormat));
}

#[test]
fn yaml_and_json_dispatch() {
    assert_eq!(load_format("spec.yaml"), Ok(DocFormat::Yaml));
    assert_eq!(load_format("dir/sub/spec.json"), Ok(DocFormat::Json));
    assert_eq!(load_format("SPEC.YAML"), Ok(DocFormat::Yaml));
    assert_eq!(load_format("a.JsOn"), Ok(DocFormat::Json));
}

#[test]
fn missing_or_odd_extensions_are_unsupported() {
    assert_eq!(load_format("noextension"), Err(LoadError::UnsupportedFormat));
    assert_eq!(load_format("dir.d/noextension"), Err(LoadError::UnsupportedFormat));
    assert_eq!(load_format(".yaml"), Err(LoadError::UnsupportedFormat));
    assert_eq!(load_format("spec.yml"), Err(LoadError::UnsupportedFormat));
}

#[test]
fn extension_extraction() {
    assert_eq!(path_extension("a/b/c.json"), Some("json".to_string()));
    assert_eq!(path_extension("c.tar.gz"), Some("gz".to_string()));
    assert_eq!(path_extension("a/b/c"), None);
    assert_eq!(path_extension("a.b/c"), None);
    assert_eq!(path_extension(".hidden"), None);
}

#[test]
fn output_format_defaults_to_json() {
    assert_eq!(output_format("-"), DocFormat::Json);
    assert_eq!(output_format("openapi.json"), DocFormat::Json);
    assert_eq!(output_format("merged.yaml"), DocFormat::Yaml);
    assert_eq!(output_format("somefile"), DocFormat::Json);
}

#[test]
fn join_paths_single_separator() {
    assert_eq!(join_paths("/catalog", "/widgets/{id}"), "/catalog/widgets/{id}");
    assert_eq!(join_paths("/users", "/"), "/users/");
    assert_eq!(join_paths("/a/", "/b"), "/a/b");
    assert_eq!(join_paths("/a", "b"), "/a/b");
    assert_eq!(join_paths("/a/", "b"), "/a/b");
}

#[test]
fn parse_component_refs() {
    match parse_ref("#/components/schemas/User") {
        Reference::Component { category, name } => {
            assert_eq!(category, Category::Schemas);
            assert_eq!(name, "User");
        }
        other => panic!("expected a component reference, got {:?}", other),
    }
    match parse_ref("#/components/requestBodies/NewPet") {
        Reference::Component { category, name } => {
            assert_eq!(category, Category::RequestBodies);
            assert_eq!(name, "NewPet");
        }
        other => panic!("expected a component reference, got {:?}", other),
    }
}

#[test]
fn parse_external_refs() {
    for raw in [
        "other.yaml#/components/schemas/User",
        "#/components/bogus/User",
        "#/components/schemas/",
        "#/components/schemas/a/b",
        "#/definitions/User",
        "",
    ] {
        match parse_ref(raw) {
            Reference::External(s) => assert_eq!(s, raw),
            other => panic!("expected an external reference for {:?}, got {:?}", raw, other),
        }
    }
}

#[test]
fn ref_round_trip() {
    let rendered = to_ref_string(Category::SecuritySchemes, "users_OAuth");
    assert_eq!(rendered, "#/components/securitySchemes/users_OAuth");
    match parse_ref(&rendered) {
        Reference::Component { category, name } => {
            assert_eq!(category, Category::SecuritySchemes);
            assert_eq!(name, "users_OAuth");
        }
        other => panic!("expected a component reference, got {:?}", other),
    }
}
