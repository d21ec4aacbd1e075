use openapi_joiner::config::{AppField, Application, Config};

fn app(prefix: &str, path: &str, source: &str) -> Application {
    Application {
        name: None,
        prefix: prefix.to_string(),
        path: path.to_string(),
        source: source.to_string(),
    }
}

#[test]
fn valid_configuration() {
    let config = Config {
        applications: vec![
            app("users", "/users", "users.yaml"),
            app("orders_v2", "/orders/v2", "orders.json"),
            app("_internal", "/internal", "internal.yaml"),
        ],
    };
    assert_eq!(config.validate(), Ok(()));
}

#[test]
fn duplicate_prefixes() {
    let config = Config {
        applications: vec![app("users", "/a", "a.yaml"), app("users", "/b", "b.yaml")],
    };
    assert_eq!(config.validate(), Err("Prefixes are not unique".to_string()));
}

#[test]
fn duplicate_paths() {
    let config = Config {
        applications: vec![app("a", "/same", "a.yaml"), app("b", "/same", "b.yaml")],
    };
    assert_eq!(config.validate(), Err("Paths are not unique".to_string()));
}

#[test]
fn duplicate_sources() {
    let config = Config {
        applications: vec![app("a", "/a", "same.yaml"), app("b", "/b", "same.yaml")],
    };
    assert_eq!(config.validate(), Err("Specs are not unique".to_string()));
}

#[test]
fn invalid_prefix() {
    let config = Config { applications: vec![app("9users", "/users", "users.yaml")] };
    assert_eq!(
        config.validate(),
        Err("Application prefix 9users is not valid".to_string())
    );
}

#[test]
fn invalid_path() {
    for bad in ["users", "/users/", "/a//b", "/", ""] {
        let config = Config { applications: vec![app("users", bad, "users.yaml")] };
        assert_eq!(
            config.validate(),
            Err(format!("Application path {} is not valid", bad)),
            "path {:?} should be rejected",
            bad
        );
    }
}

#[test]
fn first_failure_wins() {
    // duplicate paths outrank a later invalid prefix, prefixes outrank paths
    let config = Config {
        applications: vec![app("a", "/same", "a.yaml"), app("9b", "/same", "b.yaml")],
    };
    assert_eq!(config.validate(), Err("Paths are not unique".to_string()));
    let config = Config {
        applications: vec![app("a", "/same", "a.yaml"), app("a", "/same", "b.yaml")],
    };
    assert_eq!(config.validate(), Err("Prefixes are not unique".to_string()));
}

#[test]
fn prefix_then_path_within_one_application() {
    let config = Config { applications: vec![app("9a", "bad", "a.yaml")] };
    assert_eq!(config.validate(), Err("Application prefix 9a is not valid".to_string()));
}

#[test]
fn check_unique_reports_field_name() {
    let config = Config {
        applications: vec![app("a", "/a", "x.yaml"), app("b", "/b", "x.yaml")],
    };
    assert_eq!(
        config.check_unique(&config.applications, AppField::Prefix, "Prefixes"),
        Ok(())
    );
    assert_eq!(
        config.check_unique(&config.applications, AppField::Source, "Specs"),
        Err("Specs are not unique".to_string())
    );
}
