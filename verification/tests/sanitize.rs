use starpkg::package::{ActorSource, LoadError, Manifest, Package, TextSource};

fn manifest(name: &str) -> Result<Manifest, LoadError> {
    Manifest::new(name.to_string(), "0.1.0", Vec::new())
}

fn load_simple(
    name: &str,
    actors: Vec<ActorSource>,
    texts: Vec<TextSource>,
) -> Result<Package, LoadError> {
    let m = manifest(name).unwrap();
    Package::load(".".to_string(), m, Vec::new(), Vec::new(), actors, texts)
}

#[test]
fn bad_package_name() {
    let e = manifest("terrible package name").unwrap_err();
    assert!(matches!(e, LoadError::InvalidPackageName(_)));
    assert!(e.message().contains("invalid package name"));
}

#[test]
fn no_pkg_name() {
    let e = manifest("").unwrap_err();
    assert!(matches!(e, LoadError::InvalidPackageName(_)));
    assert!(e.message().contains("invalid package name"));
}

#[test]
fn pkg_name_pm64() {
    let e = manifest("pm64").unwrap_err();
    assert!(matches!(e, LoadError::InvalidPackageName(_)));
    assert!(e.message().contains("invalid package name"));
}

#[test]
fn bad_dependency_name() {
    let e = Manifest::new(
        "ok".to_string(),
        "0.1.0",
        vec![("_lol_".to_string(), "..".to_string())],
    )
    .unwrap_err();
    assert!(matches!(e, LoadError::InvalidDependencyName(_)));
    assert!(e.message().contains("invalid dependency name"));
}

#[test]
fn dep_name_same_as_pkg_name() {
    let e = Manifest::new(
        "word".to_string(),
        "0.1.0",
        vec![("word".to_string(), "..".to_string())],
    )
    .unwrap_err();
    assert!(matches!(e, LoadError::InvalidDependencyName(_)));
    assert!(e.message().contains("invalid dependency name"));
}

#[test]
fn bad_export_name_string() {
    let e = load_simple(
        "test_pkg",
        Vec::new(),
        vec![TextSource {
            path: "src/string/naughty.str".to_string(),
            source: "#string:01:(this is very naughty)\nSample text[WAIT][END]\n".to_string(),
        }],
    )
    .unwrap_err();
    assert!(matches!(e, LoadError::Text(_)));
    assert!(e.message().contains("invalid export name"));
}

fn cool_actor(name: &str, tattle: &str) -> ActorSource {
    ActorSource {
        dir: "src/actor/_cool_actor".to_string(),
        name: name.to_string(),
        tattle: tattle.to_string(),
        script_source: "#new:Actor $Actor\n[Index] {Actor:_cool_actor}\n".to_string(),
    }
}

#[test]
fn using_private_export_locally() {
    let mut pkg = load_simple(
        "test_pkg",
        vec![cool_actor("namestring", "tattlestring")],
        vec![TextSource {
            path: "src/string/strings.str".to_string(),
            source: "#string:01:(namestring)\n[END]\n\n#string:01:(tattlestring)\n[END]\n"
                .to_string(),
        }],
    )
    .unwrap();
    let plan = pkg.assemble(".build").unwrap();
    assert!(plan.files.len() > 0);
}

#[test]
fn no_using_private_export_externally() {
    let outside_manifest = Manifest::new("outside".to_string(), "0.1.0", Vec::new()).unwrap();
    let outside = Package::load(
        "outside".to_string(),
        outside_manifest,
        Vec::new(),
        Vec::new(),
        Vec::new(),
        vec![TextSource {
            path: "outside/src/string/strings.str".to_string(),
            source: "#string:01:(namestring)\n[END]\n\n#string:01:(_tattlestring)\n[END]\n"
                .to_string(),
        }],
    )
    .unwrap();
    let m = Manifest::new(
        "test_pkg".to_string(),
        "0.1.0",
        vec![("outside".to_string(), "outside".to_string())],
    )
    .unwrap();
    let e = Package::load(
        ".".to_string(),
        m,
        vec![outside],
        Vec::new(),
        vec![cool_actor("outside/namestring", "outside/_tattlestring")],
        Vec::new(),
    )
    .unwrap_err();
    assert!(matches!(e, LoadError::Actor(_)));
    assert!(e.message().contains("identifier '_tattlestring'"));
}

#[test]
fn bad_name() {
    for name in ["bad name for package", "_not_allowed", "not_allowed_", "not/ok", "pm64"] {
        assert!(Package::new(".".to_string(), name.to_string()).is_err());
    }
    assert!(Package::new(".".to_string(), "test_pkg".to_string()).is_ok());
}
