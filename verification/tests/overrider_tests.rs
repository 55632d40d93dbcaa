use artifex_mcp_server::overrider::{Metadata, Node, OverrideError, Overrider, Package};

fn package(id: &str, name: &str, source: Option<&str>) -> Package {
    Package { id: id.to_string(), name: name.to_string(), source: source.map(|s| s.to_string()) }
}

const CRATES_IO: &str = "registry+https://github.com/rust-lang/crates.io-index";

fn sample() -> Metadata {
    Metadata {
        packages: vec![
            package("app 0.1.0", "app", None),
            package("serde 1.0.0", "serde", Some(CRATES_IO)),
            package("toml 0.9.0", "toml", Some(CRATES_IO)),
            package("engine 0.1.0", "artifex-engine", Some("git+https://github.com/elebihan/artifex?branch=main#abc")),
            package("local 0.1.0", "local", Some("path+file:///src/local")),
            package("deep 1.0.0", "deep", Some(CRATES_IO)),
        ],
        resolve: Some(vec![
            Node {
                id: "app 0.1.0".to_string(),
                deps: vec![
                    "serde 1.0.0".to_string(),
                    "toml 0.9.0".to_string(),
                    "engine 0.1.0".to_string(),
                    "local 0.1.0".to_string(),
                ],
            },
            Node { id: "toml 0.9.0".to_string(), deps: vec!["deep 1.0.0".to_string()] },
        ]),
        workspace_members: vec!["app 0.1.0".to_string()],
    }
}

#[test]
fn crates_io_dependency_gets_crates_io_patch() {
    let o = Overrider::new("/w/Cargo.toml".to_string(), &sample()).unwrap();
    assert_eq!(o.manifest(), "/w/Cargo.toml");
    assert_eq!(
        o.override_package("serde", "/src/serde").unwrap(),
        "\n[patch.crates.io]\nserde = { path = \"/src/serde\" }\n"
    );
}

#[test]
fn git_dependency_gets_quoted_patch() {
    let o = Overrider::new("Cargo.toml".to_string(), &sample()).unwrap();
    assert_eq!(
        o.override_package("artifex-engine", "../artifex").unwrap(),
        "\n[patch.\"https://github.com/elebihan/artifex\"]\nartifex-engine = { path = \"../artifex\" }\n"
    );
}

#[test]
fn indirect_and_path_dependencies_are_not_found() {
    let o = Overrider::new("Cargo.toml".to_string(), &sample()).unwrap();
    match o.override_package("deep", "/x") {
        Err(e) => assert_eq!(e.message(), "Not found: deep"),
        Ok(_) => panic!("an indirect dependency was overridden"),
    }
    assert!(matches!(o.override_package("local", "/x"), Err(OverrideError::NotFound(_))));
    assert!(matches!(o.override_package("nothing", "/x"), Err(OverrideError::NotFound(n)) if n == "nothing"));
}

#[test]
fn missing_resolve_graph_is_refused() {
    let mut m = sample();
    m.resolve = None;
    let r = Overrider::new("Cargo.toml".to_string(), &m);
    assert!(matches!(r, Err(OverrideError::NoResolveGraph)));
    assert_eq!(OverrideError::NoResolveGraph.message(), "No resolve graph");
}

#[test]
fn unknown_direct_dependency_is_refused() {
    let mut m = sample();
    m.packages.retain(|p| p.name != "serde");
    let r = Overrider::new("Cargo.toml".to_string(), &m);
    assert!(matches!(r, Err(OverrideError::UnknownPackage)));
    assert_eq!(OverrideError::UnknownPackage.message(), "Unknown package");
}

#[test]
fn unknown_indirect_dependency_is_ignored() {
    let mut m = sample();
    m.packages.retain(|p| p.name != "deep");
    assert!(Overrider::new("Cargo.toml".to_string(), &m).is_ok());
}

#[test]
fn first_section_in_order_wins() {
    let m = Metadata {
        packages: vec![
            package("a", "dup", Some("git+https://z.example/dup")),
            package("b", "dup", Some("git+https://a.example/dup")),
            package("c", "dup", Some(CRATES_IO)),
        ],
        resolve: Some(vec![Node {
            id: "w".to_string(),
            deps: vec!["a".to_string(), "b".to_string(), "c".to_string()],
        }]),
        workspace_members: vec!["w".to_string()],
    };
    let o = Overrider::new("Cargo.toml".to_string(), &m).unwrap();
    // "crates-io" < "https://a.example/dup" < "https://z.example/dup"
    assert_eq!(
        o.override_package("dup", "/p").unwrap(),
        "\n[patch.crates.io]\ndup = { path = \"/p\" }\n"
    );
    let m2 = Metadata {
        packages: vec![
            package("a", "dup", Some("git+https://z.example/dup")),
            package("b", "dup", Some("git+https://a.example/dup")),
        ],
        resolve: m.resolve,
        workspace_members: vec!["w".to_string()],
    };
    let o2 = Overrider::new("Cargo.toml".to_string(), &m2);
    assert!(matches!(o2, Err(OverrideError::UnknownPackage)));
}

#[test]
fn first_section_in_order_wins_among_git_sources() {
    let m = Metadata {
        packages: vec![
            package("a", "dup", Some("git+https://z.example/dup")),
            package("b", "dup", Some("git+https://a.example/dup")),
        ],
        resolve: Some(vec![Node { id: "w".to_string(), deps: vec!["a".to_string(), "b".to_string()] }]),
        workspace_members: vec!["w".to_string()],
    };
    let o = Overrider::new("Cargo.toml".to_string(), &m).unwrap();
    assert_eq!(
        o.override_package("dup", "/p").unwrap(),
        "\n[patch.\"https://a.example/dup\"]\ndup = { path = \"/p\" }\n"
    );
}

#[test]
fn later_package_with_same_id_wins() {
    let m = Metadata {
        packages: vec![
            package("x", "old-name", Some(CRATES_IO)),
            package("x", "new-name", Some(CRATES_IO)),
        ],
        resolve: Some(vec![
            Node { id: "w".to_string(), deps: vec![] },
            Node { id: "w".to_string(), deps: vec!["x".to_string()] },
        ]),
        workspace_members: vec!["w".to_string()],
    };
    let o = Overrider::new("Cargo.toml".to_string(), &m).unwrap();
    assert!(o.override_package("new-name", "/p").is_ok());
    assert!(o.override_package("old-name", "/p").is_err());
}

#[test]
fn dependencies_of_all_members_count() {
    let m = Metadata {
        packages: vec![
            package("s", "serde", Some(CRATES_IO)),
            package("t", "toml", Some(CRATES_IO)),
        ],
        resolve: Some(vec![
            Node { id: "m1".to_string(), deps: vec!["s".to_string()] },
            Node { id: "m2".to_string(), deps: vec!["t".to_string(), "s".to_string()] },
        ]),
        workspace_members: vec!["m1".to_string(), "m2".to_string(), "m3".to_string()],
    };
    let o = Overrider::new("Cargo.toml".to_string(), &m).unwrap();
    assert!(o.override_package("serde", "/p").is_ok());
    assert!(o.override_package("toml", "/p").is_ok());
}
