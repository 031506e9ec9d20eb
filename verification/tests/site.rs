use rpcrouter::site::{StaticTarget, content_type, extension, missing_file, public_index, static_target};

#[test]
fn paths_of_the_control_site_are_resolved() {
    assert!(matches!(missing_file("chains/1"), StaticTarget::Index));
    for path in [
        "/dashboard//etc/passwd",
        "/dashboard///etc/passwd",
        "/dashboard/%2e%2e/etc/passwd",
        "/dashboard/../etc/passwd",
    ] {
        assert!(matches!(static_target(path), StaticTarget::Missing), "{path}");
    }
    assert!(matches!(static_target("/dashboard/"), StaticTarget::Index));
    assert!(matches!(missing_file("assets/missing.js"), StaticTarget::Missing));
    let StaticTarget::File(path) = static_target("/dashboard/assets/app.js") else {
        panic!("a file is asked for");
    };
    assert_eq!(path, "assets/app.js");
    assert_eq!(content_type("assets/app.js"), "text/javascript; charset=utf-8");
}

#[test]
fn paths_of_the_public_site_are_told_apart() {
    for path in ["/", "/chain/1", "/chain/1/"] {
        assert!(public_index(path), "{path}");
    }
    for path in ["/chain/../x", "/..", "/chain/", "/chain/x", "/other"] {
        assert!(!public_index(path), "{path}");
    }
}

#[test]
fn files_are_told_apart_by_their_extension() {
    assert_eq!(extension("a/b.tar.gz").as_deref(), Some("gz"));
    assert_eq!(extension("a.b/c"), None);
    assert_eq!(extension(".hidden"), None);
    assert!(content_type("index.html").starts_with("text/html"));
    assert_eq!(content_type("x.unknown"), "application/octet-stream");
}
