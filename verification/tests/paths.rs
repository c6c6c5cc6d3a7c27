use std::path::{Component as StdComponent, Path};
use wingman::{template_entry, TemplateKind};
use wingman::path::{join, parse_components, render_from, path_extension, set_extension, PathComponent};

fn names(s: &str) -> Vec<String> {
    parse_components(s)
        .into_iter()
        .map(|c| match c {
            PathComponent::RootDir => "/".to_string(),
            PathComponent::CurDir => ".".to_string(),
            PathComponent::ParentDir => "..".to_string(),
            PathComponent::Normal(n) => n,
        })
        .collect()
}

fn std_names(s: &str) -> Vec<String> {
    Path::new(s)
        .components()
        .map(|c| match c {
            StdComponent::RootDir => "/".to_string(),
            StdComponent::CurDir => ".".to_string(),
            StdComponent::ParentDir => "..".to_string(),
            StdComponent::Normal(n) => n.to_str().unwrap().to_string(),
            StdComponent::Prefix(_) => unreachable!(),
        })
        .collect()
}

#[test]
fn components_agree_with_std() {
    for s in [
        "", "/", "//", ".", "./", "./a", "a/.", "a/./b", "/a//b/", "..", "../a/..", "a/b/c.md",
        "/site/www/../../etc", ".a/.b", "./../x", "/./a", "a//", "...",
    ] {
        assert_eq!(names(s), std_names(s), "components of {:?}", s);
    }
}

#[test]
fn join_agrees_with_std() {
    for (base, rel) in [("a", "b"), ("a/", "b"), ("", "b"), ("a", "/b"), ("/", "x"), ("a", "")] {
        let expected = Path::new(base).join(rel);
        assert_eq!(join(base, rel), expected.to_str().unwrap(), "{:?} joined with {:?}", base, rel);
    }
}

#[test]
fn extension_agrees_with_std() {
    for s in ["a.md", "a.tar.gz", ".bashrc", "a.", "dir/", "a/b.css/", "..", "/", "x/.md", "noext", "..x"] {
        let expected = Path::new(s).extension().map(|e| e.to_str().unwrap().to_string());
        assert_eq!(path_extension(s), expected, "extension of {:?}", s);
    }
}

#[test]
fn set_extension_matches_std_components() {
    for s in ["a.md", "/t/blog/post.md", "x/.bashrc", "a.tar.gz", "/t/b/"] {
        let mut expected = Path::new(s).to_path_buf();
        assert!(expected.set_extension("html"));
        let got = set_extension(s, "html").unwrap();
        assert_eq!(Path::new(&got), expected.as_path(), "{:?} with html", s);
    }
    assert_eq!(set_extension("/", "html"), None);
    assert_eq!(set_extension("", "html"), None);
    assert_eq!(set_extension("a/..", "html"), None);
}

#[test]
fn set_extension_then_extension_is_html() {
    let got = set_extension("/t/blog/post.md", "html").unwrap();
    assert_eq!(got, "/t/blog/post.html");
    assert_eq!(path_extension(&got), Some("html".to_string()));
}

#[test]
fn template_entries() {
    let e = template_entry("/p/templates", "/p/templates/page.hbs").unwrap();
    assert_eq!(e.name, "page");
    assert!(matches!(e.kind, TemplateKind::Page));
    let e = template_entry("/p/templates", "/p/templates/partials/nav.handlebars").unwrap();
    assert_eq!(e.name, "nav");
    assert!(matches!(e.kind, TemplateKind::Partial));
    let e = template_entry("/p/templates", "/p/templates/partialsx/nav.hbs").unwrap();
    assert!(matches!(e.kind, TemplateKind::Page));
    assert!(template_entry("/p/templates", "/p/templates/readme.md").is_none());
    assert!(template_entry("/p/templates", "/p/templates/.hbs").is_none());
    let e = template_entry("/p/templates", "/p/templates/a.b.hbs").unwrap();
    assert_eq!(e.name, "a.b");
}

#[test]
fn rendered_components_read_back_the_same() {
    for s in ["/a//b/./c", "./x/../y", "..", "/", ".", "a/b/", ""] {
        let rendered = render_from(&parse_components(s), 0);
        assert_eq!(names(&rendered), names(s), "{:?} rendered as {:?}", s, rendered);
    }
    assert_eq!(render_from(&parse_components("/a//b/./c/"), 0), "/a/b/c");
    assert_eq!(render_from(&parse_components("/a/b/c"), 1), "a/b/c");
}
