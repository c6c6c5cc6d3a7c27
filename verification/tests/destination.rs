use std::path::PathBuf;
use wingman::{destination_for, plan_render, RenderPlan, WingmanError};

#[test]
fn maps_source_paths_into_the_target_tree() {
    let dest = destination_for("/site/www", "/site/_site", "/site/www/blog/post.md")
        .ok()
        .expect("path inside the source tree should map");

    assert_eq!(PathBuf::from(dest), PathBuf::from("/site/_site/blog/post.md"));
}

#[test]
fn rejects_paths_outside_the_source_tree() {
    // Nothing under the source root, so there is no output location for it.
    let err = destination_for("/site/www", "/site/_site", "/etc/passwd");

    assert!(err.is_err());
}

#[test]
fn rejects_traversal_out_of_the_target_tree() {
    // Textually prefixed by the source root, but the `..` segments walk back
    // out again -- joining this onto the target would escape it entirely.
    let err = destination_for(
        "/site/www",
        "/site/_site",
        "/site/www/../../etc/cron.d/payload.md",
    );

    assert!(err.is_err());
}

#[test]
fn destination_text_is_exact() {
    let dest = destination_for("/site/www", "/site/_site", "/site/www/blog/post.md").ok().unwrap();
    assert_eq!(dest, "/site/_site/blog/post.md");
    let dest = destination_for("www", "_site/", "www/a.css").ok().unwrap();
    assert_eq!(dest, "_site/a.css");
    let dest = destination_for("./www/", "out", "./www//x/./y.md").ok().unwrap();
    assert_eq!(dest, "out/x/y.md");
    assert!(destination_for("./www/", "out", "www/x/y.md").is_err());
    let dest = destination_for("./www/", "out", "./www//x/./y.md").ok().unwrap();
    assert_eq!(dest, "out/x/y.md");
}

#[test]
fn source_root_itself_maps_to_target_root() {
    let dest = destination_for("/site/www", "/site/_site", "/site/www").ok().unwrap();
    assert_eq!(dest, "/site/_site/");
}

#[test]
fn rejected_paths_carry_the_input() {
    match destination_for("/site/www", "/site/_site", "/site/wwwx/a.md") {
        Err(WingmanError::OutsideSourceTree(p)) => assert_eq!(p, "/site/wwwx/a.md"),
        _ => panic!("a sibling directory is not under the source root"),
    }
    match destination_for("/site/www", "/site/_site", "/site/www/a/../b.md") {
        Err(WingmanError::OutsideSourceTree(p)) => assert_eq!(p, "/site/www/a/../b.md"),
        _ => panic!("`..` below the source root is refused"),
    }
}

#[test]
fn empty_source_root_lets_a_rooted_path_through() {
    // With no components in the source root, a rooted path replaces the target.
    let dest = destination_for("", "/site/_site", "/etc/passwd").ok().unwrap();
    assert_eq!(dest, "/etc/passwd");
}

#[test]
fn destination_lands_under_target_components() {
    let dest = destination_for("/a/b", "/t", "/a/b/c/d/e.txt").ok().unwrap();
    let dest = PathBuf::from(dest);
    assert!(dest.starts_with("/t"));
    assert_eq!(dest.strip_prefix("/t").unwrap(), PathBuf::from("c/d/e.txt"));
}

#[test]
fn plan_for_markdown_is_an_html_page() {
    match plan_render("/s", "/t", "/s/blog/post.md", true, true) {
        Ok(RenderPlan::Page { html_destination }) => {
            assert_eq!(html_destination, Some("/t/blog/post.html".to_string()))
        }
        _ => panic!("a markdown file is a page"),
    }
}

#[test]
fn plan_for_stylesheet_and_others() {
    match plan_render("/s", "/t", "/s/static/page.css", true, true) {
        Ok(RenderPlan::Stylesheet { destination }) => assert_eq!(destination, "/t/static/page.css"),
        _ => panic!("a css file is a style sheet"),
    }
    assert!(matches!(plan_render("/s", "/t", "/s/img.png", true, true), Ok(RenderPlan::Other)));
    assert!(matches!(plan_render("/s", "/t", "/s/.md", true, true), Ok(RenderPlan::Other)));
    assert!(matches!(plan_render("/s", "/t", "/s/README", true, true), Ok(RenderPlan::Other)));
}

#[test]
fn plan_errors_come_in_order() {
    assert!(matches!(
        plan_render("/s", "/t", "/elsewhere/a.md", false, false),
        Err(WingmanError::InputNotExist(_))
    ));
    assert!(matches!(
        plan_render("/s", "/t", "/s/dir", true, false),
        Err(WingmanError::InputNotFile(_))
    ));
    assert!(matches!(
        plan_render("/s", "/t", "/elsewhere/a.md", true, true),
        Err(WingmanError::OutsideSourceTree(_))
    ));
}

#[test]
fn plan_for_page_at_the_root_has_no_html_name() {
    // The source root is itself the page; the target `/` has no file name.
    match plan_render("/s/index.md", "/", "/s/index.md", true, true) {
        Ok(RenderPlan::Page { html_destination }) => assert_eq!(html_destination, None),
        _ => panic!("a markdown file is a page"),
    }
}

#[test]
fn error_messages() {
    assert_eq!(WingmanError::InputNotExist("x".to_string()).message(), "input does not exist");
    assert_eq!(WingmanError::InputNotFile("x".to_string()).message(), "input is not a file");
    assert_eq!(
        WingmanError::OutsideSourceTree("x".to_string()).message(),
        "input resolves outside the source directory"
    );
}
