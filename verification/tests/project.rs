use wingman::forge::plant::Plant;
use wingman::forge::seed::{Seed, VERSION};
use wingman::init::{decimal_text, is_blog_type, post_path, seed_template, signed_decimal_text, JsonFacts, BLOG_SEED, PLAIN_SEED};
use wingman::blog::{blog_index_html, md_html, seed_blog_index};
use wingman::init::{seed_is_blog, seed_kind, SeedKind};
use wingman::render::{minify_css, page_html, CssError};
use wingman::Settings;
use wingman::cli::{Args, Command, DEFAULT_PORT};
use wingman::{after_render, skips_silently, AfterRender, WingmanError};
use wingman::init::{posts_setup, PostsSetup};
use wingman::engine::{new_engine, register_entry, render_page};
use wingman::frontmatter::{Frontmatter, Meta};
use wingman::{TemplateEntry, TemplateKind};
use wingman::jsondoc::{member_of, read_json, JsonKind};

#[test]
fn seed_json_is_the_serde_layout() {
    let seed = Seed::new("My \"site\"".to_string(), "dark\n".to_string());
    assert_eq!(seed.version, VERSION);
    let json = seed.make_json();
    assert_eq!(
        json,
        format!("{{\"title\":\"My \\\"site\\\"\",\"version\":\"{}\",\"theme\":\"dark\\n\"}}", VERSION)
    );
    let value: serde_json::Value = serde_json::from_str(&json).unwrap();
    assert_eq!(value["title"], "My \"site\"");
    assert_eq!(value["theme"], "dark\n");
}

#[test]
fn seed_json_escapes_control_characters() {
    let seed = Seed::new("a\u{1}b\\".to_string(), "".to_string());
    let json = seed.make_json();
    assert!(json.starts_with("{\"title\":\"a\\u0001b\\\\\","));
}

#[test]
fn new_plant_holds_an_empty_seed() {
    let plant = Plant::new("proj".to_string(), None);
    assert_eq!(plant.pot(), "proj");
    assert_eq!(plant.seed(), &format!("{{\"title\":\"\",\"version\":\"{}\",\"theme\":\"\"}}", VERSION));
    assert!(plant.seed_struct().is_none());
}

#[test]
fn plant_with_existing_seed() {
    let seed = Seed { title: "t".to_string(), version: "9".to_string(), theme: "x".to_string() };
    let plant = Plant::build_with_existing_seed("p".to_string(), seed);
    assert_eq!(plant.seed(), "{\"title\":\"t\",\"version\":\"9\",\"theme\":\"x\"}");
    assert_eq!(plant.seed_struct().as_ref().unwrap().title, "t");
}

#[test]
fn build_dirs() {
    let plant = Plant::new("proj".to_string(), None);
    assert_eq!(plant.build_dir(None), Some("proj/target".to_string()));
    assert_eq!(plant.build_dir(Some("release")), Some("proj/target/release".to_string()));
    assert_eq!(plant.build_dir(Some("debug")), None);
}

#[test]
fn seed_templates() {
    assert_eq!(seed_template("blog"), BLOG_SEED);
    assert_eq!(seed_template("portfolio"), PLAIN_SEED);
    assert!(BLOG_SEED.contains("\"type\":\"blog\""));
    let parsed: serde_json::Value = serde_json::from_str(PLAIN_SEED).unwrap();
    assert_eq!(parsed["vars"]["title"], "");
}

#[test]
fn blog_type_check() {
    let f = |e: bool, n: bool, d: &str| JsonFacts { is_empty: e, is_null: n, dump: d.to_string() };
    assert!(is_blog_type(&f(false, false, "\"BLOG\"")));
    assert!(is_blog_type(&f(false, false, "\"blog\"")));
    assert!(!is_blog_type(&f(true, false, "\"blog\"")));
    assert!(!is_blog_type(&f(false, true, "\"blog\"")));
    assert!(!is_blog_type(&f(false, false, "\"portfolio\"")));
}

#[test]
fn post_paths_are_dated() {
    assert_eq!(post_path(2024, 3, 7, 0, 5, 59), "./bin/posts/2024-3-7-0-5-59.md");
    assert_eq!(post_path(-44, 12, 31, 23, 59, 0), "./bin/posts/-44-12-31-23-59-0.md");
    assert_eq!(decimal_text(0), "0");
    assert_eq!(decimal_text(1234567890123), "1234567890123");
    assert_eq!(signed_decimal_text(i32::MIN), i32::MIN.to_string());
}

#[test]
fn markdown_renders_to_html() {
    let html = page_html("# Hi\n\n~~gone~~ text[^1]\n\n[^1]: note\n");
    assert!(html.starts_with("<h1>Hi</h1>\n"));
    assert!(html.contains("<del>gone</del>"));
    assert!(html.contains("footnote"));
}

#[test]
fn stylesheets_are_minified() {
    match minify_css(".a {\n  color: red;\n}\n") {
        Ok(code) => assert_eq!(code, ".a{color:red}"),
        _ => panic!("valid css minifies"),
    }
    match minify_css("{}") {
        Err(CssError::Parse(msg)) => assert!(msg.contains("Invalid empty selector")),
        _ => panic!("an empty selector does not parse"),
    }
    assert!(matches!(minify_css(".a { color: red; } }"), Err(CssError::Parse(_))));
}

#[test]
fn settings_and_cli_values() {
    let _ = Settings::new();
    let args = Args { command: Some(Command::Serve { port: DEFAULT_PORT }) };
    assert!(matches!(args.command, Some(Command::Serve { port: 3030 })));
}

fn facts(value: &json::JsonValue) -> JsonFacts {
    JsonFacts { is_empty: value.is_empty(), is_null: value.is_null(), dump: value.dump() }
}

#[test]
fn blog_index_page() {
    let seed = json::parse(r#"{"vars": {"title": "T", "description": "D", "author": "A"}}"#).unwrap();
    let mut posts = Vec::new();
    md_html("# One\n\n~~x~~", &mut posts);
    md_html("two", &mut posts);
    assert_eq!(posts.len(), 2);
    assert_eq!(posts[0], "<h1>One</h1>\n<p><del>x</del></p>\n");
    let page = blog_index_html(
        &facts(&seed["vars"]["description"]),
        &facts(&seed["vars"]["author"]),
        &facts(&seed["vars"]["title"]),
        &posts,
    );
    assert!(page.starts_with("<!DOCTYPE html>\n        <html lang=\"en\">"));
    assert!(page.contains("<meta name=\"description\" content=\"D\"><meta name=\"author\" content=\"A\">"));
    assert!(page.contains("<title>\n            \"T\"\n        </title>"));
    assert!(page.contains("<article id =\"0\">\n<h1>One</h1>"));
    assert!(page.contains("<article id =\"1\">\n<p>two</p>\n</article>"));
    assert!(page.ends_with("<footer></footer>\n</body>\n</html>"));
}

#[test]
fn blog_index_page_without_values() {
    let missing = json::JsonValue::Null;
    let page = blog_index_html(&facts(&missing), &facts(&missing), &facts(&missing), &Vec::new());
    assert!(page.contains("content=\"\">\"\">\n        <title>\n            \n        </title>"));
}

#[test]
fn seed_file_decisions() {
    assert_eq!(seed_is_blog(BLOG_SEED).ok(), Some(true));
    assert_eq!(seed_is_blog(PLAIN_SEED).ok(), Some(false));
    assert_eq!(seed_is_blog(r#"{"type": "Blog"}"#).ok(), Some(true));
    assert!(seed_is_blog("{ not json").is_err());
    assert!(matches!(seed_kind(PLAIN_SEED), Ok(SeedKind::Untyped)));
    assert!(matches!(seed_kind(BLOG_SEED), Ok(SeedKind::Blog)));
    assert!(matches!(seed_kind(r#"{"type": "form"}"#), Ok(SeedKind::Other)));
    assert!(seed_kind("[").is_err());
}

#[test]
fn seed_index_page() {
    let seed = r#"{"type": "blog", "vars": {"title": "T", "description": "", "author": "A"}}"#;
    let page = seed_blog_index(seed, &vec!["<p>x</p>\n".to_string()]).ok().unwrap();
    // An empty description is still shown: it is empty but not null.
    assert!(page.contains("content=\"\"><meta name=\"author\" content=\"A\">"));
    assert!(page.contains("<article id =\"0\">\n<p>x</p>\n</article>"));
    assert!(seed_blog_index("nope", &Vec::new()).is_err());
}

#[test]
fn watch_skips_only_the_library_errors() {
    assert!(skips_silently(Some(&WingmanError::InputNotExist("a".to_string()))));
    assert!(skips_silently(Some(&WingmanError::InputNotFile("a".to_string()))));
    assert!(skips_silently(Some(&WingmanError::OutsideSourceTree("a".to_string()))));
    assert!(!skips_silently(None));
}

#[test]
fn empty_posts_directory_gets_the_example() {
    assert!(matches!(posts_setup(0), PostsSetup::WriteExample));
    assert!(matches!(posts_setup(1), PostsSetup::Gather));
    assert!(matches!(posts_setup(7), PostsSetup::Gather));
}

#[test]
fn markdown_posts_render_with_strikethrough() {
    let mut posts = vec!["kept".to_string()];
    md_html("~~a~~ *b*", &mut posts);
    assert_eq!(posts[0], "kept");
    assert_eq!(posts[1], "<p><del>a</del> <em>b</em></p>\n");
}

#[test]
fn templates_register_when_they_compile() {
    let mut engine = handlebars::Handlebars::new();
    let page = TemplateEntry { name: "page".to_string(), kind: TemplateKind::Page };
    assert!(register_entry(&mut engine, &page, "<p>{{title}}</p>").is_ok());
    assert!(engine.has_template("page"));
    let part = TemplateEntry { name: "nav".to_string(), kind: TemplateKind::Partial };
    match register_entry(&mut engine, &part, "{{#if x}}open") {
        Err(e) => {
            assert_eq!(e.name, "nav");
            assert!(matches!(e.kind, TemplateKind::Partial));
            assert!(!e.message.is_empty());
        }
        Ok(()) => panic!("an unclosed block does not compile"),
    }
    assert!(!engine.has_template("nav"));
    let part = TemplateEntry { name: "nav".to_string(), kind: TemplateKind::Partial };
    assert!(register_entry(&mut engine, &part, "<nav>{{> missing}}</nav>").is_ok());
    assert!(engine.has_template("nav"));
}

#[test]
fn json_documents_read_by_key() {
    let doc = read_json(r#"{"a": {"c": true}, "n": 0, "s": "x"}"#).ok().unwrap();
    let a = member_of(Some(&doc), "a");
    assert!(member_of(a, "c").is_some());
    assert!(member_of(a, "b").is_none());
    let n = wingman::jsondoc::facts(member_of(Some(&doc), "n"));
    assert!(n.is_empty && !n.is_null);
    assert_eq!(n.dump, "0");
    let s = wingman::jsondoc::facts(member_of(Some(&doc), "s"));
    assert!(!s.is_empty && !s.is_null);
    assert_eq!(s.dump, "\"x\"");
    let missing = wingman::jsondoc::facts(member_of(member_of(Some(&doc), "zzz"), "y"));
    assert!(missing.is_empty && missing.is_null);
    assert_eq!(missing.dump, "null");
    assert!(matches!(doc.kind, JsonKind::Object(_)));
    match read_json("{") {
        Err(e) => assert!(!e.message.is_empty()),
        Ok(_) => panic!("an open brace is no JSON"),
    }
}

#[test]
fn pages_render_through_the_page_template() {
    let mut engine = new_engine();
    let page = Frontmatter {
        meta: Meta { title: "Hi & bye".to_string(), desc: Some("d".to_string()), keywords: None },
        body: "# One\n\n~~x~~".to_string(),
    };
    match render_page(&engine, &page) {
        Err(e) => assert!(e.message.contains("page")),
        Ok(_) => panic!("no page template is registered yet"),
    }
    let entry = TemplateEntry { name: "page".to_string(), kind: TemplateKind::Page };
    let tpl = "<title>{{meta.title}}</title>[{{meta.desc}}][{{meta.keywords}}]{{{body}}}";
    assert!(register_entry(&mut engine, &entry, tpl).is_ok());
    let out = render_page(&engine, &page).ok().unwrap();
    assert_eq!(out, "<title>Hi &amp; bye</title>[d][]<h1>One</h1>\n<p><del>x</del></p>\n");
    // Registering again under the same name replaces the template.
    assert!(register_entry(&mut engine, &entry, "{{meta.title}}").is_ok());
    assert_eq!(render_page(&engine, &page).ok().unwrap(), "Hi &amp; bye");
    // A failed registration keeps the template that was there.
    assert!(register_entry(&mut engine, &entry, "{{#each}}").is_err());
    assert_eq!(render_page(&engine, &page).ok().unwrap(), "Hi &amp; bye");
}

#[test]
fn watch_reloads_after_every_path_but_the_skipped() {
    assert!(matches!(after_render(false, None), AfterRender::Reload));
    let gone = WingmanError::InputNotExist("x".to_string());
    assert!(matches!(after_render(true, Some(&gone)), AfterRender::Skip));
    assert!(matches!(after_render(true, None), AfterRender::ReportThenReload));
}
