use wingman::frontmatter::{body_text, header_text, Frontmatter, Meta};
use wingman::{index_page, init_allowed, build_allowed, renders_on, WatchEvent};

const PAGE: &str = "---\ntitle: Wingman\ndesc: A website engine\n---\n\n# Welcome\n";

#[test]
fn header_is_between_the_first_two_markers() {
    assert_eq!(header_text(PAGE), "title: Wingman\ndesc: A website engine\n");
}

#[test]
fn header_without_second_marker_runs_to_the_end() {
    assert_eq!(header_text("intro\n---\na: 1\nb: 2"), "a: 1\nb: 2\n");
    assert_eq!(header_text("no markers here\n"), "");
    assert_eq!(header_text(""), "");
}

#[test]
fn header_drops_carriage_returns_of_ended_lines() {
    assert_eq!(header_text("---\r\ntitle: x\r\n---\r\n"), "title: x\n");
}

#[test]
fn body_follows_the_closing_marker() {
    assert_eq!(body_text(PAGE), "\n# Welcome\n");
    assert_eq!(body_text("---\ntitle: Hello\n---\nHello world"), "Hello world");
    assert_eq!(body_text("---\r\nt: 1\r\n---\r\nbody\r\n"), "body\r\n");
    // A later marker line is part of the body.
    assert_eq!(body_text("---\nt: 1\n---\n---\nbody text"), "---\nbody text");
    // Nothing after a closing marker on the last line.
    assert_eq!(body_text("---\nt: 1\n---"), "");
    assert_eq!(body_text("---\nt: 1\n---\n"), "");
}

#[test]
fn body_without_closing_marker_is_the_whole_page() {
    assert_eq!(body_text("no markers\n"), "no markers\n");
    assert_eq!(body_text("intro\n---\na: 1"), "intro\n---\na: 1");
    assert_eq!(body_text(""), "");
    assert_eq!(body_text("é\n---\n"), "é\n---\n");
}

#[test]
fn body_of_pages_with_wide_characters() {
    let page = "---\ntitle: ü\n---\nnaïve ✓\n";
    let fm = Frontmatter::new(Meta { title: "ü".to_string(), desc: None, keywords: None }, page);
    assert_eq!(fm.body, "naïve ✓\n");
    assert_eq!(fm.meta.title, "ü");
}

#[test]
fn new_page_keeps_the_text_after_its_front_matter() {
    let meta = Meta { title: "Wingman".to_string(), desc: Some("d".to_string()), keywords: None };
    let fm = Frontmatter::new(meta, PAGE);
    assert_eq!(fm.body, "\n# Welcome\n");
    assert_eq!(fm.meta.desc, Some("d".to_string()));
}

#[test]
fn default_page_is_empty() {
    let fm = Frontmatter::default();
    assert_eq!(fm.meta.title, "");
    assert!(fm.meta.desc.is_none() && fm.meta.keywords.is_none());
    assert_eq!(fm.body, "");
}

#[test]
fn index_page_reads_back_its_metadata() {
    let yaml = "title: ''\ndesc: null\nkeywords: null\n";
    let page = index_page(yaml);
    assert_eq!(page, "---\n\ntitle: ''\ndesc: null\nkeywords: null\n\n\n---");
    assert_eq!(header_text(&page), format!("\n{}\n\n", yaml));
    assert_eq!(body_text(&page), "");
}

#[test]
fn decisions_of_the_commands() {
    assert!(init_allowed(true, false));
    assert!(init_allowed(false, true));
    assert!(!init_allowed(false, false));
    assert!(build_allowed(true, true));
    assert!(!build_allowed(true, false));
    assert!(!build_allowed(false, true));
    assert!(renders_on(&WatchEvent::Access));
    assert!(renders_on(&WatchEvent::Create));
    assert!(renders_on(&WatchEvent::Modify));
    assert!(!renders_on(&WatchEvent::Remove));
    assert!(!renders_on(&WatchEvent::Any));
    assert!(!renders_on(&WatchEvent::Other));
}
