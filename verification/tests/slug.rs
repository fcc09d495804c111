use md_reader::markdown::toc::{heading_rank, Level, Slugger};

#[test]
fn slugs_are_lowercase_and_dashed() {
    let mut s = Slugger::new();
    assert_eq!(s.slug("Hello World"), "hello-world");
    assert_eq!(s.slug("C++ & Rust"), "c-rust");
    assert_eq!(s.slug("a--b__c..d//e"), "a-b-c-d-e");
    assert_eq!(s.slug("  trailing  "), "trailing");
    assert_eq!(s.slug("Über Straße"), "über-straße");
    assert_eq!(s.slug("-lead and trail-"), "lead-and-trail");
    assert_eq!(s.slug("Tab\tand\u{3000}ideographic space"), "tab-and-ideographic-space");
}

#[test]
fn repeated_headings_are_numbered() {
    let mut s = Slugger::default();
    assert_eq!(s.slug("Repeat"), "repeat");
    assert_eq!(s.slug("repeat"), "repeat-2");
    assert_eq!(s.slug("REPEAT"), "repeat-3");
    for _ in 0..6 {
        s.slug("Repeat");
    }
    assert_eq!(s.slug("Repeat"), "repeat-10");
}

#[test]
fn empty_slug_falls_back_to_heading() {
    let mut s = Slugger::new();
    assert_eq!(s.slug(""), "heading");
    assert_eq!(s.slug("!!!"), "heading-2");
}

#[test]
fn numbered_anchor_can_meet_a_literal_one() {
    let mut s = Slugger::new();
    assert_eq!(s.slug("A"), "a");
    assert_eq!(s.slug("A"), "a-2");
    assert_eq!(s.slug("A-2"), "a-2");
}

#[test]
fn heading_ranks() {
    assert_eq!(heading_rank(Level::H1), 1);
    assert_eq!(heading_rank(Level::H4), 4);
    assert_eq!(heading_rank(Level::H6), 6);
}
