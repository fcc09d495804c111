use md_reader::markdown::toc::collect;

#[test]
fn collects_h1_to_h4_only() {
    let items = collect("# A\n\n#### D\n\n##### E\n", 0);

    assert_eq!(items.len(), 2);
    assert_eq!(items[0].id, "a");
    assert_eq!(items[1].level, 4);
}
