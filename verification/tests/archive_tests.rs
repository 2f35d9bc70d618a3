use spider::archive::archive_paths;
use spider::scrap::process_document;
use spider::options::SpiderOptions;
use spider::spider_state::SpiderState;

#[test]
fn archive_paths_for_a_page() {
    let (dir, file) = archive_paths("w.t", "deep/page");
    assert_eq!(dir, "downloaded/w.t/deep/page".to_owned());
    assert_eq!(file, "downloaded/w.t/deep/page/index.html".to_owned());
}

#[test]
fn archive_paths_for_the_root() {
    let (dir, file) = archive_paths("w.t", "");
    assert_eq!(dir, "downloaded/w.t/".to_owned());
    assert_eq!(file, "downloaded/w.t/index.html".to_owned());
}

#[test]
fn process_document_feeds_links_into_the_frontier() {
    const SOURCE: &str = r#"
        <a href="/Test1"></a>
        <a href="/Test2"></a>"#;

    let mut s = SpiderState::new(
        "https://www.test.com".to_owned(),
        SpiderOptions::new(None, None, false, false),
    );
    let t = s.task().unwrap();
    process_document(&mut s, SOURCE, t.depth);

    let second = s.task().unwrap();
    let third = s.task().unwrap();
    assert_eq!(s.task(), None);

    let mut got = vec![second.url, third.url];
    got.sort();
    assert_eq!(
        got,
        vec![
            "https://www.test.com/Test1".to_owned(),
            "https://www.test.com/Test2".to_owned(),
        ]
    );
    assert_eq!(second.depth, 1);
    assert_eq!(third.depth, 1);
}
