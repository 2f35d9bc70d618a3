use spider::scrap::scrap_links;

#[test]
fn test_scrap_links_case_two_links_ok() {
    const SOURCE: &str = r#"
        <a href="/Test1"></a>
        <a href="/Test2"></a>"#;

    let base_url = "https://www.test.com";

    let links = scrap_links(base_url, SOURCE);
    assert_eq!(links.len(), 2);
    assert_eq!(links[0], base_url.to_owned() + "/Test1");
    assert_eq!(links[1], base_url.to_owned() + "/Test2");
}

#[test]
fn test_scrap_links_case_zero_links_ok() {
    const SOURCE: &str = r#"
        <a></a>
        <h1>You spelled it wrong.</h1>"#;

    let base_url = "https://www.test.com";

    let links = scrap_links(base_url, SOURCE);
    assert_eq!(links.len(), 0);
}

#[test]
fn scrap_links_keeps_document_order_and_duplicates() {
    const SOURCE: &str = r#"
        <a href="/b"></a>
        <a href="/a"></a>
        <a href="/b"></a>"#;

    let links = scrap_links("https://w.t", SOURCE);
    assert_eq!(
        links,
        vec![
            "https://w.t/b".to_owned(),
            "https://w.t/a".to_owned(),
            "https://w.t/b".to_owned(),
        ]
    );
}

#[test]
fn scrap_links_drops_rejected_hrefs() {
    const SOURCE: &str = r#"
        <a href="relative-name"></a>
        <a href="https://elsewhere.example/x"></a>
        <a href="/kept"></a>"#;

    let links = scrap_links("https://w.t", SOURCE);
    assert_eq!(links, vec!["https://w.t/kept".to_owned()]);
}
