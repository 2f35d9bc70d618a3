use spider::normalize::normalize_url;

#[test]
fn test_normalize_url_case_full_path_ok() {
    let base_url = "https://www.test.com";
    let url = "https://www.test.com";

    let result = normalize_url(base_url, url);
    assert!(result.is_some());

    let actual = result.unwrap();
    let expected = url.to_owned();
    assert_eq!(actual, expected);
}

#[test]
fn test_normalize_url_case_html_path_ok() {
    let base_url = "https://www.test.com";
    let url = "index.html";

    let result = normalize_url(base_url, url);
    assert!(result.is_some());

    let actual = result.unwrap();
    let expected = base_url.to_owned() + "/" + url;
    assert_eq!(actual, expected);
}

#[test]
fn test_normalize_url_case_part_path_ok() {
    let base_url = "https://www.test.com";
    let url = "/route";

    let result = normalize_url(base_url, url);
    assert!(result.is_some());

    let actual = result.unwrap();
    let expected = base_url.to_owned() + url;
    assert_eq!(actual, expected);
}

#[test]
fn test_normalize_url_case_1_bad() {
    let base_url = "https://www.test.com";
    let url = "route";

    let result = normalize_url(base_url, url);
    assert!(result.is_none());
}

#[test]
fn normalize_base_itself_passes_verbatim() {
    let result = normalize_url("https://w.t", "https://w.t");
    assert_eq!(result, Some("https://w.t".to_owned()));
}

#[test]
fn normalize_root_relative_appends_to_base() {
    let result = normalize_url("https://w.t", "/route");
    assert_eq!(result, Some("https://w.t/route".to_owned()));
}

#[test]
fn normalize_bare_html_name_appends_with_slash() {
    let result = normalize_url("https://w.t", "index.html");
    assert_eq!(result, Some("https://w.t/index.html".to_owned()));
}

#[test]
fn normalize_bare_name_rejected() {
    let result = normalize_url("https://w.t", "route");
    assert_eq!(result, None);
}

#[test]
fn normalize_other_host_rejected() {
    let result = normalize_url("https://w.t", "https://other.t/x");
    assert_eq!(result, None);
}

#[test]
fn normalize_same_host_other_scheme_passes_verbatim() {
    let result = normalize_url("https://w.t", "http://w.t/deep?q=1#frag");
    assert_eq!(result, Some("http://w.t/deep?q=1#frag".to_owned()));
}

#[test]
fn normalize_query_and_fragment_kept_as_is() {
    let result = normalize_url("https://w.t", "/a?q=1#f");
    assert_eq!(result, Some("https://w.t/a?q=1#f".to_owned()));
}

#[test]
fn normalize_hostless_absolute_url_rejected() {
    let result = normalize_url("https://w.t", "mailto:someone@w.t");
    assert_eq!(result, None);
}
