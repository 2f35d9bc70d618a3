use spider::database::{prepare_submission, Database};
use spider::fingerprint::Input;

fn sample_list() -> Vec<String> {
    vec![
        "https://w.t".to_owned(),
        "https://w.t/a".to_owned(),
        "https://w.t/b".to_owned(),
    ]
}

#[test]
fn new_database_knows_nothing() {
    let db = Database::new();
    assert!(!db.has_links("abc"));
    assert!(db.get_links("abc").is_none());
    assert!(db.count_links("abc").is_none());
    assert!(db.get_page("https://w.t").is_none());
}

#[test]
fn stored_list_is_returned_as_stored() {
    let mut db = Database::new();
    db.insert_links("id-1".to_owned(), sample_list());
    assert!(db.has_links("id-1"));
    assert_eq!(db.get_links("id-1"), Some(&sample_list()));
    assert!(db.get_links("id-2").is_none());
}

#[test]
fn count_equals_list_length() {
    let mut db = Database::new();
    db.insert_links("id-1".to_owned(), sample_list());
    db.insert_links("id-2".to_owned(), Vec::new());
    assert_eq!(db.count_links("id-1"), Some(db.get_links("id-1").unwrap().len()));
    assert_eq!(db.count_links("id-1"), Some(3));
    assert_eq!(db.count_links("id-2"), Some(0));
    assert_eq!(db.count_links("id-3"), None);
}

#[test]
fn reinserting_an_id_replaces_its_list() {
    let mut db = Database::new();
    db.insert_links("id-1".to_owned(), sample_list());
    db.insert_links("id-1".to_owned(), vec!["https://w.t".to_owned()]);
    assert_eq!(db.count_links("id-1"), Some(1));
}

#[test]
fn page_cache_round_trips() {
    let mut db = Database::new();
    db.insert_page("https://w.t".to_owned(), "<html></html>".to_owned());
    assert_eq!(db.get_page("https://w.t"), Some("<html></html>".to_owned()));
    db.insert_page("https://w.t".to_owned(), "<p>new</p>".to_owned());
    assert_eq!(db.get_page("https://w.t"), Some("<p>new</p>".to_owned()));
}

#[test]
fn second_submission_of_same_triple_needs_no_crawl() {
    let first = Input {
        address: "https://w.t".to_owned(),
        max_depth: Some(2),
        max_pages: None,
        robots_txt: Some(false),
        archive_pages: Some(true),
    };
    let second = Input {
        address: "https://w.t".to_owned(),
        max_depth: Some(2),
        max_pages: None,
        robots_txt: Some(true),
        archive_pages: None,
    };

    let mut db = Database::new();
    let (id, needs_crawl) = prepare_submission(&db, &first);
    assert!(needs_crawl);

    db.insert_links(id.clone(), sample_list());

    let (id_again, needs_crawl_again) = prepare_submission(&db, &second);
    assert_eq!(id_again, id);
    assert!(!needs_crawl_again);
    assert_eq!(db.count_links(&id_again), Some(3));
}
