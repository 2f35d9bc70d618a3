use spider::options::SpiderOptions;
use spider::spider_state::{SpiderState, WorkerStep};
use spider::visited_state::VisitedState;

fn opts(max_depth: Option<usize>, max_pages: Option<usize>) -> SpiderOptions {
    SpiderOptions::new(max_depth, max_pages, false, false)
}

#[test]
fn spider_state_first_task_is_base_at_depth_zero() {
    let mut s = SpiderState::new("https://w.t".to_owned(), opts(None, None));
    let t = s.task().unwrap();
    assert_eq!(t.url, "https://w.t".to_owned());
    assert_eq!(t.depth, 0);
    assert!(s.task().is_none());
}

#[test]
fn spider_state_visited_url_is_never_committed_twice() {
    let mut s = SpiderState::new("https://w.t".to_owned(), opts(None, None));
    let t = s.task().unwrap();
    s.add_urls(&[t.url.clone()], t.depth);
    assert!(s.task().is_none());
    let snapshot = s.visited_snapshot();
    assert_eq!(snapshot, vec!["https://w.t".to_owned()]);
}

#[test]
fn spider_state_depth_zero_bound_keeps_only_the_base() {
    let mut s = SpiderState::new("https://w.t".to_owned(), opts(Some(0), None));
    let t = s.task().unwrap();
    s.add_urls(&["https://w.t/a".to_owned(), "https://w.t/b".to_owned()], t.depth);
    assert!(s.task().is_none());
    assert_eq!(s.visited_snapshot().len(), 1);
}

#[test]
fn spider_state_page_bound_stops_at_three() {
    let mut s = SpiderState::new("https://w.t".to_owned(), opts(None, Some(3)));
    let mut committed = 0;
    loop {
        let t = match s.task() {
            Some(t) => t,
            None => break,
        };
        committed += 1;
        s.add_urls(
            &[
                "https://w.t/a".to_owned(),
                "https://w.t/b".to_owned(),
                "https://w.t/c".to_owned(),
                "https://w.t/d".to_owned(),
            ],
            t.depth,
        );
    }
    assert_eq!(committed, 3);
    assert_eq!(s.visited_snapshot().len(), 3);
}

#[test]
fn spider_state_pending_depth_is_minimum_of_discoveries() {
    let mut s = SpiderState::new("https://w.t".to_owned(), opts(None, None));
    let t = s.task().unwrap();
    assert_eq!(t.depth, 0);
    s.add_urls(&["https://w.t/x".to_owned()], 4);
    s.add_urls(&["https://w.t/x".to_owned()], 0);
    s.add_urls(&["https://w.t/x".to_owned()], 7);
    let next = s.task().unwrap();
    assert_eq!(next.url, "https://w.t/x".to_owned());
    assert_eq!(next.depth, 1);
}

#[test]
fn spider_state_duplicate_links_collapse_to_one_entry() {
    let mut s = SpiderState::new("https://w.t".to_owned(), opts(None, None));
    let t = s.task().unwrap();
    s.add_urls(
        &["https://w.t/a".to_owned(), "https://w.t/a".to_owned()],
        t.depth,
    );
    assert!(s.task().is_some());
    assert!(s.task().is_none());
}

#[test]
fn spider_state_worker_poll_reports_quiescence() {
    let mut s = SpiderState::new("https://w.t".to_owned(), opts(None, None));
    let step = s.worker_poll();
    let task = match step {
        WorkerStep::Work(t) => t,
        _ => panic!("expected a task"),
    };
    assert_eq!(task.url, "https://w.t".to_owned());
    assert_eq!(s.active_workers, 1);

    match s.worker_poll() {
        WorkerStep::Idle => {}
        _ => panic!("expected idle while a sibling is active"),
    }

    s.end_work();
    match s.worker_poll() {
        WorkerStep::Quiesce => {}
        _ => panic!("expected quiescence"),
    }
    assert_eq!(s.active_workers, 0);
}

#[test]
fn spider_state_work_counters_move_by_one() {
    let mut s = SpiderState::new("https://w.t".to_owned(), opts(None, None));
    assert_eq!(s.active_workers, 0);
    s.begin_work();
    s.begin_work();
    assert_eq!(s.active_workers, 2);
    s.end_work();
    assert_eq!(s.active_workers, 1);
}

#[test]
fn visited_state_commits_base_then_runs_dry() {
    let mut v = VisitedState::new("https://w.t", None, None);
    let (url, depth) = v.not_visited_last().unwrap();
    assert_eq!(url, "https://w.t".to_owned());
    assert_eq!(depth, 0);
    assert!(v.not_visited_last().is_none());
}

#[test]
fn visited_state_depth_bound_drops_deep_links() {
    let mut v = VisitedState::new("https://w.t", Some(1), None);
    let (_, depth) = v.not_visited_last().unwrap();
    v.add_urls(&["https://w.t/a".to_owned()], depth);
    let (url, d) = v.not_visited_last().unwrap();
    assert_eq!(url, "https://w.t/a".to_owned());
    assert_eq!(d, 1);
    v.add_urls(&["https://w.t/deeper".to_owned()], d);
    assert!(v.not_visited_last().is_none());
}

#[test]
fn visited_state_page_bound_stops_commits() {
    let mut v = VisitedState::new("https://w.t", None, Some(1));
    assert!(v.not_visited_last().is_some());
    v.add_urls(&["https://w.t/a".to_owned()], 0);
    assert!(v.not_visited_last().is_none());
}

#[test]
fn visited_state_keeps_minimum_depth() {
    let mut v = VisitedState::new("https://w.t", None, None);
    let (_, depth) = v.not_visited_last().unwrap();
    v.add_urls(&["https://w.t/x".to_owned()], 5);
    v.add_urls(&["https://w.t/x".to_owned()], depth);
    let (url, d) = v.not_visited_last().unwrap();
    assert_eq!(url, "https://w.t/x".to_owned());
    assert_eq!(d, 1);
}
