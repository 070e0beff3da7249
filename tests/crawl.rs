use store_crawler::coordinator::{Action, Crawler, Phase, StopPolicy};
use store_crawler::page::{evaluate_page, keep_tags, link_ids, PageFacts, PageReport};
use store_crawler::price::PurchaseOption;
use store_crawler::product::App;
use store_crawler::state::CrawlState;

fn link(id: u32) -> String {
    format!("https://store.steampowered.com/app/{id}/Some_Name/")
}

fn page(name: &str, prices: &[&str], links: &[u32]) -> PageFacts {
    PageFacts {
        name: Some(name.to_string()),
        tags: vec!["Puzzle".to_string(), "+".to_string()],
        options: prices
            .iter()
            .map(|p| PurchaseOption::new(false, Some(p.to_string())))
            .collect(),
        links: links.iter().map(|i| link(*i)).collect(),
    }
}

fn record(id: u32) -> App {
    App::new(id, format!("Product {id}"), vec![], 100)
}

fn price_of(apps: &[App], id: u32) -> Option<u64> {
    apps.iter().find(|a| a.id == id).map(|a| a.price)
}

#[test]
fn end_to_end_three_products() {
    let mut c = Crawler::new(&vec![400], StopPolicy::Count(3), 1);
    let pages = |id: u32| match id {
        400 => page("Portal", &["Free"], &[10, 20]),
        10 => page("Ten", &["5,00€"], &[]),
        20 => page("Twenty", &["10,00€"], &[]),
        _ => panic!("no such page"),
    };
    let mut fetched = Vec::new();
    loop {
        match c.poll(0) {
            Action::Dispatch(id) => {
                fetched.push(id);
                let report = evaluate_page(id, pages(id));
                assert!(c.complete(id, report));
            }
            Action::Wait => panic!("nothing is in flight"),
            Action::Finish => break,
        }
    }
    assert_eq!(fetched, vec![400, 10, 20]);
    let apps = c.apps();
    assert_eq!(apps.len(), 3);
    assert_eq!(price_of(apps, 400), Some(0));
    assert_eq!(price_of(apps, 10), Some(500));
    assert_eq!(price_of(apps, 20), Some(1000));
    assert_eq!(c.crawl_state().frontier_len(), 0);
    assert_eq!(c.current_phase(), Phase::Done);
}

#[test]
fn skipped_page_still_spreads_its_links() {
    let mut c = Crawler::new(&vec![77], StopPolicy::Count(5), 1);
    assert_eq!(c.poll(0), Action::Dispatch(77));
    let mut bare = page("No price", &[], &[78]);
    bare.options.clear();
    let report = evaluate_page(77, bare);
    assert!(report.app.is_none());
    assert_eq!(report.links, vec![78]);
    assert!(c.complete(77, report));
    assert!(c.crawl_state().skipped_ids().contains(&77));
    assert_eq!(c.crawl_state().frontier_len(), 1);
    assert_eq!(c.poll(0), Action::Dispatch(78));
    assert!(c.complete(78, evaluate_page(78, page("Next", &["1,00€"], &[]))));
    assert_eq!(c.poll(0), Action::Finish);
    assert!(c.apps().iter().all(|a| a.id != 77));
    assert_eq!(c.apps().len(), 1);
    assert!(c.crawl_state().skipped_ids().contains(&77));
}

#[test]
fn admission_is_refused_once_known() {
    let mut s = CrawlState::new(&vec![], None);
    assert!(s.try_admit(5));
    assert!(!s.try_admit(5));
    assert!(s.record_success(record(5)));
    assert!(!s.try_admit(5));
    assert!(s.try_admit(6));
    assert!(s.record_skip(6));
    assert!(!s.try_admit(6));
    assert!(s.try_admit(7));
    assert!(s.record_failure(7));
    assert!(!s.try_admit(7));
    assert_eq!(s.visited_ids(), &vec![5]);
    assert_eq!(s.skipped_ids(), &vec![6]);
    assert_eq!(s.failed_ids(), &vec![7]);
}

#[test]
fn outcomes_need_a_fetch_in_flight() {
    let mut s = CrawlState::new(&vec![1], None);
    assert!(!s.record_success(record(1)));
    assert!(!s.record_skip(1));
    assert!(!s.record_failure(1));
    assert_eq!(s.size(), 0);
    assert_eq!(s.pop_frontier(), Some(1));
    assert_eq!(s.pop_frontier(), None);
}

#[test]
fn frontier_is_first_in_first_out() {
    let mut s = CrawlState::new(&vec![3, 1], None);
    s.enqueue_discovered(&vec![2, 3]);
    assert_eq!(s.frontier_ids().iter().copied().collect::<Vec<_>>(), vec![3, 1, 2, 3]);
    assert_eq!(s.pop_frontier(), Some(3));
    assert_eq!(s.pop_frontier(), Some(1));
    assert_eq!(s.pop_frontier(), Some(2));
}

#[test]
fn count_target_caps_admission() {
    let mut s = CrawlState::new(&vec![], Some(1));
    assert!(s.try_admit(1));
    assert!(!s.try_admit(2));
    assert!(s.record_skip(1));
    assert!(s.try_admit(2));
    assert!(s.record_success(record(2)));
    assert!(!s.try_admit(3));
    assert_eq!(s.size(), 1);
}

#[test]
fn count_waits_for_fetches_in_flight() {
    let mut c = Crawler::new(&vec![1, 2], StopPolicy::Count(1), 4);
    assert_eq!(c.poll(0), Action::Dispatch(1));
    assert_eq!(c.poll(0), Action::Wait);
    let mut bare = page("x", &[], &[]);
    bare.options.clear();
    assert!(c.complete(1, evaluate_page(1, bare)));
    assert_eq!(c.poll(0), Action::Dispatch(2));
    assert!(c.complete(2, evaluate_page(2, page("Two", &["2"], &[]))));
    assert_eq!(c.poll(0), Action::Finish);
    assert_eq!(c.apps().len(), 1);
}

#[test]
fn worker_cap_bounds_fetches_in_flight() {
    let mut c = Crawler::new(&vec![1, 2, 3], StopPolicy::Count(10), 2);
    assert_eq!(c.poll(0), Action::Dispatch(1));
    assert_eq!(c.poll(0), Action::Dispatch(2));
    assert_eq!(c.poll(0), Action::Wait);
    assert!(c.complete(2, evaluate_page(2, page("Two", &["2"], &[1]))));
    assert_eq!(c.poll(0), Action::Dispatch(3));
    assert_eq!(c.crawl_state().in_flight_count(), 2);
}

#[test]
fn duplicate_discoveries_are_fetched_once() {
    let mut c = Crawler::new(&vec![1, 1], StopPolicy::Count(10), 3);
    assert_eq!(c.poll(0), Action::Dispatch(1));
    assert_eq!(c.poll(0), Action::Wait);
    let report = evaluate_page(1, page("One", &["1"], &[1, 2, 2]));
    assert_eq!(report.links, vec![1, 2]);
    assert!(c.complete(1, report));
    assert_eq!(c.poll(0), Action::Dispatch(2));
    assert_eq!(c.poll(0), Action::Wait);
    assert!(c.complete(2, evaluate_page(2, page("Two", &["2"], &[1]))));
    assert_eq!(c.poll(0), Action::Finish);
    assert_eq!(c.apps().len(), 2);
}

#[test]
fn duration_stops_dispatch_at_the_deadline() {
    let mut c = Crawler::new(&vec![1, 2], StopPolicy::Duration(1000), 4);
    assert_eq!(c.poll(999), Action::Dispatch(1));
    assert_eq!(c.poll(1000), Action::Wait);
    assert_eq!(c.current_phase(), Phase::Draining);
    assert!(c.complete(1, evaluate_page(1, page("One", &["1"], &[3]))));
    assert_eq!(c.poll(1001), Action::Finish);
    assert_eq!(c.apps().len(), 1);
}

#[test]
fn failed_fetch_ends_the_crawl_and_keeps_results() {
    let mut c = Crawler::new(&vec![1, 2, 3], StopPolicy::Count(10), 2);
    assert_eq!(c.poll(0), Action::Dispatch(1));
    assert_eq!(c.poll(0), Action::Dispatch(2));
    assert!(c.complete(1, evaluate_page(1, page("One", &["1"], &[]))));
    assert!(c.fail(2));
    assert!(c.is_aborted());
    assert!(!c.fail(2));
    assert_eq!(c.poll(0), Action::Finish);
    assert_eq!(c.apps().len(), 1);
    assert_eq!(c.crawl_state().failed_ids(), &vec![2]);
}

#[test]
fn zero_workers_means_one() {
    let mut c = Crawler::new(&vec![1, 2], StopPolicy::Count(10), 0);
    assert_eq!(c.poll(0), Action::Dispatch(1));
    assert_eq!(c.poll(0), Action::Wait);
}

#[test]
fn empty_seed_list_finishes_at_once() {
    let mut c = Crawler::new(&vec![], StopPolicy::Count(3), 1);
    assert_eq!(c.poll(0), Action::Finish);
    assert_eq!(c.apps().len(), 0);
}

#[test]
fn count_of_zero_admits_nothing() {
    let mut c = Crawler::new(&vec![1], StopPolicy::Count(0), 1);
    assert_eq!(c.poll(0), Action::Finish);
}

#[test]
fn page_evaluation() {
    let report: PageReport = evaluate_page(9, page("Nine", &["12.50", "9.99"], &[4, 5]));
    let app = report.app.unwrap();
    assert_eq!(app.id, 9);
    assert_eq!(app.name, "Nine");
    assert_eq!(app.tags, vec!["Puzzle".to_string()]);
    assert_eq!(app.price, 1250);
    assert_eq!(report.links, vec![4, 5]);

    assert!(evaluate_page(1, page("", &["1"], &[])).app.is_none());
    let mut nameless = page("x", &["1"], &[]);
    nameless.name = None;
    assert!(evaluate_page(1, nameless).app.is_none());
}

#[test]
fn tags_and_links_are_filtered() {
    let tags = vec!["+".to_string(), "Action".to_string(), "+".to_string(), "Indie".to_string()];
    assert_eq!(keep_tags(&tags), vec!["Action".to_string(), "Indie".to_string()]);
    let links = vec![
        "https://store.steampowered.com/app/1/".to_string(),
        "https://example.com/".to_string(),
        "https://store.steampowered.com/app/2/x/".to_string(),
        "https://store.steampowered.com/app/1/again/".to_string(),
    ];
    assert_eq!(link_ids(&links), vec![1, 2]);
}
