use card_lists::deckbox::{
    deck_url, get_cards_from_html, CrawlStep, DeckboxCrawl, CARD_TABLE_ID, MAX_PAGES, PAGE_CTRLS_CLASS,
};
use card_lists::fetch::{ErrorCause, FetchError};

fn row(name: &str) -> String {
    format!("<tr><td><a class=\"simple\" href=\"/mtg/{}\">{}</a></td><td>1</td></tr>", name, name)
}

fn page(cards: &[&str], next: Option<&str>) -> String {
    let rows: String = cards.iter().map(|c| row(c)).collect();
    let next_link = match next {
        Some(p) => format!("<a href=\"{}\">Next</a>", p),
        None => String::new(),
    };
    format!(
        "<html><body><table id=\"set_cards_table_details\"><tbody><tr><th>Name</th><th>Count</th></tr>{}</tbody></table><div class=\"pagination_controls\"><a href=\"/prev\">Previous</a>{}</div></body></html>",
        rows, next_link
    )
}

fn sorted(mut v: Vec<String>) -> Vec<String> {
    v.sort();
    v
}

fn missing_of(r: Result<(Vec<String>, Option<String>), FetchError>) -> (String, String) {
    match r {
        Err(FetchError::DataParseError(ErrorCause::MissingElement(e))) => (e.key, e.value),
        _ => panic!("expected a missing element"),
    }
}

#[test]
fn page_without_next_yields_its_cards() {
    let (cards, next) = get_cards_from_html(page(&["Forest", "Island", "Swamp"], None)).unwrap();
    assert_eq!(sorted(cards), vec!["Forest", "Island", "Swamp"]);
    assert_eq!(next, None);
}

#[test]
fn page_with_next_yields_path() {
    let (cards, next) = get_cards_from_html(page(&["Forest"], Some("/sets/123?p=2"))).unwrap();
    assert_eq!(cards, vec!["Forest"]);
    assert_eq!(next, Some("/sets/123?p=2".to_string()));
}

#[test]
fn repeated_rows_are_kept_once() {
    let (cards, _) = get_cards_from_html(page(&["Forest", "Island", "Forest"], None)).unwrap();
    assert_eq!(sorted(cards), vec!["Forest", "Island"]);
}

#[test]
fn header_row_is_skipped() {
    let html = "<table id=\"set_cards_table_details\"><tbody><tr><td><a class=\"simple\">Header</a></td></tr><tr><td><a class=\"simple\">Plains</a></td></tr></tbody></table><div class=\"pagination_controls\"></div>";
    let (cards, next) = get_cards_from_html(html.to_string()).unwrap();
    assert_eq!(cards, vec!["Plains"]);
    assert_eq!(next, None);
}

#[test]
fn rows_without_a_single_text_are_skipped() {
    let html = "<table id=\"set_cards_table_details\"><tbody><tr><th>h</th></tr><tr><td><a class=\"simple\"><b>Bold</b></a></td></tr><tr><td>no link</td></tr><tr><td><a class=\"simple\">Mountain</a></td></tr></tbody></table><div class=\"pagination_controls\"></div>";
    let (cards, _) = get_cards_from_html(html.to_string()).unwrap();
    assert_eq!(cards, vec!["Mountain"]);
}

#[test]
fn extraction_is_repeatable() {
    let html = page(&["Forest", "Island", "Swamp", "Island"], Some("/sets/9?p=2"));
    let (a, na) = get_cards_from_html(html.clone()).unwrap();
    let (b, nb) = get_cards_from_html(html).unwrap();
    assert_eq!(sorted(a), sorted(b));
    assert_eq!(na, nb);
}

#[test]
fn missing_table_is_a_parse_error() {
    let html = "<html><body><div class=\"pagination_controls\"></div></body></html>";
    let r = get_cards_from_html(html.to_string());
    assert_eq!(missing_of(r), ("id".to_string(), CARD_TABLE_ID.to_string()));
}

#[test]
fn missing_body_is_a_parse_error() {
    let html = "<div id=\"set_cards_table_details\">no table</div><div class=\"pagination_controls\"></div>";
    let r = get_cards_from_html(html.to_string());
    assert_eq!(missing_of(r), ("name".to_string(), "tbody".to_string()));
}

#[test]
fn missing_controls_is_a_parse_error() {
    let html = "<table id=\"set_cards_table_details\"><tbody><tr><th>h</th></tr></tbody></table>";
    let r = get_cards_from_html(html.to_string());
    assert_eq!(missing_of(r), ("class".to_string(), PAGE_CTRLS_CLASS.to_string()));
}

#[test]
fn first_page_address() {
    assert_eq!(deck_url(&"2948938".to_string()), "https://deckbox.org/sets/2948938");
}

#[test]
fn chain_of_pages_is_walked_to_its_end() {
    let pages = vec![
        page(&["Forest", "Island"], Some("/sets/1?p=2")),
        page(&["Swamp"], Some("/sets/1?p=3")),
        page(&["Mountain", "Plains"], None),
    ];
    let mut crawl = DeckboxCrawl::start();
    let mut fetches = 1;
    let mut outcome = None;
    for html in pages {
        match crawl.advance(get_cards_from_html(html)) {
            CrawlStep::Fetch(url) => {
                assert_eq!(url, format!("https://deckbox.org/sets/1?p={}", fetches + 1));
                fetches += 1;
            },
            CrawlStep::Done(r) => {
                outcome = Some(r);
                break;
            },
        }
    }
    assert_eq!(fetches, 3);
    let list = outcome.unwrap().unwrap();
    assert_eq!(sorted(list.cards), vec!["Forest", "Island", "Mountain", "Plains", "Swamp"]);
}

#[test]
fn failed_page_drops_earlier_pages() {
    let mut crawl = DeckboxCrawl::start();
    let first = crawl.advance(get_cards_from_html(page(&["Forest"], Some("/sets/1?p=2"))));
    assert!(matches!(first, CrawlStep::Fetch(_)));
    let second = crawl.advance(get_cards_from_html("<html></html>".to_string()));
    assert!(matches!(second, CrawlStep::Done(Err(FetchError::DataParseError(ErrorCause::MissingElement(_))))));
}

#[test]
fn transport_failure_ends_the_walk() {
    let mut crawl = DeckboxCrawl::start();
    let step = crawl.advance(Err(FetchError::RetrievalError(ErrorCause::Described("refused".to_string()))));
    match step {
        CrawlStep::Done(Err(FetchError::RetrievalError(ErrorCause::Described(m)))) => assert_eq!(m, "refused"),
        _ => panic!("expected the transport error"),
    }
}

#[test]
fn too_many_pages_is_a_retrieval_error() {
    let mut crawl = DeckboxCrawl { cards: vec![], pages: MAX_PAGES - 1 };
    let step = crawl.advance(get_cards_from_html(page(&["Forest"], Some("/sets/1?p=2"))));
    assert!(matches!(step, CrawlStep::Done(Err(FetchError::RetrievalError(ErrorCause::TooManyPages(n)))) if n == MAX_PAGES));
}

#[test]
fn missing_element_message() {
    let e = card_lists::deckbox::DeckboxHtmlParseError { key: "id".to_string(), value: CARD_TABLE_ID.to_string() };
    assert_eq!(e.message(), "Failed to find element with key-value pair 'id':'set_cards_table_details'");
}

#[test]
fn card_on_two_pages_is_kept_once() {
    let pages = vec![
        page(&["Forest", "Island"], Some("/sets/1?p=2")),
        page(&["Island", "Swamp"], Some("/sets/1?p=3")),
        page(&["Forest", "Plains"], None),
    ];
    let mut crawl = DeckboxCrawl::start();
    let mut outcome = None;
    for html in pages {
        if let CrawlStep::Done(r) = crawl.advance(get_cards_from_html(html)) {
            outcome = Some(r);
        }
    }
    let list = outcome.unwrap().unwrap();
    assert_eq!(sorted(list.cards), vec!["Forest", "Island", "Plains", "Swamp"]);
}

#[test]
fn merge_keeps_first_occurrences() {
    let a = vec!["Forest".to_string(), "Island".to_string()];
    let b = vec!["Island".to_string(), "Swamp".to_string(), "Swamp".to_string()];
    assert_eq!(card_lists::deckbox::merge_cards(&a, b), vec!["Forest", "Island", "Swamp"]);
}

#[test]
fn next_label_with_more_text_is_no_next_link() {
    let html = "<table id=\"set_cards_table_details\"><tbody><tr><th>h</th></tr></tbody></table><div class=\"pagination_controls\"><a href=\"/sets/1?p=2\">Next<i></i> page</a></div>";
    let (_, next) = get_cards_from_html(html.to_string()).unwrap();
    assert_eq!(next, None);
}

#[test]
fn missing_table_error_names_the_element() {
    match get_cards_from_html("<html></html>".to_string()) {
        Err(FetchError::DataParseError(ErrorCause::MissingElement(e))) => {
            assert_eq!(e.message(), "Failed to find element with key-value pair 'id':'set_cards_table_details'");
        },
        _ => panic!("expected a missing element"),
    }
}
