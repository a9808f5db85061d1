use card_lists::aggregate::{assemble_lists, partition_requests, CardListRequest};
use card_lists::data::{CardListType, ListContext, SimpleCardList, Timestamp};
use card_lists::deckbox::{get_cards_from_html, CrawlStep, DeckboxCrawl};
use card_lists::fetch::{CardListSource, ErrorCause, FetchError, FetchResult};
use card_lists::moxfield::{text_to_simple_card_list, MoxfieldBoard, MoxfieldList};

fn ctx(user: &str, category: CardListType) -> ListContext {
    ListContext { user: user.to_string(), category }
}

fn mox(id: &str) -> CardListSource {
    CardListSource::Moxfield(MoxfieldList::basic(id))
}

fn db(id: &str) -> CardListSource {
    CardListSource::Deckbox(id.to_string())
}

fn req(user: &str, source: CardListSource) -> CardListRequest {
    CardListRequest { context: ctx(user, CardListType::TradeBinder), source }
}

fn ok(cards: &[&str]) -> FetchResult {
    Ok(SimpleCardList { last_updated: Timestamp { unix_seconds: 0, subsec_nanos: 0 }, cards: cards.iter().map(|c| c.to_string()).collect() })
}

fn failed() -> FetchResult {
    Err(FetchError::RetrievalError(ErrorCause::Described("down".to_string())))
}

#[test]
fn repeated_identifier_is_fetched_once() {
    let requests = vec![req("a", mox("d1")), req("b", db("s1")), req("c", mox("d1")), req("d", mox("d2")), req("e", db("s1"))];
    let (decks, sets) = partition_requests(&requests);
    let ids: Vec<String> = decks.iter().map(|m| m.deck_id.clone()).collect();
    assert_eq!(ids, vec!["d1", "d2"]);
    assert_eq!(sets, vec!["s1"]);
}

#[test]
fn same_deck_with_other_boards_is_another_identifier() {
    let other = CardListSource::Moxfield(MoxfieldList::from_vec("d1".to_string(), vec![MoxfieldBoard::Side]));
    let requests = vec![req("a", mox("d1")), req("b", other)];
    let (decks, _) = partition_requests(&requests);
    assert_eq!(decks.len(), 2);
}

#[test]
fn results_keep_request_order_and_skip_failures() {
    let requests = vec![req("a", mox("d1")), req("b", db("s1")), req("c", mox("d2")), req("d", mox("d1"))];
    let mox_results = vec![ok(&["Forest"]), failed()];
    let db_results = vec![ok(&["Island", "Swamp"])];
    let (lists, failures) = assemble_lists(&requests, &mox_results, &db_results);
    let users: Vec<&str> = lists.iter().map(|l| l.context.user.as_str()).collect();
    assert_eq!(users, vec!["a", "b", "d"]);
    assert_eq!(lists[1].data.cards, vec!["Island", "Swamp"]);
    assert_eq!(lists[2].data.cards, vec!["Forest"]);
    assert_eq!(failures.len(), 1);
    assert_eq!(failures[0].0, 2);
}

#[test]
fn empty_request_list_yields_nothing() {
    let (lists, failures) = assemble_lists(&vec![], &vec![], &vec![]);
    assert!(lists.is_empty());
    assert!(failures.is_empty());
}

fn html_page(cards: &[&str]) -> String {
    let rows: String = cards.iter().map(|c| format!("<tr><td><a class=\"simple\">{}</a></td></tr>", c)).collect();
    format!("<table id=\"set_cards_table_details\"><tbody><tr><th>Name</th></tr>{}</tbody></table><div class=\"pagination_controls\"></div>", rows)
}

fn crawl_one(html: String) -> FetchResult {
    let mut crawl = DeckboxCrawl::start();
    match crawl.advance(get_cards_from_html(html)) {
        CrawlStep::Done(r) => r,
        CrawlStep::Fetch(_) => panic!("a single page has no next page"),
    }
}

#[test]
fn missing_table_fails_only_its_identifier() {
    let requests = vec![req("a", db("bad")), req("b", db("good"))];
    let (_, sets) = partition_requests(&requests);
    let db_results: Vec<FetchResult> = sets
        .iter()
        .map(|s| if s == "bad" { crawl_one("<html></html>".to_string()) } else { crawl_one(html_page(&["Forest"])) })
        .collect();
    let (lists, failures) = assemble_lists(&requests, &vec![], &db_results);
    assert_eq!(lists.len(), 1);
    assert_eq!(lists[0].context.user, "b");
    assert!(matches!(failures[0].1, FetchError::DataParseError(ErrorCause::MissingElement(_))));
}

#[test]
fn html_and_json_requests_end_to_end() {
    let requests = vec![
        CardListRequest { context: ctx("Spacewalk", CardListType::TradeBinder), source: db("123") },
        CardListRequest {
            context: ctx("Spacewalk", CardListType::WishList),
            source: CardListSource::Moxfield(MoxfieldList::from_vec("abc".to_string(), vec![MoxfieldBoard::Main])),
        },
    ];
    let (decks, sets) = partition_requests(&requests);
    let deck_text = "{\"lastUpdatedAtUtc\": \"2024-01-02T03:04:05Z\", \"boards\": {\"mainboard\": {\"count\": 2, \"cards\": {\"a\": {\"quantity\": 1, \"card\": {\"id\": \"a\", \"name\": \"Forest\"}}, \"b\": {\"quantity\": 3, \"card\": {\"id\": \"b\", \"name\": \"Island\"}}}}}}";
    let mox_results: Vec<FetchResult> = decks.iter().map(|d| text_to_simple_card_list(d, deck_text)).collect();
    let db_results: Vec<FetchResult> = sets.iter().map(|_| crawl_one(html_page(&["Forest", "Island", "Swamp"]))).collect();
    let (lists, failures) = assemble_lists(&requests, &mox_results, &db_results);
    assert!(failures.is_empty());
    assert_eq!(lists.len(), 2);
    assert_eq!(lists[0].data.cards.len(), 3);
    assert_eq!(lists[0].context.category, CardListType::TradeBinder);
    assert_eq!(lists[1].data.cards.len(), 2);
    assert_eq!(lists[1].context.category, CardListType::WishList);
}
