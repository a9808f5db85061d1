use card_lists::data::Timestamp;
use card_lists::fetch::{ErrorCause, FetchError, FetchResult};
use card_lists::moxfield::{
    decimal_text, deck_json_url, mox_board_to_json_field, text_to_simple_card_list, unique_boards, MoxfieldBoard, MoxfieldList,
    MoxfieldRetrieveError,
};

fn entry(id: &str, name: &str) -> String {
    format!("\"{}\": {{\"quantity\": 1, \"card\": {{\"id\": \"{}\", \"name\": \"{}\"}}}}", id, id, name)
}

fn deck_text() -> String {
    format!(
        "{{\"lastUpdatedAtUtc\": \"2024-01-02T03:04:05Z\", \"boards\": {{\"mainboard\": {{\"count\": 2, \"cards\": {{{}, {}}}}}, \"sideboard\": {{\"count\": 1, \"cards\": {{{}}}}}, \"maybeboard\": {{\"count\": 0, \"cards\": {{}}}}}}}}",
        entry("f1", "Forest"),
        entry("f2", "Forest"),
        entry("i1", "Island")
    )
}

fn list(boards: Vec<MoxfieldBoard>) -> MoxfieldList {
    MoxfieldList::from_vec("abc".to_string(), boards)
}

fn cards_of(r: FetchResult) -> Vec<String> {
    match r {
        Ok(l) => l.cards,
        Err(e) => panic!("expected cards, got {:?}", e),
    }
}

#[test]
fn main_board_keeps_repeated_names() {
    let r = text_to_simple_card_list(&list(vec![MoxfieldBoard::Main]), &deck_text());
    assert_eq!(cards_of(r), vec!["Forest", "Forest"]);
}

#[test]
fn boards_come_in_requested_order() {
    let r = text_to_simple_card_list(&list(vec![MoxfieldBoard::Main, MoxfieldBoard::Side]), &deck_text());
    assert_eq!(cards_of(r), vec!["Forest", "Forest", "Island"]);
    let r = text_to_simple_card_list(&list(vec![MoxfieldBoard::Side, MoxfieldBoard::Main]), &deck_text());
    assert_eq!(cards_of(r), vec!["Island", "Forest", "Forest"]);
}

#[test]
fn repeated_board_request_is_taken_once() {
    let r = text_to_simple_card_list(&list(vec![MoxfieldBoard::Side, MoxfieldBoard::Side]), &deck_text());
    assert_eq!(cards_of(r), vec!["Island"]);
    assert_eq!(unique_boards(&vec![MoxfieldBoard::Side, MoxfieldBoard::Main, MoxfieldBoard::Side]), vec![MoxfieldBoard::Side, MoxfieldBoard::Main]);
}

#[test]
fn empty_board_yields_no_cards() {
    let r = text_to_simple_card_list(&list(vec![MoxfieldBoard::Maybe]), &deck_text());
    assert_eq!(cards_of(r), Vec::<String>::new());
}

#[test]
fn last_updated_comes_from_the_deck() {
    let r = text_to_simple_card_list(&list(vec![MoxfieldBoard::Main]), &deck_text()).unwrap();
    assert_eq!(r.last_updated, Timestamp { unix_seconds: 1704164645, subsec_nanos: 0 });
}

#[test]
fn status_answer_is_a_retrieval_error() {
    let r = text_to_simple_card_list(&list(vec![MoxfieldBoard::Main]), "{\"status\": 404}");
    match r {
        Err(FetchError::RetrievalError(ErrorCause::ReportedStatus(e))) => {
            assert_eq!(e.http_status, 404);
            assert_eq!(e.deck_id, "abc");
        },
        _ => panic!("expected a reported status"),
    }
}

#[test]
fn missing_board_is_a_parse_error() {
    let text = format!(
        "{{\"lastUpdatedAtUtc\": \"2024-01-02T03:04:05Z\", \"boards\": {{\"mainboard\": {{\"count\": 1, \"cards\": {{{}}}}}}}}}",
        entry("f1", "Forest")
    );
    let r = text_to_simple_card_list(&list(vec![MoxfieldBoard::Main, MoxfieldBoard::Maybe]), &text);
    assert!(matches!(r, Err(FetchError::DataParseError(ErrorCause::MissingBoard(MoxfieldBoard::Maybe)))));
}

#[test]
fn other_shape_is_a_parse_error() {
    let r = text_to_simple_card_list(&list(vec![MoxfieldBoard::Main]), "{\"name\": \"deck\"}");
    assert!(matches!(r, Err(FetchError::DataParseError(ErrorCause::UnexpectedShape))));
    let r = text_to_simple_card_list(&list(vec![MoxfieldBoard::Main]), "{\"status\": \"gone\"}");
    assert!(matches!(r, Err(FetchError::DataParseError(ErrorCause::UnexpectedShape))));
}

#[test]
fn malformed_card_entry_is_a_parse_error() {
    let text = "{\"lastUpdatedAtUtc\": \"2024-01-02T03:04:05Z\", \"boards\": {\"mainboard\": {\"count\": 1, \"cards\": {\"x\": {\"quantity\": -1, \"card\": {\"id\": \"x\", \"name\": \"X\"}}}}}}";
    let r = text_to_simple_card_list(&list(vec![MoxfieldBoard::Main]), text);
    assert!(matches!(r, Err(FetchError::DataParseError(ErrorCause::UnexpectedShape))));
}

#[test]
fn bad_timestamp_is_a_parse_error() {
    let text = "{\"lastUpdatedAtUtc\": \"yesterday\", \"boards\": {}}";
    let r = text_to_simple_card_list(&list(vec![MoxfieldBoard::Main]), text);
    assert!(matches!(r, Err(FetchError::DataParseError(ErrorCause::Described(_)))));
}

#[test]
fn text_that_is_not_json_is_a_parse_error() {
    let r = text_to_simple_card_list(&list(vec![MoxfieldBoard::Main]), "<html>");
    assert!(matches!(r, Err(FetchError::DataParseError(ErrorCause::Described(_)))));
}

#[test]
fn board_fields() {
    assert_eq!(mox_board_to_json_field(&MoxfieldBoard::Main), "mainboard");
    assert_eq!(mox_board_to_json_field(&MoxfieldBoard::Side), "sideboard");
    assert_eq!(mox_board_to_json_field(&MoxfieldBoard::Maybe), "maybeboard");
}

#[test]
fn list_builders() {
    let b = MoxfieldList::basic("n9");
    assert_eq!(b.deck_id, "n9");
    assert_eq!(b.boards, vec![MoxfieldBoard::Main]);
    let v = MoxfieldList::from_vec("d".to_string(), vec![MoxfieldBoard::Side]);
    assert_eq!(v.boards, vec![MoxfieldBoard::Side]);
    assert!(b.same_as(&b.duplicate()));
    assert!(!b.same_as(&v));
}

#[test]
fn retrieve_error_fields() {
    let e = MoxfieldRetrieveError::new(500, "xyz");
    assert_eq!(e.http_status, 500);
    assert_eq!(e.deck_id, "xyz");
}

#[test]
fn deck_document_address() {
    assert_eq!(deck_json_url("abc"), "https://api2.moxfield.com/v3/decks/all/abc");
}

#[test]
fn retrieve_error_message() {
    let e = MoxfieldRetrieveError::new(404, "abc");
    assert_eq!(e.message(), "Received HTTP status code 404 accessing deck with ID 'abc'");
}

#[test]
fn decimal_text_writes_digits() {
    assert_eq!(decimal_text(0), "0");
    assert_eq!(decimal_text(7), "7");
    assert_eq!(decimal_text(1090), "1090");
    assert_eq!(decimal_text(u32::MAX), "4294967295");
}
