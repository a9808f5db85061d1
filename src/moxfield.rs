//! The JSON deck source: deck identifiers and the decoding of the API's answers.
use vstd::prelude::*;
use crate::data::{append_cards, dedup, describe_time_error, names, parse_utc, parsed_utc, Card, SimpleCardList, Timestamp};
use crate::fetch::{ErrorCause, FetchError, FetchResult};
use crate::json::{describe_json_error, parse_json, parsed_json};
use vstd::string::StringExecFns;
use crate::json::{lemma_member_in, as_text, as_u32, field, find_member, get_field, get_text, get_u32, member, members, JsonMember, JsonValue};

verus! {

/// A board of a deck.
#[derive(Clone, Copy, Debug, PartialEq, Eq, Hash, Structural)]
pub enum MoxfieldBoard {
    Main,
    Side,
    Maybe,
}

/// A deck and the boards of it that are asked for, in the order asked.
#[derive(Clone, Debug, PartialEq, Eq, Hash)]
pub struct MoxfieldList {
    pub deck_id: String,
    pub boards: Vec<MoxfieldBoard>,
}

/// The JSON deck source.
pub struct MoxfieldFetcher {}

/// The API reported a status in place of the deck.
#[derive(Clone, Debug)]
pub struct MoxfieldRetrieveError {
    pub http_status: u32,
    pub deck_id: String,
}

/// The character of a decimal digit.
pub open spec fn digit_char(d: int) -> char {
    if d == 0 {
        '0'
    } else if d == 1 {
        '1'
    } else if d == 2 {
        '2'
    } else if d == 3 {
        '3'
    } else if d == 4 {
        '4'
    } else if d == 5 {
        '5'
    } else if d == 6 {
        '6'
    } else if d == 7 {
        '7'
    } else if d == 8 {
        '8'
    } else {
        '9'
    }
}

/// `n` written in decimal, without leading zeros.
pub open spec fn decimal(n: nat) -> Seq<char>
    decreases n,
{
    if n < 10 {
        seq![digit_char(n as int)]
    } else {
        decimal(n / 10) + seq![digit_char((n % 10) as int)]
    }
}

fn digit_text(d: u32) -> (r: &'static str)
    requires
        d < 10,
    ensures
        r@ == seq![digit_char(d as int)],
{
    match d {
        0u32 => {
            proof {
                reveal_strlit("0");
            }
            assert("0"@ =~= seq!['0']);
            "0"
        },
        1u32 => {
            proof {
                reveal_strlit("1");
            }
            assert("1"@ =~= seq!['1']);
            "1"
        },
        2u32 => {
            proof {
                reveal_strlit("2");
            }
            assert("2"@ =~= seq!['2']);
            "2"
        },
        3u32 => {
            proof {
                reveal_strlit("3");
            }
            assert("3"@ =~= seq!['3']);
            "3"
        },
        4u32 => {
            proof {
                reveal_strlit("4");
            }
            assert("4"@ =~= seq!['4']);
            "4"
        },
        5u32 => {
            proof {
                reveal_strlit("5");
            }
            assert("5"@ =~= seq!['5']);
            "5"
        },
        6u32 => {
            proof {
                reveal_strlit("6");
            }
            assert("6"@ =~= seq!['6']);
            "6"
        },
        7u32 => {
            proof {
                reveal_strlit("7");
            }
            assert("7"@ =~= seq!['7']);
            "7"
        },
        8u32 => {
            proof {
                reveal_strlit("8");
            }
            assert("8"@ =~= seq!['8']);
            "8"
        },
        _ => {
            proof {
                reveal_strlit("9");
            }
            assert("9"@ =~= seq!['9']);
            "9"
        },
    }
}

/// `n` written in decimal.
pub fn decimal_text(n: u32) -> (r: String)
    ensures
        r@ == decimal(n as nat),
    decreases n,
{
    if n < 10 {
        digit_text(n).to_owned()
    } else {
        decimal_text(n / 10).concat(digit_text(n % 10))
    }
}

impl MoxfieldRetrieveError {
    /// A description of the failure.
    pub fn message(&self) -> (r: String)
        ensures
            r@ == "Received HTTP status code "@ + decimal(self.http_status as nat) + " accessing deck with ID '"@ + self.deck_id@
                + "'"@,
    {
        "Received HTTP status code ".to_owned().concat(decimal_text(self.http_status).as_str()).concat(
            " accessing deck with ID '",
        ).concat(self.deck_id.as_str()).concat("'")
    }

    /// A copy of this error.
    pub fn duplicate(&self) -> (r: Self)
        ensures
            r == *self,
    {
        MoxfieldRetrieveError { http_status: self.http_status, deck_id: self.deck_id.clone() }
    }

    pub fn new(http_status: u32, deck_id: &str) -> (r: Self)
        ensures
            r.http_status == http_status,
            r.deck_id@ == deck_id@,
    {
        MoxfieldRetrieveError { http_status, deck_id: deck_id.to_owned() }
    }
}

/// The field of the deck document that holds a board.
pub open spec fn board_field(board: MoxfieldBoard) -> Seq<char> {
    match board {
        MoxfieldBoard::Main => "mainboard"@,
        MoxfieldBoard::Side => "sideboard"@,
        MoxfieldBoard::Maybe => "maybeboard"@,
    }
}

pub fn mox_board_to_json_field(board: &MoxfieldBoard) -> (r: &'static str)
    ensures
        r@ == board_field(*board),
{
    match board {
        MoxfieldBoard::Main => "mainboard",
        MoxfieldBoard::Side => "sideboard",
        MoxfieldBoard::Maybe => "maybeboard",
    }
}

/// What identifies a deck request: the deck and the boards, in the order asked.
pub open spec fn mox_key(m: MoxfieldList) -> (Seq<char>, Seq<MoxfieldBoard>) {
    (m.deck_id@, m.boards@)
}

impl MoxfieldList {
    /// A copy of this request.
    pub fn duplicate(&self) -> (r: Self)
        ensures
            mox_key(r) == mox_key(*self),
    {
        let mut boards: Vec<MoxfieldBoard> = Vec::new();
        let mut i: usize = 0;
        while i < self.boards.len()
            invariant
                i <= self.boards.len(),
                boards@ == self.boards@.subrange(0, i as int),
            decreases self.boards.len() - i,
        {
            boards.push(self.boards[i]);
            i = i + 1;
            assert(boards@ =~= self.boards@.subrange(0, i as int));
        }
        assert(self.boards@.subrange(0, self.boards@.len() as int) =~= self.boards@);
        MoxfieldList { deck_id: self.deck_id.clone(), boards }
    }

    /// Whether both name the same deck and the same boards in the same order.
    pub fn same_as(&self, other: &MoxfieldList) -> (r: bool)
        ensures
            r == (mox_key(*self) == mox_key(*other)),
    {
        if self.deck_id != other.deck_id || self.boards.len() != other.boards.len() {
            return false;
        }
        let mut i: usize = 0;
        while i < self.boards.len()
            invariant
                i <= self.boards.len(),
                self.boards.len() == other.boards.len(),
                forall|k: int| 0 <= k < i ==> self.boards@[k] == other.boards@[k],
            decreases self.boards.len() - i,
        {
            if self.boards[i] != other.boards[i] {
                return false;
            }
            i = i + 1;
        }
        assert(self.boards@ =~= other.boards@);
        true
    }
    pub fn from_vec(deck_id: String, boards: Vec<MoxfieldBoard>) -> (r: Self)
        ensures
            r.deck_id == deck_id,
            r.boards == boards,
    {
        MoxfieldList { deck_id, boards }
    }

    /// The main board of a deck.
    pub fn basic(deck_id: &str) -> (r: Self)
        ensures
            r.deck_id@ == deck_id@,
            r.boards@ == seq![MoxfieldBoard::Main],
    {
        MoxfieldList { deck_id: deck_id.to_owned(), boards: vec![MoxfieldBoard::Main] }
    }
}

/// `v` is an object whose field `key` is a `u32`.
pub open spec fn is_u32_field(v: JsonValue, key: Seq<char>) -> bool {
    match field(v, key) {
        Some(x) => as_u32(x) is Some,
        None => false,
    }
}

/// `v` is an object whose field `key` is a string.
pub open spec fn is_text_field(v: JsonValue, key: Seq<char>) -> bool {
    match field(v, key) {
        Some(x) => as_text(x) is Some,
        None => false,
    }
}

/// The members of the object in field `key` of `v` (none if there is no such object).
pub open spec fn object_field(v: JsonValue, key: Seq<char>) -> Seq<JsonMember> {
    match field(v, key) {
        Some(x) => match members(x) {
            Some(ms) => ms,
            None => Seq::empty(),
        },
        None => Seq::empty(),
    }
}

/// `v` is an object whose field `key` is an object.
pub open spec fn has_object_field(v: JsonValue, key: Seq<char>) -> bool {
    match field(v, key) {
        Some(x) => members(x) is Some,
        None => false,
    }
}

/// A card entry: `{"quantity": u32, "card": {"id": string, "name": string}}`.
pub open spec fn is_card_entry(v: JsonValue) -> bool {
    &&& is_u32_field(v, "quantity"@)
    &&& match field(v, "card"@) {
        Some(c) => is_text_field(c, "id"@) && is_text_field(c, "name"@),
        None => false,
    }
}

/// The card name of a card entry.
pub open spec fn entry_name(v: JsonValue) -> Seq<char> {
    as_text(field(field(v, "card"@)->0, "name"@)->0)->0
}

/// A board: `{"count": u32, "cards": {<id>: card entry, ...}}`.
pub open spec fn is_board(v: JsonValue) -> bool {
    &&& is_u32_field(v, "count"@)
    &&& has_object_field(v, "cards"@)
    &&& forall|i: int| 0 <= i < object_field(v, "cards"@).len() ==> is_card_entry(#[trigger] object_field(v, "cards"@)[i].value)
}

/// The card names of a board, one per entry, in entry order.
pub open spec fn board_names(v: JsonValue) -> Seq<Seq<char>> {
    object_field(v, "cards"@).map_values(|m: JsonMember| entry_name(m.value))
}

/// The deck shape: `{"lastUpdatedAtUtc": string, "boards": {<name>: board, ...}}`.
pub open spec fn is_deck(v: JsonValue) -> bool {
    &&& is_text_field(v, "lastUpdatedAtUtc"@)
    &&& has_object_field(v, "boards"@)
    &&& forall|i: int| 0 <= i < object_field(v, "boards"@).len() ==> is_board(#[trigger] object_field(v, "boards"@)[i].value)
}

/// The status shape: `{"status": u32}`.
pub open spec fn status_of(v: JsonValue) -> Option<u32> {
    match field(v, "status"@) {
        Some(x) => as_u32(x),
        None => None,
    }
}

/// The cards of the requested boards, board after board, or the first
/// requested board that the deck lacks.
pub open spec fn select_boards(boards: Seq<JsonMember>, req: Seq<MoxfieldBoard>) -> Result<Seq<Seq<char>>, MoxfieldBoard>
    decreases req.len(),
{
    if req.len() == 0 {
        Ok(Seq::empty())
    } else {
        match select_boards(boards, req.drop_last()) {
            Err(b) => Err(b),
            Ok(cs) => match member(boards, board_field(req.last())) {
                None => Err(req.last()),
                Some(board) => Ok(cs + board_names(board)),
            },
        }
    }
}

proof fn lemma_select_err_persists(boards: Seq<JsonMember>, req: Seq<MoxfieldBoard>, j: int, k: int)
    requires
        0 <= j <= k <= req.len(),
        select_boards(boards, req.subrange(0, j)) is Err,
    ensures
        select_boards(boards, req.subrange(0, k)) == select_boards(boards, req.subrange(0, j)),
    decreases k - j,
{
    if k > j {
        lemma_select_err_persists(boards, req, j, k - 1);
        assert(req.subrange(0, k).drop_last() =~= req.subrange(0, k - 1));
    }
}

/// The boards asked for, each once, in the order first asked.
pub fn unique_boards(boards: &Vec<MoxfieldBoard>) -> (r: Vec<MoxfieldBoard>)
    ensures
        r@ == dedup(boards@),
{
    let mut r: Vec<MoxfieldBoard> = Vec::new();
    let mut i: usize = 0;
    assert(boards@.subrange(0, 0) =~= Seq::<MoxfieldBoard>::empty());
    while i < boards.len()
        invariant
            i <= boards.len(),
            r@ == dedup(boards@.subrange(0, i as int)),
        decreases boards.len() - i,
    {
        let ghost t = boards@.subrange(0, i + 1);
        assert(t.drop_last() =~= boards@.subrange(0, i as int));
        assert(t.last() == boards@[i as int]);
        let b = boards[i];
        let mut seen = false;
        let mut j: usize = 0;
        while j < r.len()
            invariant
                j <= r.len(),
                seen == exists|k: int| 0 <= k < j && r@[k] == b,
            decreases r.len() - j,
        {
            if r[j] == b {
                seen = true;
            }
            j = j + 1;
        }
        if !seen {
            r.push(b);
        }
        i = i + 1;
    }
    assert(boards@.subrange(0, boards@.len() as int) =~= boards@);
    r
}

fn check_u32_field(v: &JsonValue, key: &str) -> (r: bool)
    ensures
        r == is_u32_field(*v, key@),
{
    match get_field(v, key) {
        Some(x) => match get_u32(x) {
            Some(_) => true,
            None => false,
        },
        None => false,
    }
}

fn check_text_field(v: &JsonValue, key: &str) -> (r: bool)
    ensures
        r == is_text_field(*v, key@),
{
    match get_field(v, key) {
        Some(x) => match get_text(x) {
            Some(_) => true,
            None => false,
        },
        None => false,
    }
}

fn get_object_field<'a>(v: &'a JsonValue, key: &str) -> (r: Option<&'a Vec<JsonMember>>)
    ensures
        match r {
            Some(ms) => has_object_field(*v, key@) && object_field(*v, key@) == ms@,
            None => !has_object_field(*v, key@) && object_field(*v, key@) == Seq::<JsonMember>::empty(),
        },
{
    match get_field(v, key) {
        Some(x) => match x {
            JsonValue::Object(ms) => Some(ms),
            _ => None,
        },
        None => None,
    }
}

fn check_card_entry(v: &JsonValue) -> (r: bool)
    ensures
        r == is_card_entry(*v),
{
    if !check_u32_field(v, "quantity") {
        return false;
    }
    match get_field(v, "card") {
        Some(c) => check_text_field(c, "id") && check_text_field(c, "name"),
        None => false,
    }
}

fn check_board(v: &JsonValue) -> (r: bool)
    ensures
        r == is_board(*v),
{
    if !check_u32_field(v, "count") {
        return false;
    }
    let entries = match get_object_field(v, "cards") {
        Some(ms) => ms,
        None => {
            return false;
        },
    };
    let mut i: usize = 0;
    while i < entries.len()
        invariant
            i <= entries.len(),
            entries@ == object_field(*v, "cards"@),
            forall|k: int| 0 <= k < i ==> is_card_entry(#[trigger] entries@[k].value),
        decreases entries.len() - i,
    {
        if !check_card_entry(&entries[i].value) {
            return false;
        }
        i = i + 1;
    }
    true
}

/// Whether `v` has the deck shape.
pub fn check_deck(v: &JsonValue) -> (r: bool)
    ensures
        r == is_deck(*v),
{
    if !check_text_field(v, "lastUpdatedAtUtc") {
        return false;
    }
    let boards = match get_object_field(v, "boards") {
        Some(ms) => ms,
        None => {
            return false;
        },
    };
    let mut i: usize = 0;
    while i < boards.len()
        invariant
            i <= boards.len(),
            boards@ == object_field(*v, "boards"@),
            forall|k: int| 0 <= k < i ==> is_board(#[trigger] boards@[k].value),
        decreases boards.len() - i,
    {
        if !check_board(&boards[i].value) {
            return false;
        }
        i = i + 1;
    }
    true
}

/// The status that `v` reports, if it has the status shape.
pub fn get_status(v: &JsonValue) -> (r: Option<u32>)
    ensures
        r == status_of(*v),
{
    match get_field(v, "status") {
        Some(x) => get_u32(x),
        None => None,
    }
}

/// The card names of a board, one per entry, in entry order.
fn names_of_board(board: &JsonValue) -> (r: Vec<Card>)
    requires
        is_board(*board),
    ensures
        names(r@) == board_names(*board),
{
    let entries = match get_object_field(board, "cards") {
        Some(ms) => ms,
        None => {
            return Vec::new();
        },
    };
    let mut r: Vec<Card> = Vec::new();
    let mut i: usize = 0;
    while i < entries.len()
        invariant
            i <= entries.len(),
            entries@ == object_field(*board, "cards"@),
            is_board(*board),
            names(r@) == board_names(*board).subrange(0, i as int),
        decreases entries.len() - i,
    {
        let ghost e = entries@[i as int].value;
        assert(is_card_entry(e));
        let card = get_field(&entries[i].value, "card").unwrap();
        let name = get_text(get_field(card, "name").unwrap()).unwrap();
        let ghost before = r@;
        r.push(name.clone());
        assert(names(r@) =~= names(before).push(name@));
        assert(board_names(*board).subrange(0, i + 1) =~= board_names(*board).subrange(0, i as int).push(entry_name(e)));
        i = i + 1;
    }
    assert(board_names(*board).subrange(0, entries@.len() as int) =~= board_names(*board));
    r
}

/// The outcome of one deck fetch, as a value of the specification.
pub enum DeckView {
    Cards(Timestamp, Seq<Seq<char>>),
    Status(u32, Seq<char>),
    MissingBoard(MoxfieldBoard),
    UnexpectedShape,
    Described,
    Other,
}

pub open spec fn fetch_view(r: FetchResult) -> DeckView {
    match r {
        Ok(list) => DeckView::Cards(list.last_updated, names(list.cards@)),
        Err(FetchError::RetrievalError(ErrorCause::ReportedStatus(e))) => DeckView::Status(e.http_status, e.deck_id@),
        Err(FetchError::DataParseError(ErrorCause::MissingBoard(b))) => DeckView::MissingBoard(b),
        Err(FetchError::DataParseError(ErrorCause::UnexpectedShape)) => DeckView::UnexpectedShape,
        Err(FetchError::DataParseError(ErrorCause::Described(_))) => DeckView::Described,
        Err(_) => DeckView::Other,
    }
}

/// The list that a deck document yields for the requested boards, stamped `last_updated`.
pub open spec fn deck_cards(deck: JsonValue, req: Seq<MoxfieldBoard>, last_updated: Timestamp) -> DeckView {
    match select_boards(object_field(deck, "boards"@), dedup(req)) {
        Ok(cs) => DeckView::Cards(last_updated, cs),
        Err(b) => DeckView::MissingBoard(b),
    }
}

/// The outcome that an answer of the deck API yields for a request.
pub open spec fn answer_outcome(deck_id: Seq<char>, req: Seq<MoxfieldBoard>, json: JsonValue) -> DeckView {
    match status_of(json) {
        Some(code) => DeckView::Status(code, deck_id),
        None => if !is_deck(json) {
            DeckView::UnexpectedShape
        } else {
            match parsed_utc(as_text(field(json, "lastUpdatedAtUtc"@)->0)->0) {
                None => DeckView::Described,
                Some(t) => deck_cards(json, req, t),
            }
        },
    }
}

/// The cards of the requested boards of a deck document, board after board in
/// the order first requested, one per entry of each board. A requested board
/// that the deck lacks fails the whole list.
pub fn moxdeck_to_simple_card_list(deck: &JsonValue, boards: &Vec<MoxfieldBoard>, last_updated: Timestamp) -> (r: FetchResult)
    requires
        is_deck(*deck),
    ensures
        fetch_view(r) == deck_cards(*deck, boards@, last_updated),
{
    let req = unique_boards(boards);
    let deck_boards = match get_object_field(deck, "boards") {
        Some(ms) => ms,
        None => {
            return Err(FetchError::DataParseError(ErrorCause::UnexpectedShape));
        },
    };
    let mut all_cards: Vec<Card> = Vec::new();
    let mut i: usize = 0;
    assert(req@.subrange(0, 0) =~= Seq::<MoxfieldBoard>::empty());
    assert(names(all_cards@) =~= Seq::<Seq<char>>::empty());
    while i < req.len()
        invariant
            i <= req.len(),
            req@ == dedup(boards@),
            deck_boards@ == object_field(*deck, "boards"@),
            is_deck(*deck),
            select_boards(deck_boards@, req@.subrange(0, i as int)) == Ok::<Seq<Seq<char>>, MoxfieldBoard>(names(all_cards@)),
        decreases req.len() - i,
    {
        let ghost t = req@.subrange(0, i + 1);
        assert(t.drop_last() =~= req@.subrange(0, i as int));
        assert(t.last() == req@[i as int]);
        let board = req[i];
        match find_member(deck_boards, mox_board_to_json_field(&board)) {
            None => {
                proof {
                    lemma_select_err_persists(deck_boards@, req@, i + 1, req@.len() as int);
                    assert(req@.subrange(0, req@.len() as int) =~= req@);
                }
                return Err(FetchError::DataParseError(ErrorCause::MissingBoard(board)));
            },
            Some(found) => {
                proof {
                    lemma_member_in(deck_boards@, board_field(board));
                    let k = choose|k: int| 0 <= k < deck_boards@.len() && deck_boards@[k].key@ == board_field(board) && deck_boards@[k].value == *found;
                    assert(is_board(object_field(*deck, "boards"@)[k].value));
                }
                let more = names_of_board(found);
                let ghost before = all_cards@;
                append_cards(&mut all_cards, more);
                assert(names(all_cards@) =~= names(before) + names(more@));
            },
        }
        i = i + 1;
    }
    assert(req@.subrange(0, req@.len() as int) =~= req@);
    Ok(SimpleCardList { last_updated, cards: all_cards })
}

/// The list that an answer of the deck API yields: a status answer is a
/// retrieval failure naming the status and the deck; an answer of neither
/// shape, or with a last-updated time that does not read, is a parse failure.
pub fn json_to_simple_card_list(mf_list: &MoxfieldList, json: &JsonValue) -> (r: FetchResult)
    ensures
        fetch_view(r) == answer_outcome(mf_list.deck_id@, mf_list.boards@, *json),
{
    match get_status(json) {
        Some(code) => {
            return Err(FetchError::RetrievalError(ErrorCause::ReportedStatus(MoxfieldRetrieveError::new(code, mf_list.deck_id.as_str()))));
        },
        None => {},
    }
    if !check_deck(json) {
        return Err(FetchError::DataParseError(ErrorCause::UnexpectedShape));
    }
    let stamp = get_text(get_field(json, "lastUpdatedAtUtc").unwrap()).unwrap();
    match parse_utc(stamp.as_str()) {
        Err(e) => Err(FetchError::DataParseError(ErrorCause::Described(describe_time_error(&e)))),
        Ok(t) => moxdeck_to_simple_card_list(json, &mf_list.boards, t),
    }
}

/// The outcome that the text of an answer of the deck API yields.
pub open spec fn text_outcome(deck_id: Seq<char>, req: Seq<MoxfieldBoard>, text: Seq<char>) -> DeckView {
    match parsed_json(text) {
        None => DeckView::Described,
        Some(json) => answer_outcome(deck_id, req, json),
    }
}

/// The list that the text of an answer of the deck API yields; text that is
/// not JSON is a parse failure.
pub fn text_to_simple_card_list(mf_list: &MoxfieldList, text: &str) -> (r: FetchResult)
    ensures
        fetch_view(r) == text_outcome(mf_list.deck_id@, mf_list.boards@, text@),
{
    match parse_json(text) {
        Err(e) => Err(FetchError::DataParseError(ErrorCause::Described(describe_json_error(&e)))),
        Ok(json) => json_to_simple_card_list(mf_list, &json),
    }
}

pub const MOXFIELD_DECKS_URL: &'static str = "https://api2.moxfield.com/v3/decks/all/";

/// The address of a deck's document.
pub fn deck_json_url(deck_id: &str) -> (r: String)
    ensures
        r@ == MOXFIELD_DECKS_URL@ + deck_id@,
{
    MOXFIELD_DECKS_URL.to_owned().concat(deck_id)
}

} // verus!
