//! The HTML listing source: extraction of one page and the walk across pages.
use vstd::prelude::*;
use crate::data::{append_cards, copy_cards, dedup, lemma_dedup_once, names, Card, SimpleCardList};
use vstd::string::StringExecFns;
use crate::dom::{MAX_MARKUP_CHARS, children_of, find_first, get_by_attr, get_by_child_text, get_by_name, parse_html, parsed_html, DomAttr, DomNode, QuerySpec};
use crate::fetch::{ErrorCause, FetchError, FetchResult};

verus! {

/// The identifier of a set on the listing site.
pub type DeckboxList = String;

/// The HTML listing source.
pub struct DeckboxFetcher {}

/// A page lacked the element with this key and value.
#[derive(Clone, Debug)]
pub struct DeckboxHtmlParseError {
    pub key: String,
    pub value: String,
}

impl DeckboxHtmlParseError {
    /// A description of the failure.
    pub fn message(&self) -> (r: String)
        ensures
            r@ == "Failed to find element with key-value pair '"@ + self.key@ + "':'"@ + self.value@ + "'"@,
    {
        "Failed to find element with key-value pair '".to_owned().concat(self.key.as_str()).concat("':'").concat(
            self.value.as_str(),
        ).concat("'")
    }

    /// A copy of this error.
    pub fn duplicate(&self) -> (r: Self)
        ensures
            r == *self,
    {
        DeckboxHtmlParseError { key: self.key.clone(), value: self.value.clone() }
    }
}

pub const CARD_TABLE_ID: &'static str = "set_cards_table_details";
pub const PAGE_CTRLS_CLASS: &'static str = "pagination_controls";
pub const DECKBOX_ORIGIN: &'static str = "https://deckbox.org";
/// The most pages one listing may span; a listing that links further fails.
pub const MAX_PAGES: usize = 1000;

/// What one page yields, as a value of the specification.
pub enum PageOutcome {
    /// The card names and the path of the next page, if any.
    Found(Seq<Seq<char>>, Option<Seq<char>>),
    /// The element with this key and value was missing.
    Missing(Seq<char>, Seq<char>),
    /// Any other failure.
    Failed,
}

pub open spec fn page_view(r: Result<(Vec<Card>, Option<String>), FetchError>) -> PageOutcome {
    match r {
        Ok((cards, next)) => PageOutcome::Found(
            names(cards@),
            match next {
                Some(p) => Some(p@),
                None => None,
            },
        ),
        Err(FetchError::DataParseError(ErrorCause::MissingElement(e))) => PageOutcome::Missing(e.key@, e.value@),
        Err(_) => PageOutcome::Failed,
    }
}

/// The card name that a table row holds: the single text child of the first
/// node under the row with `class="simple"`.
pub open spec fn row_card(row: DomNode) -> Option<Seq<char>> {
    match find_first(QuerySpec::Attr("class"@, "simple"@), row) {
        Some(a) => if children_of(a).len() == 1 {
            match children_of(a)[0] {
                DomNode::Text { contents } => Some(contents@),
                _ => None,
            }
        } else {
            None
        },
        None => None,
    }
}

/// The card names of `rows`, in row order; rows that hold none are passed over.
pub open spec fn row_cards(rows: Seq<DomNode>) -> Seq<Seq<char>>
    decreases rows.len(),
{
    if rows.len() == 0 {
        Seq::empty()
    } else {
        match row_card(rows.last()) {
            Some(c) => row_cards(rows.drop_last()).push(c),
            None => row_cards(rows.drop_last()),
        }
    }
}

/// The value of the last attribute named `key`.
pub open spec fn last_attr(attrs: Seq<DomAttr>, key: Seq<char>) -> Option<Seq<char>>
    decreases attrs.len(),
{
    if attrs.len() == 0 {
        None
    } else if attrs.last().name@ == key {
        Some(attrs.last().value@)
    } else {
        last_attr(attrs.drop_last(), key)
    }
}

pub open spec fn attrs_of(n: DomNode) -> Seq<DomAttr> {
    match n {
        DomNode::Element { attrs, .. } => attrs@,
        _ => Seq::empty(),
    }
}

/// The path of the next page: the `href` of the first element under the
/// pagination control whose single text child reads "Next".
pub open spec fn next_link(controls: DomNode) -> Option<Seq<char>> {
    match find_first(QuerySpec::ChildText("Next"@), controls) {
        Some(a) => last_attr(attrs_of(a), "href"@),
        None => None,
    }
}

/// The rows of the card table's body, the header row left out.
pub open spec fn body_rows(tbody: DomNode) -> Seq<DomNode> {
    if children_of(tbody).len() == 0 {
        Seq::empty()
    } else {
        children_of(tbody).drop_first()
    }
}

/// What one parsed page yields.
pub open spec fn extract_page(doc: DomNode) -> PageOutcome {
    match find_first(QuerySpec::Attr("id"@, CARD_TABLE_ID@), doc) {
        None => PageOutcome::Missing("id"@, CARD_TABLE_ID@),
        Some(table) => match find_first(QuerySpec::Name("tbody"@), table) {
            None => PageOutcome::Missing("name"@, "tbody"@),
            Some(tbody) => match find_first(QuerySpec::Attr("class"@, PAGE_CTRLS_CLASS@), doc) {
                None => PageOutcome::Missing("class"@, PAGE_CTRLS_CLASS@),
                Some(controls) => PageOutcome::Found(dedup(row_cards(body_rows(tbody))), next_link(controls)),
            },
        },
    }
}

fn missing(key: &str, value: &str) -> (r: FetchError)
    ensures
        r matches FetchError::DataParseError(ErrorCause::MissingElement(e)) && e.key@ == key@ && e.value@ == value@,
{
    FetchError::DataParseError(ErrorCause::MissingElement(DeckboxHtmlParseError { key: key.to_owned(), value: value.to_owned() }))
}

fn contains_card(cards: &Vec<Card>, c: &String) -> (r: bool)
    ensures
        r == names(cards@).contains(c@),
{
    let mut i: usize = 0;
    while i < cards.len()
        invariant
            i <= cards.len(),
            forall|j: int| 0 <= j < i ==> names(cards@)[j] != c@,
        decreases cards.len() - i,
    {
        if cards[i] == *c {
            assert(names(cards@)[i as int] == c@);
            return true;
        }
        i = i + 1;
    }
    false
}

fn card_of_row(row: &DomNode) -> (r: Option<&String>)
    ensures
        match r {
            Some(c) => row_card(*row) == Some(c@),
            None => row_card(*row) is None,
        },
{
    match get_by_attr(row, "class", "simple") {
        Some(a) => {
            let children = match a {
                DomNode::Element { children, .. } => children,
                DomNode::Text { .. } => {
                    return None;
                },
                DomNode::Other { children } => children,
            };
            if children.len() != 1 {
                return None;
            }
            match &children[0] {
                DomNode::Text { contents } => Some(contents),
                _ => None,
            }
        },
        None => None,
    }
}

fn last_attr_value(attrs: &Vec<DomAttr>, key: &str) -> (r: Option<String>)
    ensures
        match r {
            Some(v) => last_attr(attrs@, key@) == Some(v@),
            None => last_attr(attrs@, key@) is None,
        },
{
    let key = key.to_owned();
    let mut found: Option<String> = None;
    let mut i: usize = 0;
    while i < attrs.len()
        invariant
            i <= attrs.len(),
            match found {
                Some(v) => last_attr(attrs@.subrange(0, i as int), key@) == Some(v@),
                None => last_attr(attrs@.subrange(0, i as int), key@) is None,
            },
        decreases attrs.len() - i,
    {
        proof {
            let t = attrs@.subrange(0, i + 1);
            assert(t.drop_last() =~= attrs@.subrange(0, i as int));
            assert(t.last() == attrs@[i as int]);
        }
        if attrs[i].name == key {
            found = Some(attrs[i].value.clone());
        }
        i = i + 1;
    }
    assert(attrs@.subrange(0, attrs@.len() as int) =~= attrs@);
    found
}

fn cards_of_rows(tbody: &DomNode) -> (r: Vec<Card>)
    ensures
        names(r@) == dedup(row_cards(body_rows(*tbody))),
{
    let rows = match tbody {
        DomNode::Element { children, .. } => children,
        DomNode::Text { .. } => {
            return Vec::new();
        },
        DomNode::Other { children } => children,
    };
    let mut cards: Vec<Card> = Vec::new();
    if rows.len() == 0 {
        assert(names(cards@) =~= Seq::<Seq<char>>::empty());
        return cards;
    }
    let mut i: usize = 1;
    assert(rows@.subrange(1, 1) =~= Seq::<DomNode>::empty());
    assert(names(cards@) =~= Seq::<Seq<char>>::empty());
    while i < rows.len()
        invariant
            1 <= i <= rows.len(),
            children_of(*tbody) == rows@,
            names(cards@) == dedup(row_cards(rows@.subrange(1, i as int))),
        decreases rows.len() - i,
    {
        proof {
            let t = rows@.subrange(1, i + 1);
            assert(t.drop_last() =~= rows@.subrange(1, i as int));
            assert(t.last() == rows@[i as int]);
        }
        let ghost prev = row_cards(rows@.subrange(1, i as int));
        let ghost cur = row_cards(rows@.subrange(1, i + 1));
        match card_of_row(&rows[i]) {
            Some(c) => {
                proof {
                    assert(cur == prev.push(c@));
                    assert(cur.drop_last() =~= prev);
                    assert(cur.last() == c@);
                }
                if !contains_card(&cards, c) {
                    let ghost before = cards@;
                    cards.push(c.clone());
                    assert(names(cards@) =~= names(before).push(c@));
                }
            },
            None => {
                assert(cur == prev);
            },
        }
        i = i + 1;
    }
    assert(rows@.subrange(1, rows@.len() as int) =~= rows@.drop_first());
    cards
}

/// The card names of one parsed page, without repeats, and the path of the
/// next page if the page links one.
pub fn get_cards_from_document(doc: &DomNode) -> (r: Result<(Vec<Card>, Option<String>), FetchError>)
    ensures
        page_view(r) == extract_page(*doc),
{
    let card_table = match get_by_attr(doc, "id", CARD_TABLE_ID) {
        Some(t) => t,
        None => {
            return Err(missing("id", CARD_TABLE_ID));
        },
    };
    let tbody = match get_by_name(card_table, "tbody") {
        Some(t) => t,
        None => {
            return Err(missing("name", "tbody"));
        },
    };
    let cards = cards_of_rows(tbody);
    let controls = match get_by_attr(doc, "class", PAGE_CTRLS_CLASS) {
        Some(c) => c,
        None => {
            return Err(missing("class", PAGE_CTRLS_CLASS));
        },
    };
    let next_path = match get_by_child_text(controls, "Next") {
        Some(a) => match a {
            DomNode::Element { attrs, .. } => last_attr_value(attrs, "href"),
            _ => None,
        },
        None => None,
    };
    Ok((cards, next_path))
}

/// Extracting a page is repeatable: the same markup yields the same card set
/// and the same next path, and the card set holds each name of the table's
/// rows exactly once.
pub proof fn lemma_extraction_repeatable(html: Seq<char>, again: Seq<char>)
    requires
        html == again,
    ensures
        extract_page(parsed_html(html)) == extract_page(parsed_html(again)),
        extract_page(parsed_html(html)) matches PageOutcome::Found(cards, _) ==> cards.no_duplicates(),
{
    let doc = parsed_html(html);
    if let Some(table) = find_first(QuerySpec::Attr("id"@, CARD_TABLE_ID@), doc) {
        if let Some(tbody) = find_first(QuerySpec::Name("tbody"@), table) {
            lemma_dedup_once(row_cards(body_rows(tbody)));
        }
    }
}

/// The card names of one page of markup, without repeats, and the path of
/// the next page if the page links one.
pub fn get_cards_from_html(html: String) -> (r: Result<(Vec<Card>, Option<String>), FetchError>)
    requires
        html@.len() <= MAX_MARKUP_CHARS,
    ensures
        page_view(r) == extract_page(parsed_html(html@)),
{
    let doc = parse_html(html.as_str());
    get_cards_from_document(&doc)
}

/// The address of the first page of a set.
pub fn deck_url(db_list: &DeckboxList) -> (r: String)
    ensures
        r@ == DECKBOX_ORIGIN@ + "/sets/"@ + db_list@,
{
    DECKBOX_ORIGIN.to_owned().concat("/sets/").concat(db_list.as_str())
}

/// Progress of a walk across the pages of one listing: the cards gathered so
/// far and the number of pages taken.
pub struct DeckboxCrawl {
    pub cards: Vec<Card>,
    pub pages: usize,
}

/// What to do after a page.
pub enum CrawlStep {
    /// Fetch this address and hand its page over.
    Fetch(String),
    /// The walk is over, with this outcome.
    Done(FetchResult),
}

/// A step of the walk, as a value of the specification.
pub enum CrawlSpec {
    Fetch(Seq<char>),
    Finished(Seq<Seq<char>>),
    Failed,
}

pub open spec fn step_view(s: CrawlStep) -> CrawlSpec {
    match s {
        CrawlStep::Fetch(u) => CrawlSpec::Fetch(u@),
        CrawlStep::Done(Ok(list)) => CrawlSpec::Finished(names(list.cards@)),
        CrawlStep::Done(Err(_)) => CrawlSpec::Failed,
    }
}

/// The step taken after a page, given the cards gathered before it and the
/// number of pages taken before it.
pub open spec fn step_spec(cards: Seq<Seq<char>>, pages: nat, page: PageOutcome) -> CrawlSpec {
    match page {
        PageOutcome::Found(found, None) => CrawlSpec::Finished(dedup(cards + found)),
        PageOutcome::Found(found, Some(path)) => if pages + 1 < MAX_PAGES {
            CrawlSpec::Fetch(DECKBOX_ORIGIN@ + path)
        } else {
            CrawlSpec::Failed
        },
        _ => CrawlSpec::Failed,
    }
}

/// The cards of `cards` followed by those of `more`, each name once, in the
/// order first met.
pub fn merge_cards(cards: &Vec<Card>, more: Vec<Card>) -> (r: Vec<Card>)
    ensures
        names(r@) == dedup(names(cards@) + names(more@)),
{
    let mut all = copy_cards(cards);
    let ghost before = all@;
    append_cards(&mut all, more);
    assert(names(all@) =~= names(before) + names(more@));
    let mut r: Vec<Card> = Vec::new();
    let mut i: usize = 0;
    assert(names(all@).subrange(0, 0) =~= Seq::<Seq<char>>::empty());
    assert(names(r@) =~= Seq::<Seq<char>>::empty());
    while i < all.len()
        invariant
            i <= all.len(),
            names(r@) == dedup(names(all@).subrange(0, i as int)),
        decreases all.len() - i,
    {
        let ghost t = names(all@).subrange(0, i + 1);
        assert(t.drop_last() =~= names(all@).subrange(0, i as int));
        assert(t.last() == all@[i as int]@);
        if !contains_card(&r, &all[i]) {
            let ghost prev = r@;
            r.push(all[i].clone());
            assert(names(r@) =~= names(prev).push(all@[i as int]@));
        }
        i = i + 1;
    }
    assert(names(all@).subrange(0, all@.len() as int) =~= names(all@));
    r
}

impl DeckboxCrawl {
    /// A walk that has taken no page yet.
    pub fn start() -> (r: Self)
        ensures
            r.cards@ == Seq::<Card>::empty(),
            r.pages == 0,
    {
        DeckboxCrawl { cards: Vec::new(), pages: 0 }
    }

    /// Takes what one page yielded and says what comes next. A failed page
    /// ends the walk with its error, and the cards gathered before it are dropped.
    pub fn advance(&mut self, page: Result<(Vec<Card>, Option<String>), FetchError>) -> (r: CrawlStep)
        ensures
            step_view(r) == step_spec(names(old(self).cards@), old(self).pages as nat, page_view(page)),
            page is Err ==> r == CrawlStep::Done(Err(page->Err_0)),
            page is Ok ==> names(final(self).cards@) == dedup(names(old(self).cards@) + names(page->Ok_0.0@)),
            page is Ok ==> final(self).pages == (if old(self).pages < MAX_PAGES {
                old(self).pages + 1
            } else {
                old(self).pages as int
            }),
            (page is Ok && page->Ok_0.1 is Some && old(self).pages + 1 >= MAX_PAGES) ==> r == CrawlStep::Done(
                Err(FetchError::RetrievalError(ErrorCause::TooManyPages(MAX_PAGES))),
            ),
    {
        match page {
            Err(e) => CrawlStep::Done(Err(e)),
            Ok((found, next)) => {
                self.cards = merge_cards(&self.cards, found);
                let last_allowed = self.pages >= MAX_PAGES - 1;
                if self.pages < MAX_PAGES {
                    self.pages = self.pages + 1;
                }
                match next {
                    None => {
                        let cards = copy_cards(&self.cards);
                        CrawlStep::Done(Ok(SimpleCardList::with_current_time(cards)))
                    },
                    Some(path) => {
                        if last_allowed {
                            CrawlStep::Done(Err(FetchError::RetrievalError(ErrorCause::TooManyPages(MAX_PAGES))))
                        } else {
                            CrawlStep::Fetch(DECKBOX_ORIGIN.to_owned().concat(path.as_str()))
                        }
                    },
                }
            },
        }
    }
}

/// The cards of the first `j` pages of a chain of pages, each name once, in
/// the order first met.
pub open spec fn chain_cards(chain: Seq<(Seq<Seq<char>>, Option<Seq<char>>)>, j: int) -> Seq<Seq<char>>
    decreases j,
{
    if j <= 0 {
        Seq::empty()
    } else {
        dedup(chain_cards(chain, j - 1) + chain[j - 1].0)
    }
}

proof fn lemma_chain_cards_union(chain: Seq<(Seq<Seq<char>>, Option<Seq<char>>)>, j: int)
    requires
        0 <= j <= chain.len(),
    ensures
        chain_cards(chain, j).no_duplicates(),
        forall|x: Seq<char>|
            chain_cards(chain, j).contains(x) <==> exists|i: int| 0 <= i < j && (#[trigger] chain[i]).0.contains(x),
    decreases j,
{
    if j > 0 {
        lemma_chain_cards_union(chain, j - 1);
        let prev = chain_cards(chain, j - 1);
        let page = chain[j - 1].0;
        lemma_dedup_once(prev + page);
        assert forall|x: Seq<char>| (prev + page).contains(x) <==> prev.contains(x) || page.contains(x) by {
            if (prev + page).contains(x) {
                let k = choose|k: int| 0 <= k < (prev + page).len() && (prev + page)[k] == x;
                if k >= prev.len() {
                    assert(page[k - prev.len()] == x);
                }
            }
            if prev.contains(x) {
                let k = choose|k: int| 0 <= k < prev.len() && prev[k] == x;
                assert((prev + page)[k] == x);
            }
            if page.contains(x) {
                let k = choose|k: int| 0 <= k < page.len() && page[k] == x;
                assert((prev + page)[prev.len() + k] == x);
            }
        }
        assert forall|x: Seq<char>|
            chain_cards(chain, j).contains(x) <==> exists|i: int| 0 <= i < j && (#[trigger] chain[i]).0.contains(x) by {
            if page.contains(x) {
                assert(chain[j - 1].0.contains(x));
            }
            if exists|i: int| 0 <= i < j && (#[trigger] chain[i]).0.contains(x) {
                let i = choose|i: int| 0 <= i < j && (#[trigger] chain[i]).0.contains(x);
                if i < j - 1 {
                    assert(prev.contains(x));
                }
            }
        }
    }
}

/// A chain of `k` pages (at most `MAX_PAGES`) in which every page but the
/// last links a next page is walked in exactly `k` fetches: after each page
/// but the last the walk asks for the linked address, and after the last it
/// finishes with the union of the cards of all `k` pages, each name once.
pub proof fn lemma_chain_walk(chain: Seq<(Seq<Seq<char>>, Option<Seq<char>>)>)
    requires
        1 <= chain.len() <= MAX_PAGES,
        forall|i: int| 0 <= i < chain.len() - 1 ==> (#[trigger] chain[i]).1 is Some,
        chain.last().1 is None,
    ensures
        forall|i: int|
            0 <= i < chain.len() - 1 ==> step_spec(chain_cards(chain, i), i as nat, PageOutcome::Found(chain[i].0, chain[i].1))
                == CrawlSpec::Fetch(DECKBOX_ORIGIN@ + (#[trigger] chain[i]).1->0),
        step_spec(
            chain_cards(chain, chain.len() - 1),
            (chain.len() - 1) as nat,
            PageOutcome::Found(chain.last().0, chain.last().1),
        ) == CrawlSpec::Finished(chain_cards(chain, chain.len() as int)),
        chain_cards(chain, chain.len() as int).no_duplicates(),
        forall|x: Seq<char>|
            chain_cards(chain, chain.len() as int).contains(x) <==> exists|i: int|
                0 <= i < chain.len() && (#[trigger] chain[i]).0.contains(x),
{
    lemma_chain_cards_union(chain, chain.len() as int);
}

} // verus!
