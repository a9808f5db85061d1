//! The normalized result of a fetch and the caller's metadata.
use vstd::prelude::*;

verus! {

/// A card name.
pub type Card = String;

/// A point in time, in seconds and nanoseconds since the Unix epoch (UTC).
#[derive(Clone, Copy, Debug, PartialEq, Eq, Structural)]
pub struct Timestamp {
    pub unix_seconds: i64,
    pub subsec_nanos: u32,
}

/// The normalized outcome of one successful fetch.
#[derive(Clone, Debug)]
pub struct SimpleCardList {
    pub last_updated: Timestamp,
    pub cards: Vec<Card>,
}

/// The views of a sequence of strings.
pub open spec fn names(v: Seq<String>) -> Seq<Seq<char>> {
    v.map_values(|s: String| s@)
}

/// `s` with every repeated element dropped after its first occurrence.
pub open spec fn dedup<A>(s: Seq<A>) -> Seq<A>
    decreases s.len(),
{
    if s.len() == 0 {
        Seq::empty()
    } else if dedup(s.drop_last()).contains(s.last()) {
        dedup(s.drop_last())
    } else {
        dedup(s.drop_last()).push(s.last())
    }
}

/// Each element of `s` occurs in `dedup(s)` exactly once, and nothing else does.
pub proof fn lemma_dedup_once<A>(s: Seq<A>)
    ensures
        dedup(s).no_duplicates(),
        forall|x: A| dedup(s).contains(x) <==> s.contains(x),
    decreases s.len(),
{
    if s.len() > 0 {
        lemma_dedup_once(s.drop_last());
        assert forall|x: A| s.contains(x) <== s.drop_last().contains(x) || x == s.last() by {
            if x == s.last() {
                assert(s[s.len() - 1] == x);
            } else if s.drop_last().contains(x) {
                let k = choose|k: int| 0 <= k < s.drop_last().len() && s.drop_last()[k] == x;
                assert(s[k] == x);
            }
        }
        assert forall|x: A| s.contains(x) ==> s.drop_last().contains(x) || x == s.last() by {
            if s.contains(x) && x != s.last() {
                let k = choose|k: int| 0 <= k < s.len() && s[k] == x;
                assert(s.drop_last()[k] == x);
            }
        }
        let d = dedup(s.drop_last());
        if !d.contains(s.last()) {
            assert(dedup(s) == d.push(s.last()));
            assert forall|x: A| dedup(s).contains(x) <==> d.contains(x) || x == s.last() by {
                if dedup(s).contains(x) {
                    let k = choose|k: int| 0 <= k < dedup(s).len() && dedup(s)[k] == x;
                    if k < d.len() {
                        assert(d[k] == x);
                    }
                }
                if d.contains(x) {
                    let k = choose|k: int| 0 <= k < d.len() && d[k] == x;
                    assert(dedup(s)[k] == x);
                }
                if x == s.last() {
                    assert(dedup(s)[d.len() as int] == x);
                }
            }
            assert forall|i: int, j: int| 0 <= i < dedup(s).len() && 0 <= j < dedup(s).len() && i != j implies dedup(s)[i] != dedup(s)[j] by {
                if i < d.len() && j < d.len() {
                    assert(d[i] != d[j]);
                } else if i < d.len() {
                    assert(d.contains(d[i]));
                } else if j < d.len() {
                    assert(d.contains(d[j]));
                }
            }
        }
    }
}

#[verifier::external_type_specification]
#[verifier::external_body]
pub struct ExTimeParseError(chrono::ParseError);

/// The instant that chrono reads from a text as a `DateTime<Utc>`, if it reads one.
pub uninterp spec fn parsed_utc(text: Seq<char>) -> Option<Timestamp>;

/// Relies on chrono's `FromStr` for `DateTime<Utc>`: it fails exactly when
/// the text is no date and time it accepts, and its value depends on the text alone.
#[verifier::external_body]
pub(crate) fn parse_utc(text: &str) -> (r: Result<Timestamp, chrono::ParseError>)
    ensures
        match r {
            Ok(t) => parsed_utc(text@) == Some(t),
            Err(_) => parsed_utc(text@) is None,
        },
{
    text.parse::<chrono::DateTime<chrono::Utc>>().map(|t| Timestamp { unix_seconds: t.timestamp(), subsec_nanos: t.timestamp_subsec_nanos() })
}

/// Relies on chrono::ParseError's Display: a description of the error.
#[verifier::external_body]
pub(crate) fn describe_time_error(e: &chrono::ParseError) -> String {
    e.to_string()
}

/// Relies on chrono::Utc::now: the current time, whatever the machine reports.
#[verifier::external_body]
fn now_utc() -> (r: Timestamp) {
    let t = chrono::Utc::now();
    Timestamp { unix_seconds: t.timestamp(), subsec_nanos: t.timestamp_subsec_nanos() }
}

/// A copy of `v`, element by element.
pub fn copy_cards(v: &Vec<Card>) -> (r: Vec<Card>)
    ensures
        r@ == v@,
{
    let mut r: Vec<Card> = Vec::new();
    let mut i: usize = 0;
    while i < v.len()
        invariant
            i <= v.len(),
            r@ == v@.subrange(0, i as int),
        decreases v.len() - i,
    {
        r.push(v[i].clone());
        i = i + 1;
        assert(r@ =~= v@.subrange(0, i as int));
    }
    assert(v@.subrange(0, v.len() as int) =~= v@);
    r
}

/// Appends `more` to `cards`.
pub fn append_cards(cards: &mut Vec<Card>, more: Vec<Card>)
    ensures
        final(cards)@ == old(cards)@ + more@,
{
    let mut i: usize = 0;
    let ghost start = cards@;
    while i < more.len()
        invariant
            i <= more.len(),
            cards@ == start + more@.subrange(0, i as int),
        decreases more.len() - i,
    {
        cards.push(more[i].clone());
        i = i + 1;
        assert(cards@ =~= start + more@.subrange(0, i as int));
    }
    assert(more@.subrange(0, more@.len() as int) =~= more@);
}

impl SimpleCardList {
    /// A list holding `cards`, stamped with the current time.
    pub fn with_current_time(cards: Vec<Card>) -> (r: Self)
        ensures
            r.cards == cards,
    {
        SimpleCardList { last_updated: now_utc(), cards }
    }

    /// A copy of this list.
    pub fn duplicate(&self) -> (r: Self)
        ensures
            r.last_updated == self.last_updated,
            r.cards@ == self.cards@,
    {
        SimpleCardList { last_updated: self.last_updated, cards: copy_cards(&self.cards) }
    }
}

/// The kind of list a request names.
#[derive(Clone, Copy, Debug, PartialEq, Eq, Structural)]
pub enum CardListType {
    TradeBinder,
    WishList,
}

/// Caller-supplied metadata, carried through to the result untouched.
#[derive(Clone, Debug)]
pub struct ListContext {
    pub user: String,
    pub category: CardListType,
}

impl ListContext {
    /// A copy of this context.
    pub fn duplicate(&self) -> (r: Self)
        ensures
            r == *self,
    {
        ListContext { user: self.user.clone(), category: self.category }
    }
}

/// One successful result, with the context of the request it answers.
#[derive(Clone, Debug)]
pub struct CardList {
    pub context: ListContext,
    pub data: SimpleCardList,
}

} // verus!
