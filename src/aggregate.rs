//! The request aggregator: one fetch per distinct identifier, results in request order.
use vstd::prelude::*;
use crate::data::{dedup, lemma_dedup_once, names, CardList, CardListType, ListContext, Timestamp};
use crate::deckbox::DeckboxList;
use crate::fetch::{CardListSource, FetchError, FetchResult};
use crate::moxfield::{mox_key, MoxfieldBoard, MoxfieldList};

verus! {

/// A list to fetch, with the caller's context for it.
pub struct CardListRequest {
    pub context: ListContext,
    pub source: CardListSource,
}

/// The deck identifiers of the requests that name the deck source, in request order.
pub open spec fn mox_keys(reqs: Seq<CardListRequest>) -> Seq<(Seq<char>, Seq<MoxfieldBoard>)>
    decreases reqs.len(),
{
    if reqs.len() == 0 {
        Seq::empty()
    } else {
        match reqs.last().source {
            CardListSource::Moxfield(m) => mox_keys(reqs.drop_last()).push(mox_key(m)),
            CardListSource::Deckbox(_) => mox_keys(reqs.drop_last()),
        }
    }
}

/// The set identifiers of the requests that name the listing source, in request order.
pub open spec fn db_keys(reqs: Seq<CardListRequest>) -> Seq<Seq<char>>
    decreases reqs.len(),
{
    if reqs.len() == 0 {
        Seq::empty()
    } else {
        match reqs.last().source {
            CardListSource::Moxfield(_) => db_keys(reqs.drop_last()),
            CardListSource::Deckbox(d) => db_keys(reqs.drop_last()).push(d@),
        }
    }
}

pub open spec fn mox_views(ids: Seq<MoxfieldList>) -> Seq<(Seq<char>, Seq<MoxfieldBoard>)> {
    ids.map_values(|m: MoxfieldList| mox_key(m))
}

/// The position of the first `x` in `s`.
pub open spec fn first_index<A>(s: Seq<A>, x: A) -> int {
    choose|j: int| 0 <= j < s.len() && s[j] == x && forall|k: int| 0 <= k < j ==> s[k] != x
}

fn position_of_list(ids: &Vec<MoxfieldList>, m: &MoxfieldList) -> (r: Option<usize>)
    ensures
        match r {
            Some(j) => j < ids.len() && mox_views(ids@)[j as int] == mox_key(*m) && j == first_index(mox_views(ids@), mox_key(*m)),
            None => !mox_views(ids@).contains(mox_key(*m)),
        },
{
    let mut i: usize = 0;
    while i < ids.len()
        invariant
            i <= ids.len(),
            forall|k: int| 0 <= k < i ==> mox_views(ids@)[k] != mox_key(*m),
        decreases ids.len() - i,
    {
        if ids[i].same_as(m) {
            assert(mox_views(ids@)[i as int] == mox_key(*m));
            return Some(i);
        }
        i = i + 1;
    }
    None
}

fn position_of_set(ids: &Vec<DeckboxList>, d: &DeckboxList) -> (r: Option<usize>)
    ensures
        match r {
            Some(j) => j < ids.len() && names(ids@)[j as int] == d@ && j == first_index(names(ids@), d@),
            None => !names(ids@).contains(d@),
        },
{
    let mut i: usize = 0;
    while i < ids.len()
        invariant
            i <= ids.len(),
            forall|k: int| 0 <= k < i ==> names(ids@)[k] != d@,
        decreases ids.len() - i,
    {
        if ids[i] == *d {
            assert(names(ids@)[i as int] == d@);
            return Some(i);
        }
        i = i + 1;
    }
    None
}

/// The distinct identifiers of each source that the requests name, each once,
/// in the order first named.
pub fn partition_requests(requests: &Vec<CardListRequest>) -> (r: (Vec<MoxfieldList>, Vec<DeckboxList>))
    ensures
        mox_views(r.0@) == dedup(mox_keys(requests@)),
        names(r.1@) == dedup(db_keys(requests@)),
{
    let mut mox: Vec<MoxfieldList> = Vec::new();
    let mut db: Vec<DeckboxList> = Vec::new();
    let mut i: usize = 0;
    assert(requests@.subrange(0, 0) =~= Seq::<CardListRequest>::empty());
    assert(mox_views(mox@) =~= Seq::<(Seq<char>, Seq<MoxfieldBoard>)>::empty());
    assert(names(db@) =~= Seq::<Seq<char>>::empty());
    while i < requests.len()
        invariant
            i <= requests.len(),
            mox_views(mox@) == dedup(mox_keys(requests@.subrange(0, i as int))),
            names(db@) == dedup(db_keys(requests@.subrange(0, i as int))),
        decreases requests.len() - i,
    {
        let ghost t = requests@.subrange(0, i + 1);
        assert(t.drop_last() =~= requests@.subrange(0, i as int));
        assert(t.last() == requests@[i as int]);
        match &requests[i].source {
            CardListSource::Moxfield(m) => {
                let ghost ks = mox_keys(t);
                assert(ks == mox_keys(requests@.subrange(0, i as int)).push(mox_key(*m)));
                assert(ks.drop_last() =~= mox_keys(requests@.subrange(0, i as int)));
                assert(ks.last() == mox_key(*m));
                assert(db_keys(t) == db_keys(requests@.subrange(0, i as int)));
                if position_of_list(&mox, m).is_none() {
                    let ghost before = mox@;
                    mox.push(m.duplicate());
                    assert(mox_views(mox@) =~= mox_views(before).push(mox_key(*m)));
                }
            },
            CardListSource::Deckbox(d) => {
                let ghost ks = db_keys(t);
                assert(ks == db_keys(requests@.subrange(0, i as int)).push(d@));
                assert(ks.drop_last() =~= db_keys(requests@.subrange(0, i as int)));
                assert(ks.last() == d@);
                assert(mox_keys(t) == mox_keys(requests@.subrange(0, i as int)));
                if position_of_set(&db, d).is_none() {
                    let ghost before = db@;
                    db.push(d.clone());
                    assert(names(db@) =~= names(before).push(d@));
                }
            },
        }
        i = i + 1;
    }
    assert(requests@.subrange(0, requests@.len() as int) =~= requests@);
    (mox, db)
}

/// The outcome that answers a request, given one outcome per distinct identifier.
pub open spec fn outcome_of(
    req: CardListRequest,
    mox_ids: Seq<(Seq<char>, Seq<MoxfieldBoard>)>,
    mox_results: Seq<FetchResult>,
    db_ids: Seq<Seq<char>>,
    db_results: Seq<FetchResult>,
) -> FetchResult {
    match req.source {
        CardListSource::Moxfield(m) => mox_results[first_index(mox_ids, mox_key(m))],
        CardListSource::Deckbox(d) => db_results[first_index(db_ids, d@)],
    }
}

/// The outcome of each request, in request order, given one outcome per
/// distinct identifier in the order of `partition_requests`.
pub open spec fn request_outcomes(
    reqs: Seq<CardListRequest>,
    mox_results: Seq<FetchResult>,
    db_results: Seq<FetchResult>,
) -> Seq<FetchResult> {
    reqs.map_values(|r: CardListRequest| outcome_of(r, dedup(mox_keys(reqs)), mox_results, dedup(db_keys(reqs)), db_results))
}

/// A result as a value of the specification: user, category, time and card names.
pub open spec fn list_view(c: CardList) -> (Seq<char>, CardListType, Timestamp, Seq<Seq<char>>) {
    (c.context.user@, c.context.category, c.data.last_updated, names(c.data.cards@))
}

/// The results of the requests whose outcome succeeded, in request order.
pub open spec fn successes(reqs: Seq<CardListRequest>, outs: Seq<FetchResult>) -> Seq<(Seq<char>, CardListType, Timestamp, Seq<Seq<char>>)>
    decreases reqs.len(),
{
    if reqs.len() == 0 {
        Seq::empty()
    } else {
        match outs.last() {
            Ok(l) => successes(reqs.drop_last(), outs.drop_last()).push(
                (reqs.last().context.user@, reqs.last().context.category, l.last_updated, names(l.cards@)),
            ),
            Err(_) => successes(reqs.drop_last(), outs.drop_last()),
        }
    }
}

/// The position and error of each failed outcome, in order.
pub open spec fn failures(outs: Seq<FetchResult>) -> Seq<(int, FetchError)>
    decreases outs.len(),
{
    if outs.len() == 0 {
        Seq::empty()
    } else {
        match outs.last() {
            Err(e) => failures(outs.drop_last()).push(((outs.len() - 1) as int, e)),
            Ok(_) => failures(outs.drop_last()),
        }
    }
}

proof fn lemma_key_listed(reqs: Seq<CardListRequest>, i: int)
    requires
        0 <= i < reqs.len(),
    ensures
        reqs[i].source matches CardListSource::Moxfield(m) ==> mox_keys(reqs).contains(mox_key(m)),
        reqs[i].source matches CardListSource::Deckbox(d) ==> db_keys(reqs).contains(d@),
    decreases reqs.len(),
{
    let ks = mox_keys(reqs);
    let ds = db_keys(reqs);
    if i == reqs.len() - 1 {
        match reqs.last().source {
            CardListSource::Moxfield(m) => {
                assert(ks[ks.len() - 1] == mox_key(m));
            },
            CardListSource::Deckbox(d) => {
                assert(ds[ds.len() - 1] == d@);
            },
        }
    } else {
        lemma_key_listed(reqs.drop_last(), i);
        assert(reqs.drop_last()[i] == reqs[i]);
        let ks0 = mox_keys(reqs.drop_last());
        let ds0 = db_keys(reqs.drop_last());
        match reqs[i].source {
            CardListSource::Moxfield(m) => {
                let k = choose|k: int| 0 <= k < ks0.len() && ks0[k] == mox_key(m);
                assert(ks[k] == mox_key(m));
            },
            CardListSource::Deckbox(d) => {
                let k = choose|k: int| 0 <= k < ds0.len() && ds0[k] == d@;
                assert(ds[k] == d@);
            },
        }
    }
}

/// The results of the requests whose fetch succeeded, in request order, each
/// with its request's context; and the position and error of each request
/// whose fetch failed. `mox_results` and `db_results` hold one outcome per
/// identifier of `partition_requests(requests)`, in its order; a request
/// takes the outcome of its identifier, which is shared by every request
/// that names it.
pub fn assemble_lists(
    requests: &Vec<CardListRequest>,
    mox_results: &Vec<FetchResult>,
    db_results: &Vec<FetchResult>,
) -> (r: (Vec<CardList>, Vec<(usize, FetchError)>))
    requires
        mox_results.len() == dedup(mox_keys(requests@)).len(),
        db_results.len() == dedup(db_keys(requests@)).len(),
    ensures
        r.0@.map_values(|c: CardList| list_view(c)) == successes(requests@, request_outcomes(requests@, mox_results@, db_results@)),
        r.1@.map_values(|p: (usize, FetchError)| (p.0 as int, p.1)) == failures(request_outcomes(requests@, mox_results@, db_results@)),
{
    let (mox_ids, db_ids) = partition_requests(requests);
    let ghost outs = request_outcomes(requests@, mox_results@, db_results@);
    let mut lists: Vec<CardList> = Vec::new();
    let mut failed: Vec<(usize, FetchError)> = Vec::new();
    let mut i: usize = 0;
    assert(requests@.subrange(0, 0) =~= Seq::<CardListRequest>::empty());
    assert(outs.subrange(0, 0) =~= Seq::<FetchResult>::empty());
    assert(lists@.map_values(|c: CardList| list_view(c)) =~= Seq::<(Seq<char>, CardListType, Timestamp, Seq<Seq<char>>)>::empty());
    assert(failed@.map_values(|p: (usize, FetchError)| (p.0 as int, p.1)) =~= Seq::<(int, FetchError)>::empty());
    while i < requests.len()
        invariant
            i <= requests.len(),
            outs == request_outcomes(requests@, mox_results@, db_results@),
            outs.len() == requests.len(),
            mox_views(mox_ids@) == dedup(mox_keys(requests@)),
            names(db_ids@) == dedup(db_keys(requests@)),
            mox_results.len() == mox_ids.len(),
            db_results.len() == db_ids.len(),
            lists@.map_values(|c: CardList| list_view(c)) == successes(requests@.subrange(0, i as int), outs.subrange(0, i as int)),
            failed@.map_values(|p: (usize, FetchError)| (p.0 as int, p.1)) == failures(outs.subrange(0, i as int)),
        decreases requests.len() - i,
    {
        proof {
            lemma_key_listed(requests@, i as int);
            lemma_dedup_once(mox_keys(requests@));
            lemma_dedup_once(db_keys(requests@));
        }
        let ghost t = requests@.subrange(0, i + 1);
        let ghost o = outs.subrange(0, i + 1);
        assert(t.drop_last() =~= requests@.subrange(0, i as int));
        assert(o.drop_last() =~= outs.subrange(0, i as int));
        assert(t.last() == requests@[i as int]);
        assert(o.last() == outs[i as int]);
        let outcome: &FetchResult = match &requests[i].source {
            CardListSource::Moxfield(m) => {
                let j = position_of_list(&mox_ids, m).unwrap();
                &mox_results[j]
            },
            CardListSource::Deckbox(d) => {
                let j = position_of_set(&db_ids, d).unwrap();
                &db_results[j]
            },
        };
        assert(*outcome == outs[i as int]);
        match outcome {
            Ok(l) => {
                let ghost before = lists@;
                lists.push(CardList { context: requests[i].context.duplicate(), data: l.duplicate() });
                assert(lists@.map_values(|c: CardList| list_view(c)) =~= before.map_values(|c: CardList| list_view(c)).push(
                    list_view(lists@[lists@.len() - 1]),
                ));
            },
            Err(e) => {
                let ghost before = failed@;
                failed.push((i, e.duplicate()));
                assert(failed@.map_values(|p: (usize, FetchError)| (p.0 as int, p.1)) =~= before.map_values(
                    |p: (usize, FetchError)| (p.0 as int, p.1),
                ).push((i as int, *e)));
            },
        }
        i = i + 1;
    }
    assert(requests@.subrange(0, requests@.len() as int) =~= requests@);
    assert(outs.subrange(0, outs.len() as int) =~= outs);
    (lists, failed)
}

/// Every identifier that the requests name is fetched exactly once: the
/// identifiers handed to each source are distinct, and they are exactly
/// those that the requests name.
pub proof fn lemma_each_identifier_fetched_once(reqs: Seq<CardListRequest>)
    ensures
        dedup(mox_keys(reqs)).no_duplicates(),
        forall|k: (Seq<char>, Seq<MoxfieldBoard>)| dedup(mox_keys(reqs)).contains(k) <==> mox_keys(reqs).contains(k),
        dedup(db_keys(reqs)).no_duplicates(),
        forall|k: Seq<char>| dedup(db_keys(reqs)).contains(k) <==> db_keys(reqs).contains(k),
{
    lemma_dedup_once(mox_keys(reqs));
    lemma_dedup_once(db_keys(reqs));
}

/// The results keep the order of the requests: the results for `a` followed
/// by `b` are those for `a` followed by those for `b`.
pub proof fn lemma_order_preserved(
    a: Seq<CardListRequest>,
    oa: Seq<FetchResult>,
    b: Seq<CardListRequest>,
    ob: Seq<FetchResult>,
)
    requires
        oa.len() == a.len(),
        ob.len() == b.len(),
    ensures
        successes(a + b, oa + ob) == successes(a, oa) + successes(b, ob),
    decreases b.len(),
{
    if b.len() == 0 {
        assert(a + b =~= a);
        assert(oa + ob =~= oa);
        assert(successes(a, oa) + successes(b, ob) =~= successes(a, oa));
    } else {
        lemma_order_preserved(a, oa, b.drop_last(), ob.drop_last());
        assert((a + b).drop_last() =~= a + b.drop_last());
        assert((oa + ob).drop_last() =~= oa + ob.drop_last());
        assert((a + b).last() == b.last());
        assert((oa + ob).last() == ob.last());
        match ob.last() {
            Ok(l) => {
                let x = (b.last().context.user@, b.last().context.category, l.last_updated, names(l.cards@));
                assert(successes(a, oa) + successes(b.drop_last(), ob.drop_last()).push(x) =~= (successes(a, oa) + successes(
                    b.drop_last(),
                    ob.drop_last(),
                )).push(x));
            },
            Err(_) => {},
        }
    }
}

/// A failed fetch takes nothing from the other requests: with a failed
/// request between `a` and `b`, the results are those for `a` followed by
/// those for `b`.
pub proof fn lemma_failure_is_local(
    a: Seq<CardListRequest>,
    oa: Seq<FetchResult>,
    r: CardListRequest,
    e: FetchError,
    b: Seq<CardListRequest>,
    ob: Seq<FetchResult>,
)
    requires
        oa.len() == a.len(),
        ob.len() == b.len(),
    ensures
        successes(a.push(r) + b, oa.push(Err(e)) + ob) == successes(a, oa) + successes(b, ob),
{
    lemma_order_preserved(a.push(r), oa.push(Err(e)), b, ob);
    assert(a.push(r).drop_last() =~= a);
    assert(oa.push(Err(e)).drop_last() =~= oa);
}

/// The results of the requests that `keep` selects and whose outcome
/// succeeded, in request order.
pub open spec fn successes_where(
    reqs: Seq<CardListRequest>,
    outs: Seq<FetchResult>,
    keep: spec_fn(CardListRequest) -> bool,
) -> Seq<(Seq<char>, CardListType, Timestamp, Seq<Seq<char>>)>
    decreases reqs.len(),
{
    if reqs.len() == 0 {
        Seq::empty()
    } else if keep(reqs.last()) {
        match outs.last() {
            Ok(l) => successes_where(reqs.drop_last(), outs.drop_last(), keep).push(
                (reqs.last().context.user@, reqs.last().context.category, l.last_updated, names(l.cards@)),
            ),
            Err(_) => successes_where(reqs.drop_last(), outs.drop_last(), keep),
        }
    } else {
        successes_where(reqs.drop_last(), outs.drop_last(), keep)
    }
}

/// A failing identifier leaves the rest of the batch as it was: if every
/// request that `keep` leaves out (those naming one identifier, say) fails,
/// and every other request has the outcome it has in `before`, the results are
/// exactly those that the other requests have in `before`.
pub proof fn lemma_failed_identifier_is_local(
    reqs: Seq<CardListRequest>,
    before: Seq<FetchResult>,
    after: Seq<FetchResult>,
    keep: spec_fn(CardListRequest) -> bool,
)
    requires
        before.len() == reqs.len(),
        after.len() == reqs.len(),
        forall|i: int| 0 <= i < reqs.len() && keep(reqs[i]) ==> after[i] == before[i],
        forall|i: int| 0 <= i < reqs.len() && !keep(reqs[i]) ==> after[i] is Err,
    ensures
        successes(reqs, after) == successes_where(reqs, before, keep),
    decreases reqs.len(),
{
    if reqs.len() > 0 {
        let n = reqs.len() - 1;
        assert forall|i: int| 0 <= i < n && keep(reqs.drop_last()[i]) implies after.drop_last()[i] == before.drop_last()[i] by {
            assert(reqs.drop_last()[i] == reqs[i]);
        }
        assert forall|i: int| 0 <= i < n && !keep(reqs.drop_last()[i]) implies after.drop_last()[i] is Err by {
            assert(reqs.drop_last()[i] == reqs[i]);
        }
        lemma_failed_identifier_is_local(reqs.drop_last(), before.drop_last(), after.drop_last(), keep);
        assert(reqs.last() == reqs[n]);
        assert(after.last() == after[n]);
        assert(before.last() == before[n]);
    }
}

} // verus!
