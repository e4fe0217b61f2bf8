//! A snapshot of the feed, newest entry first, and the two ways of telling
//! which of its entries have not been announced yet.

use vstd::prelude::*;
use vstd::std_specs::iter::IteratorSpec;
use crate::history::has_id;
use crate::item::{item_fresh_at, ItemView, NewsItem};
use crate::platforms::{passes, PlatformSet};
use crate::text::{parse_unsigned, unsigned_number};

verus! {

broadcast use vstd::std_specs::slice::axiom_spec_slice_iter;

/// Why a fetch gave no snapshot.
#[derive(Clone, Copy, Debug, PartialEq, Eq, Structural)]
pub enum FetchError {
    /// The feed could not be reached, or the transfer broke off.
    TransportError,
    /// The feed answered with another number of entries than was asked for.
    ShapeError,
    /// The answer was not the document that the feed promises.
    ParseError,
}

/// What each of the entries holds.
pub open spec fn views(items: Seq<NewsItem>) -> Seq<ItemView> {
    Seq::new(items.len(), |i: int| items[i]@)
}

/// The identifiers of the entries, in their order.
pub open spec fn ids_of(items: Seq<ItemView>) -> Seq<u64> {
    Seq::new(items.len(), |i: int| items[i].id)
}

/// The entries that pass a platform filter, in their order.
pub open spec fn kept(items: Seq<ItemView>, wanted: Seq<Seq<char>>) -> Seq<ItemView>
    decreases items.len(),
{
    if items.len() == 0 {
        Seq::empty()
    } else {
        let front = kept(items.drop_last(), wanted);
        if passes(wanted, items.last().platforms) {
            front.push(items.last())
        } else {
            front
        }
    }
}

/// The marked places below `limit`, highest first. With a snapshot, which
/// is newest first, that is the order from the oldest entry to the newest.
pub open spec fn marked_places(marks: Seq<bool>, limit: nat) -> Seq<usize>
    decreases limit,
{
    if limit == 0 {
        Seq::empty()
    } else {
        let rest = marked_places(marks, (limit - 1) as nat);
        if limit <= marks.len() && marks[limit - 1] {
            seq![(limit - 1) as usize] + rest
        } else {
            rest
        }
    }
}

/// For each entry, whether it is new against what was seen before: its
/// identifier is not among the seen ones, and it passes the platform filter.
pub open spec fn new_marks(items: Seq<ItemView>, seen: Seq<u64>, wanted: Seq<Seq<char>>) -> Seq<
    bool,
> {
    Seq::new(items.len(), |i: int| !seen.contains(items[i].id) && passes(wanted, items[i].platforms))
}

/// The places of the entries to announce by comparison with a baseline: of
/// the first `check_count` entries, those that are new, oldest first.
pub open spec fn new_places(
    items: Seq<ItemView>,
    seen: Seq<u64>,
    wanted: Seq<Seq<char>>,
    check_count: nat,
) -> Seq<usize> {
    marked_places(new_marks(items, seen, wanted), check_count)
}

/// For each entry, whether a channel is due it: the channel's history does
/// not name it, and it is fresh at `now`.
pub open spec fn due_marks(items: Seq<ItemView>, posted: Seq<u64>, now: i64, window: u64) -> Seq<
    bool,
> {
    Seq::new(items.len(), |i: int| !posted.contains(items[i].id) && item_fresh_at(items[i], now, window))
}

/// The places of the entries to announce in a channel by its own history:
/// those that the channel is due, oldest first.
pub open spec fn due_places(items: Seq<ItemView>, posted: Seq<u64>, now: i64, window: u64) -> Seq<
    usize,
> {
    marked_places(due_marks(items, posted, now, window), items.len())
}

/// A limit beyond the last place finds what the number of places finds.
pub proof fn lemma_marked_places_beyond(marks: Seq<bool>, limit: nat)
    requires
        limit >= marks.len(),
    ensures
        marked_places(marks, limit) == marked_places(marks, marks.len()),
    decreases limit,
{
    if limit > marks.len() {
        lemma_marked_places_beyond(marks, (limit - 1) as nat);
    }
}

/// What `marked_places` lists: every listed place lies below the limit and
/// is marked, the places descend, and every marked place below the limit is
/// listed.
pub proof fn lemma_marked_places(marks: Seq<bool>, limit: nat)
    requires
        marks.len() <= usize::MAX,
    ensures
        forall|j: int|
            0 <= j < marked_places(marks, limit).len() ==> {
                let place = #[trigger] marked_places(marks, limit)[j];
                place < limit && place < marks.len() && marks[place as int]
            },
        forall|i: int, j: int|
            0 <= i < j < marked_places(marks, limit).len() ==> #[trigger] marked_places(
                marks,
                limit,
            )[i] > #[trigger] marked_places(marks, limit)[j],
        forall|place: usize|
            place < limit && place < marks.len() && marks[place as int] ==> marked_places(
                marks,
                limit,
            ).contains(place),
    decreases limit,
{
    if limit > 0 {
        let rest = marked_places(marks, (limit - 1) as nat);
        let all = marked_places(marks, limit);
        lemma_marked_places(marks, (limit - 1) as nat);
        if limit <= marks.len() && marks[limit - 1] {
            let top = (limit - 1) as usize;
            assert(all =~= seq![top] + rest);
            assert forall|j: int| 0 <= j < all.len() implies {
                let place = #[trigger] all[j];
                place < limit && place < marks.len() && marks[place as int]
            } by {
                if j > 0 {
                    assert(all[j] == rest[j - 1]);
                }
            }
            assert forall|i: int, j: int| 0 <= i < j < all.len() implies #[trigger] all[i]
                > #[trigger] all[j] by {
                assert(all[j] == rest[j - 1]);
                if i > 0 {
                    assert(all[i] == rest[i - 1]);
                }
            }
            assert forall|place: usize|
                place < limit && place < marks.len() && marks[place as int] implies all.contains(
                place,
            ) by {
                if place == top {
                    assert(all[0] == place);
                } else {
                    assert(rest.contains(place));
                    let j = rest.index_of(place);
                    assert(all[j + 1] == place);
                }
            }
        } else {
            assert(all == rest);
            assert forall|place: usize|
                place < limit && place < marks.len() && marks[place as int] implies all.contains(
                place,
            ) by {
                assert(place < limit - 1);
            }
        }
    }
}

/// Where no place is marked, none is listed.
pub proof fn lemma_marked_places_of_none(marks: Seq<bool>, limit: nat)
    requires
        forall|i: int| 0 <= i < marks.len() ==> !marks[i],
    ensures
        marked_places(marks, limit) == Seq::<usize>::empty(),
    decreases limit,
{
    if limit > 0 {
        lemma_marked_places_of_none(marks, (limit - 1) as nat);
    }
}

/// A snapshot compared with itself holds nothing new, whatever the number
/// of entries looked at and whatever the platform filter.
pub proof fn lemma_nothing_new_against_itself(
    items: Seq<ItemView>,
    wanted: Seq<Seq<char>>,
    check_count: nat,
)
    ensures
        new_places(items, ids_of(items), wanted, check_count) == Seq::<usize>::empty(),
{
    let marks = new_marks(items, ids_of(items), wanted);
    assert forall|i: int| 0 <= i < marks.len() implies !marks[i] by {
        assert(ids_of(items)[i] == items[i].id);
        assert(ids_of(items).contains(items[i].id));
    }
    lemma_marked_places_of_none(marks, check_count);
}

/// The comparison with a baseline announces only entries among the first
/// `check_count` of the snapshot whose identifier the baseline lacks, and it
/// announces every such entry that passes the platform filter, each once,
/// from the oldest to the newest.
pub proof fn lemma_new_places(
    items: Seq<ItemView>,
    seen: Seq<u64>,
    wanted: Seq<Seq<char>>,
    check_count: nat,
)
    requires
        items.len() <= usize::MAX,
    ensures
        forall|j: int|
            0 <= j < new_places(items, seen, wanted, check_count).len() ==> {
                let place = #[trigger] new_places(items, seen, wanted, check_count)[j];
                &&& place < check_count
                &&& place < items.len()
                &&& !seen.contains(items[place as int].id)
                &&& passes(wanted, items[place as int].platforms)
            },
        forall|i: int, j: int|
            0 <= i < j < new_places(items, seen, wanted, check_count).len() ==> #[trigger] new_places(
                items,
                seen,
                wanted,
                check_count,
            )[i] > #[trigger] new_places(items, seen, wanted, check_count)[j],
        forall|place: usize|
            place < check_count && place < items.len() && !seen.contains(items[place as int].id)
                && passes(wanted, items[place as int].platforms) ==> new_places(
                items,
                seen,
                wanted,
                check_count,
            ).contains(place),
{
    let marks = new_marks(items, seen, wanted);
    lemma_marked_places(marks, check_count);
    assert forall|place: usize|
        place < check_count && place < items.len() && !seen.contains(items[place as int].id)
            && passes(wanted, items[place as int].platforms) implies new_places(
        items,
        seen,
        wanted,
        check_count,
    ).contains(place) by {
        assert(marks[place as int]);
    }
}

/// A snapshot compared with a baseline snapshot announces only entries that
/// stand among its first `check_count` and that no entry of the baseline
/// shares its identifier with.
pub proof fn lemma_new_against_baseline(
    snapshot: Seq<ItemView>,
    baseline: Seq<ItemView>,
    wanted: Seq<Seq<char>>,
    check_count: nat,
)
    requires
        snapshot.len() <= usize::MAX,
    ensures
        forall|j: int|
            0 <= j < new_places(snapshot, ids_of(baseline), wanted, check_count).len() ==> {
                let place = #[trigger] new_places(
                    snapshot,
                    ids_of(baseline),
                    wanted,
                    check_count,
                )[j];
                &&& place < check_count
                &&& place < snapshot.len()
                &&& forall|k: int|
                    0 <= k < baseline.len() ==> (#[trigger] baseline[k]).id
                        != snapshot[place as int].id
            },
{
    let seen = ids_of(baseline);
    let places = new_places(snapshot, seen, wanted, check_count);
    lemma_new_places(snapshot, seen, wanted, check_count);
    assert forall|j: int| 0 <= j < places.len() implies {
        let place = #[trigger] places[j];
        &&& place < check_count
        &&& place < snapshot.len()
        &&& forall|k: int|
            0 <= k < baseline.len() ==> (#[trigger] baseline[k]).id != snapshot[place as int].id
    } by {
        let place = places[j];
        assert forall|k: int| 0 <= k < baseline.len() implies (#[trigger] baseline[k]).id
            != snapshot[place as int].id by {
            assert(seen[k] == baseline[k].id);
            assert(seen.contains(baseline[k].id));
        }
    }
}

/// The comparison with a channel's history announces exactly the entries
/// that the history does not name and that are fresh, each once, from the
/// oldest to the newest.
pub proof fn lemma_due_places(items: Seq<ItemView>, posted: Seq<u64>, now: i64, window: u64)
    requires
        items.len() <= usize::MAX,
    ensures
        forall|j: int|
            0 <= j < due_places(items, posted, now, window).len() ==> {
                let place = #[trigger] due_places(items, posted, now, window)[j];
                &&& place < items.len()
                &&& !posted.contains(items[place as int].id)
                &&& item_fresh_at(items[place as int], now, window)
            },
        forall|i: int, j: int|
            0 <= i < j < due_places(items, posted, now, window).len() ==> #[trigger] due_places(
                items,
                posted,
                now,
                window,
            )[i] > #[trigger] due_places(items, posted, now, window)[j],
        forall|place: usize|
            place < items.len() && !posted.contains(items[place as int].id) && item_fresh_at(
                items[place as int],
                now,
                window,
            ) ==> due_places(items, posted, now, window).contains(place),
{
    let marks = due_marks(items, posted, now, window);
    lemma_marked_places(marks, items.len());
    assert forall|place: usize|
        place < items.len() && !posted.contains(items[place as int].id) && item_fresh_at(
            items[place as int],
            now,
            window,
        ) implies due_places(items, posted, now, window).contains(place) by {
        assert(marks[place as int]);
    }
}

/// What the platform filter keeps: every kept entry is an entry of the
/// snapshot that passes the filter, and no entry that passes is dropped.
/// With the empty filter the snapshot stays as it is.
pub proof fn lemma_kept(items: Seq<ItemView>, wanted: Seq<Seq<char>>)
    ensures
        kept(items, wanted).len() <= items.len(),
        forall|j: int|
            0 <= j < kept(items, wanted).len() ==> passes(
                wanted,
                (#[trigger] kept(items, wanted)[j]).platforms,
            ) && items.contains(kept(items, wanted)[j]),
        forall|i: int|
            0 <= i < items.len() && passes(wanted, (#[trigger] items[i]).platforms) ==> kept(
                items,
                wanted,
            ).contains(items[i]),
        wanted.len() == 0 ==> kept(items, wanted) == items,
    decreases items.len(),
{
    if items.len() > 0 {
        let front = items.drop_last();
        let out = kept(items, wanted);
        lemma_kept(front, wanted);
        let inner = kept(front, wanted);
        assert forall|j: int| 0 <= j < out.len() implies passes(wanted, (#[trigger] out[j]).platforms)
            && items.contains(out[j]) by {
            if j < inner.len() {
                assert(out[j] == inner[j]);
                let k = front.index_of(inner[j]);
                assert(items[k] == inner[j]);
            } else {
                assert(out[j] == items[items.len() - 1]);
            }
        }
        assert forall|i: int|
            0 <= i < items.len() && passes(wanted, (#[trigger] items[i]).platforms) implies out.contains(
            items[i],
        ) by {
            if i < front.len() {
                assert(front[i] == items[i]);
                let k = inner.index_of(items[i]);
                assert(out[k] == items[i]);
            } else {
                assert(out[out.len() - 1] == items[i]);
            }
        }
        if wanted.len() == 0 {
            assert(out =~= items);
        }
    }
}

/// What an entry of the feed carries as its identifier.
#[derive(Debug)]
pub enum IdField {
    /// A number.
    Number(u64),
    /// A text, which is an identifier where it is an unsigned integer.
    Text(String),
    /// Nothing that could be an identifier.
    Absent,
}

/// The identifier that a field gives: the number itself, or the number that
/// the text writes.
pub open spec fn field_id(field: IdField) -> Option<u64> {
    match field {
        IdField::Number(id) => Some(id),
        IdField::Text(text) => unsigned_number(text@),
        IdField::Absent => None,
    }
}

/// The identifiers that the first `count` entries of a feed give, in their
/// order; an entry whose field gives no identifier gives none.
pub open spec fn present_ids(id_fields: Seq<IdField>, count: nat) -> Seq<u64>
    decreases count,
{
    if count == 0 {
        Seq::empty()
    } else {
        let front = present_ids(id_fields, (count - 1) as nat);
        if count <= id_fields.len() && field_id(id_fields[count - 1]) is Some {
            front.push(field_id(id_fields[count - 1])->0)
        } else {
            front
        }
    }
}

/// The identifier that a field gives.
pub fn read_id_field(field: &IdField) -> (id: Option<u64>)
    ensures
        id == field_id(*field),
{
    match field {
        IdField::Number(id) => Some(*id),
        IdField::Text(text) => parse_unsigned(text.as_str()),
        IdField::Absent => None,
    }
}

/// The identifiers of the newest `count` entries of a feed, given what each
/// entry carries as its identifier. Entries beyond those that the feed sent
/// give none.
pub fn get_news_ids(id_fields: &Vec<IdField>, count: u64) -> (ids: Vec<u64>)
    ensures
        ids@ == present_ids(id_fields@, count as nat),
{
    let mut ids: Vec<u64> = Vec::new();
    let mut i: usize = 0;
    while i < id_fields.len() && (i as u64) < count
        invariant
            i <= id_fields.len(),
            i <= count,
            ids@ == present_ids(id_fields@, i as nat),
        decreases id_fields.len() - i,
    {
        match read_id_field(&id_fields[i]) {
            Some(id) => {
                ids.push(id);
            },
            None => {},
        }
        i = i + 1;
    }
    proof {
        if i < count {
            lemma_present_ids_beyond(id_fields@, count as nat);
        }
    }
    ids
}

/// A count beyond the last entry finds what the number of entries finds.
pub proof fn lemma_present_ids_beyond(id_fields: Seq<IdField>, count: nat)
    requires
        count >= id_fields.len(),
    ensures
        present_ids(id_fields, count) == present_ids(id_fields, id_fields.len()),
    decreases count,
{
    if count > id_fields.len() {
        lemma_present_ids_beyond(id_fields, (count - 1) as nat);
    }
}

/// The places that `marks` marks below `limit`, highest first.
pub fn places_marked(marks: &Vec<bool>, limit: usize) -> (places: Vec<usize>)
    ensures
        places@ == marked_places(marks@, limit as nat),
{
    let mut places: Vec<usize> = Vec::new();
    let mut k: usize = if limit < marks.len() {
        limit
    } else {
        marks.len()
    };
    proof {
        if limit >= marks.len() {
            lemma_marked_places_beyond(marks@, limit as nat);
        }
        assert(places@ + marked_places(marks@, k as nat) =~= marked_places(marks@, k as nat));
    }
    while k > 0
        invariant
            k <= marks.len(),
            marked_places(marks@, limit as nat) == places@ + marked_places(marks@, k as nat),
        decreases k,
    {
        let ghost before = places@;
        let ghost rest = marked_places(marks@, (k - 1) as nat);
        k = k - 1;
        if marks[k] {
            places.push(k);
            assert(places@ + rest =~= before + (seq![k] + rest));
        }
    }
    assert(places@ + Seq::<usize>::empty() =~= places@);
    places
}

/// One snapshot of the feed: its entries, newest first.
#[derive(Debug)]
pub struct News {
    news: Vec<NewsItem>,
}

impl View for News {
    type V = Seq<ItemView>;

    closed spec fn view(&self) -> Seq<ItemView> {
        views(self.news@)
    }
}

impl News {
    /// The snapshot without entries, which is the baseline before any fetch.
    pub fn empty() -> (news: News)
        ensures
            news@ == Seq::<ItemView>::empty(),
    {
        let news = News { news: Vec::new() };
        assert(news@ =~= Seq::<ItemView>::empty());
        news
    }

    /// The snapshot of the given entries.
    pub fn new(items: Vec<NewsItem>) -> (news: News)
        ensures
            news@ == views(items@),
    {
        News { news: items }
    }

    /// The snapshot that a fetch of `count` entries gave, if it gave that
    /// many. Any other number is an error of shape, and the entries are
    /// thrown away.
    pub fn checked(items: Vec<NewsItem>, count: u64) -> (outcome: Result<News, FetchError>)
        ensures
            match outcome {
                Ok(news) => items@.len() == count && news@ == views(items@),
                Err(error) => items@.len() != count && error == FetchError::ShapeError,
            },
    {
        if items.len() as u64 == count {
            Ok(News::new(items))
        } else {
            Err(FetchError::ShapeError)
        }
    }

    /// Keeps the entries that share a platform with `platforms`, in their
    /// order, and drops the others. An empty filter keeps every entry.
    pub fn filter_news_by_platform(&mut self, platforms: &PlatformSet)
        ensures
            final(self)@ == kept(old(self)@, platforms@),
    {
        let ghost all = self@;
        let mut i: usize = 0;
        let ghost mut done: int = 0;
        proof {
            assert(all.take(0) =~= Seq::<ItemView>::empty());
            assert(all.skip(0) =~= all);
            assert(kept(all.take(0), platforms@) + all.skip(0) =~= all);
        }
        while i < self.news.len()
            invariant
                0 <= done <= all.len(),
                i == kept(all.take(done), platforms@).len(),
                self@ == kept(all.take(done), platforms@) + all.skip(done),
            decreases all.len() - done,
        {
            proof {
                assert(self@.len() == i + (all.len() - done));
                assert(self@[i as int] == all.skip(done)[0]);
                assert(all.take(done + 1).drop_last() =~= all.take(done));
                assert(all.take(done + 1).last() == all[done]);
            }
            let ghost before = self@;
            if platforms.admits(self.news[i].platforms()) {
                proof {
                    assert(before =~= kept(all.take(done + 1), platforms@) + all.skip(done + 1));
                }
                i = i + 1;
            } else {
                self.news.remove(i);
                proof {
                    assert(self@ =~= before.remove(i as int));
                    assert(before.remove(i as int) =~= kept(all.take(done + 1), platforms@)
                        + all.skip(done + 1));
                }
            }
            proof {
                done = done + 1;
            }
        }
        proof {
            assert(self@.len() == i + (all.len() - done));
            assert(all.take(done) =~= all);
            assert(all.skip(done) =~= Seq::<ItemView>::empty());
            assert(self@ =~= kept(all, platforms@));
        }
    }

    /// The number of entries.
    pub fn count(&self) -> (n: u64)
        ensures
            n == self@.len(),
    {
        self.news.len() as u64
    }

    /// The entries in their order, newest first.
    pub fn iter(&self) -> (entries: std::slice::Iter<'_, NewsItem>)
        ensures
            views(entries.remaining().unref()) == self@,
            entries.decrease() is Some,
            entries.obeys_prophetic_iter_laws(),
    {
        let entries = self.news.as_slice().iter();
        assert(entries.remaining().unref() =~= self.news@);
        entries
    }

    /// The entry at place `i`, the newest being at place 0.
    pub fn item(&self, i: usize) -> (entry: &NewsItem)
        requires
            i < self@.len(),
        ensures
            entry@ == self@[i as int],
    {
        &self.news[i]
    }

    /// The identifiers of the entries, in their order.
    pub fn ids(&self) -> (ids: Vec<u64>)
        ensures
            ids@ == ids_of(self@),
    {
        let mut ids: Vec<u64> = Vec::new();
        let mut i: usize = 0;
        while i < self.news.len()
            invariant
                i <= self.news.len(),
                ids@ == ids_of(self@).take(i as int),
            decreases self.news.len() - i,
        {
            ids.push(self.news[i].get_id());
            assert(ids@ =~= ids_of(self@).take(i + 1));
            i = i + 1;
        }
        assert(ids_of(self@).take(self.news.len() as int) =~= ids_of(self@));
        ids
    }

    /// The comparison with a baseline: the places of those of the first
    /// `check_count` entries whose identifier is not among `seen` and that
    /// pass the filter `wanted`, from the oldest to the newest.
    pub fn new_since(&self, seen: &Vec<u64>, check_count: u64, wanted: &PlatformSet) -> (places: Vec<
        usize,
    >)
        ensures
            places@ == new_places(self@, seen@, wanted@, check_count as nat),
    {
        let mut marks: Vec<bool> = Vec::new();
        let mut i: usize = 0;
        while i < self.news.len()
            invariant
                i <= self.news.len(),
                marks@ == new_marks(self@, seen@, wanted@).take(i as int),
            decreases self.news.len() - i,
        {
            let entry = &self.news[i];
            let mark = !has_id(seen, entry.get_id()) && wanted.admits(entry.platforms());
            marks.push(mark);
            assert(marks@ =~= new_marks(self@, seen@, wanted@).take(i + 1));
            i = i + 1;
        }
        let ghost all = new_marks(self@, seen@, wanted@);
        assert(all.take(self.news.len() as int) =~= all);
        let limit: usize = if check_count > self.news.len() as u64 {
            self.news.len()
        } else {
            check_count as usize
        };
        proof {
            if check_count > self.news.len() {
                lemma_marked_places_beyond(all, check_count as nat);
            }
        }
        places_marked(&marks, limit)
    }

    /// The comparison with a channel's own history: the places of the
    /// entries whose identifier is not among `posted` and that are fresh at
    /// `now`, from the oldest to the newest.
    pub fn due_for(&self, posted: &Vec<u64>, now: i64, fresh_seconds: u64) -> (places: Vec<usize>)
        ensures
            places@ == due_places(self@, posted@, now, fresh_seconds),
    {
        let mut marks: Vec<bool> = Vec::new();
        let mut i: usize = 0;
        while i < self.news.len()
            invariant
                i <= self.news.len(),
                marks@ == due_marks(self@, posted@, now, fresh_seconds).take(i as int),
            decreases self.news.len() - i,
        {
            let entry = &self.news[i];
            let mark = !has_id(posted, entry.get_id()) && entry.is_fresh_at(now, fresh_seconds);
            marks.push(mark);
            assert(marks@ =~= due_marks(self@, posted@, now, fresh_seconds).take(i + 1));
            i = i + 1;
        }
        let ghost all = due_marks(self@, posted@, now, fresh_seconds);
        assert(all.take(self.news.len() as int) =~= all);
        places_marked(&marks, self.news.len())
    }
}

} // verus!
