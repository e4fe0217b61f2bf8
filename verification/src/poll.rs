//! The poll cycle that compares each snapshot with the one before it, and
//! the order in which what is new goes out to the channels.

use vstd::prelude::*;
use crate::item::{ItemView, NewsItem};
use crate::news::{ids_of, new_places, views, FetchError, News};
use crate::platforms::PlatformSet;

verus! {

/// Where the poll cycle stands.
#[derive(Clone, Copy, Debug, PartialEq, Eq, Structural)]
pub enum Phase {
    /// Before the first fetch, which only sets the baseline.
    Priming,
    /// The steady state: every fetch is compared with the baseline.
    Polling,
}

/// What a scheduler holds.
pub struct SchedulerView {
    /// Where the cycle stands.
    pub phase: Phase,
    /// The last snapshot taken as seen.
    pub baseline: Seq<ItemView>,
    /// How many entries each fetch asks for.
    pub poll_count: u64,
    /// How many of the newest entries are looked at.
    pub check_count: u64,
    /// The platform filter; empty for all platforms.
    pub platforms: Seq<Seq<char>>,
}

/// What a fetch brought, as the scheduler sees it: a snapshot of exactly
/// `poll_count` entries, or the reason why there is none.
pub open spec fn accepted(fetched: Result<Seq<ItemView>, FetchError>, poll_count: u64) -> Result<
    Seq<ItemView>,
    FetchError,
> {
    match fetched {
        Ok(items) => if items.len() == poll_count {
            Ok(items)
        } else {
            Err(FetchError::ShapeError)
        },
        Err(error) => Err(error),
    }
}

/// The baseline after a fetch: the snapshot, if there is one, else the
/// baseline as it was.
pub open spec fn next_baseline(
    state: SchedulerView,
    fetched: Result<Seq<ItemView>, FetchError>,
) -> Seq<ItemView> {
    match accepted(fetched, state.poll_count) {
        Ok(items) => items,
        Err(_) => state.baseline,
    }
}

/// The places, in the snapshot, of the entries that a fetch makes the
/// scheduler announce, oldest first; or the reason why there is no snapshot.
/// The priming fetch announces nothing.
pub open spec fn announced(
    state: SchedulerView,
    fetched: Result<Seq<ItemView>, FetchError>,
) -> Result<Seq<usize>, FetchError> {
    match accepted(fetched, state.poll_count) {
        Ok(items) => Ok(
            if state.phase == Phase::Priming {
                Seq::empty()
            } else {
                new_places(
                    items,
                    ids_of(state.baseline),
                    state.platforms,
                    state.check_count as nat,
                )
            },
        ),
        Err(error) => Err(error),
    }
}

/// What a fetch brought, in terms of what the entries hold.
pub open spec fn fetched_view(fetched: Result<Vec<NewsItem>, FetchError>) -> Result<
    Seq<ItemView>,
    FetchError,
> {
    match fetched {
        Ok(items) => Ok(views(items@)),
        Err(error) => Err(error),
    }
}

/// The priming fetch never announces anything, and what it brought is the
/// baseline afterwards; where it brought nothing the baseline stays empty,
/// so that the next snapshot is new as far as it is looked at.
pub proof fn lemma_priming_is_silent(state: SchedulerView, fetched: Result<Seq<ItemView>, FetchError>)
    requires
        state.phase == Phase::Priming,
    ensures
        match announced(state, fetched) {
            Ok(places) => places == Seq::<usize>::empty() && next_baseline(state, fetched)
                == fetched->Ok_0,
            Err(_) => next_baseline(state, fetched) == state.baseline,
        },
{
}

/// A fetch that fails, or that brings another number of entries than was
/// asked for, announces nothing and leaves the baseline as it was.
pub proof fn lemma_failed_fetch_changes_nothing(
    state: SchedulerView,
    fetched: Result<Seq<ItemView>, FetchError>,
)
    requires
        fetched is Err || fetched->Ok_0.len() != state.poll_count,
    ensures
        announced(state, fetched) is Err,
        next_baseline(state, fetched) == state.baseline,
        fetched is Ok ==> announced(state, fetched) == Err::<Seq<usize>, FetchError>(
            FetchError::ShapeError,
        ),
        fetched is Err ==> announced(state, fetched) == Err::<Seq<usize>, FetchError>(
            fetched->Err_0,
        ),
{
}

/// A snapshot taken as baseline and then fetched again holds nothing new.
pub proof fn lemma_same_snapshot_is_silent(state: SchedulerView, items: Seq<ItemView>)
    requires
        state.phase == Phase::Polling,
        state.baseline == items,
        items.len() == state.poll_count,
    ensures
        announced(state, Ok(items)) == Ok::<Seq<usize>, FetchError>(Seq::empty()),
{
    crate::news::lemma_nothing_new_against_itself(items, state.platforms, state.check_count as nat);
}

/// The deliveries of one entry: to each channel in turn.
pub open spec fn deliveries_of(place: usize, channels: Seq<u64>) -> Seq<(usize, u64)> {
    Seq::new(channels.len(), |j: int| (place, channels[j]))
}

/// The deliveries of several entries: all of the first entry's, then all of
/// the second's, and so on.
pub open spec fn fan_out(places: Seq<usize>, channels: Seq<u64>) -> Seq<(usize, u64)>
    decreases places.len(),
{
    if places.len() == 0 {
        Seq::empty()
    } else {
        fan_out(places.drop_last(), channels) + deliveries_of(places.last(), channels)
    }
}

/// There are as many deliveries as entries times channels.
pub proof fn lemma_fan_out_len(places: Seq<usize>, channels: Seq<u64>)
    ensures
        fan_out(places, channels).len() == places.len() * channels.len(),
    decreases places.len(),
{
    let m = channels.len() as int;
    if places.len() > 0 {
        let front = places.drop_last();
        lemma_fan_out_len(front, channels);
        let n = front.len() as int;
        assert((n + 1) * m == n * m + m) by (nonlinear_arith);
    } else {
        assert(0 * m == 0);
    }
}

/// Every entry is delivered to every channel, entry by entry: the delivery
/// of the entry at position `i` to the channel at position `j` stands at
/// position `i * channels + j`.
pub proof fn lemma_fan_out_at(places: Seq<usize>, channels: Seq<u64>, i: int, j: int)
    requires
        0 <= i < places.len(),
        0 <= j < channels.len(),
    ensures
        0 <= i * channels.len() + j < fan_out(places, channels).len(),
        fan_out(places, channels)[i * channels.len() + j] == (places[i], channels[j]),
    decreases places.len(),
{
    let m = channels.len() as int;
    let front = places.drop_last();
    let n = front.len() as int;
    lemma_fan_out_len(front, channels);
    lemma_fan_out_len(places, channels);
    assert((n + 1) * m == n * m + m) by (nonlinear_arith);
    let before = fan_out(front, channels);
    let row = deliveries_of(places.last(), channels);
    assert(fan_out(places, channels) == before + row);
    if i < n {
        lemma_fan_out_at(front, channels, i, j);
        assert(front[i] == places[i]);
        assert((before + row)[i * m + j] == before[i * m + j]);
    } else {
        assert(i * m == n * m);
        assert(0 <= n * m) by (nonlinear_arith)
            requires
                0 <= n,
                0 <= m,
        ;
        assert((before + row)[n * m + j] == row[j]);
    }
}

/// The deliveries that announce the entries at `places` to `channels`:
/// entry by entry, and for each entry channel by channel.
pub fn deliveries(places: &Vec<usize>, channels: &Vec<u64>) -> (out: Vec<(usize, u64)>)
    ensures
        out@ == fan_out(places@, channels@),
{
    let mut out: Vec<(usize, u64)> = Vec::new();
    let mut i: usize = 0;
    assert(places@.take(0) =~= Seq::<usize>::empty());
    while i < places.len()
        invariant
            i <= places.len(),
            out@ == fan_out(places@.take(i as int), channels@),
        decreases places.len() - i,
    {
        let ghost done = out@;
        let place = places[i];
        let mut j: usize = 0;
        assert(out@ =~= done + deliveries_of(place, channels@).take(0));
        while j < channels.len()
            invariant
                j <= channels.len(),
                out@ == done + deliveries_of(place, channels@).take(j as int),
            decreases channels.len() - j,
        {
            out.push((place, channels[j]));
            assert(out@ =~= done + deliveries_of(place, channels@).take(j + 1));
            j = j + 1;
        }
        proof {
            assert(deliveries_of(place, channels@).take(channels.len() as int) =~= deliveries_of(
                place,
                channels@,
            ));
            assert(places@.take(i + 1).drop_last() =~= places@.take(i as int));
            assert(places@.take(i + 1).last() == place);
        }
        i = i + 1;
    }
    assert(places@.take(places.len() as int) =~= places@);
    out
}

/// The poll cycle of the baseline comparison: it owns the baseline, and
/// decides after each fetch what is announced.
#[derive(Debug)]
pub struct Scheduler {
    phase: Phase,
    baseline: News,
    poll_count: u64,
    check_count: u64,
    platforms: PlatformSet,
}

impl View for Scheduler {
    type V = SchedulerView;

    closed spec fn view(&self) -> SchedulerView {
        SchedulerView {
            phase: self.phase,
            baseline: self.baseline@,
            poll_count: self.poll_count,
            check_count: self.check_count,
            platforms: self.platforms@,
        }
    }
}

impl Scheduler {
    /// No more entries are looked at than are fetched.
    pub open spec fn wf(&self) -> bool {
        self@.check_count <= self@.poll_count
    }

    /// A scheduler before its first fetch, with an empty baseline. There is
    /// none that looks at more entries than it fetches.
    pub fn new(poll_count: u64, check_count: u64, platforms: PlatformSet) -> (made: Option<
        Scheduler,
    >)
        ensures
            made is Some <==> check_count <= poll_count,
            match made {
                Some(scheduler) => {
                    &&& scheduler.wf()
                    &&& scheduler@.phase == Phase::Priming
                    &&& scheduler@.baseline == Seq::<ItemView>::empty()
                    &&& scheduler@.poll_count == poll_count
                    &&& scheduler@.check_count == check_count
                    &&& scheduler@.platforms == platforms@
                },
                None => true,
            },
    {
        if check_count <= poll_count {
            Some(
                Scheduler {
                    phase: Phase::Priming,
                    baseline: News::empty(),
                    poll_count,
                    check_count,
                    platforms,
                },
            )
        } else {
            None
        }
    }

    /// Where the cycle stands.
    pub fn phase(&self) -> (phase: Phase)
        ensures
            phase == self@.phase,
    {
        self.phase
    }

    /// The snapshot that counts as seen.
    pub fn baseline(&self) -> (baseline: &News)
        ensures
            baseline@ == self@.baseline,
    {
        &self.baseline
    }

    /// How many entries each fetch is to ask for.
    pub fn poll_count(&self) -> (n: u64)
        ensures
            n == self@.poll_count,
    {
        self.poll_count
    }

    /// How many of the newest entries are looked at.
    pub fn check_count(&self) -> (n: u64)
        ensures
            n == self@.check_count,
    {
        self.check_count
    }

    /// Takes what a fetch brought. A snapshot of the right size becomes the
    /// baseline; the result lists the places in it of the entries to
    /// announce, oldest first: none after the priming fetch, afterwards
    /// those of the newest `check_count` entries that the baseline before
    /// lacked and that pass the platform filter. A failed fetch, or a
    /// snapshot of another size, leaves the baseline as it was and is
    /// reported. Either way the priming is over.
    pub fn on_fetch(&mut self, fetched: Result<Vec<NewsItem>, FetchError>) -> (outcome: Result<
        Vec<usize>,
        FetchError,
    >)
        requires
            old(self).wf(),
        ensures
            final(self).wf(),
            final(self)@.phase == Phase::Polling,
            final(self)@.baseline == next_baseline(old(self)@, fetched_view(fetched)),
            final(self)@.poll_count == old(self)@.poll_count,
            final(self)@.check_count == old(self)@.check_count,
            final(self)@.platforms == old(self)@.platforms,
            match outcome {
                Ok(places) => announced(old(self)@, fetched_view(fetched)) == Ok::<
                    Seq<usize>,
                    FetchError,
                >(places@),
                Err(error) => announced(old(self)@, fetched_view(fetched)) == Err::<
                    Seq<usize>,
                    FetchError,
                >(error),
            },
    {
        let priming = match self.phase {
            Phase::Priming => true,
            Phase::Polling => false,
        };
        self.phase = Phase::Polling;
        let items = match fetched {
            Ok(items) => items,
            Err(error) => {
                return Err(error);
            },
        };
        let news = match News::checked(items, self.poll_count) {
            Ok(news) => news,
            Err(error) => {
                return Err(error);
            },
        };
        let places = if priming {
            Vec::new()
        } else {
            let seen = self.baseline.ids();
            news.new_since(&seen, self.check_count, &self.platforms)
        };
        self.baseline = news;
        Ok(places)
    }
}

} // verus!
