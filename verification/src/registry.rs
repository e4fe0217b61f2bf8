//! The destination registry: the channels that announcements go to, and the
//! text file that mirrors them, one identifier per line.
//!
//! The channels are kept in the order of registration. Membership does not
//! depend on that order; it is kept so that the file of a registry is one
//! definite text, line for line, and so that the file read back gives the
//! same registry.

use vstd::prelude::*;
use vstd::string::StringExecFns;
use crate::text::{
    chars_of, decimal_digits, lemma_decimal_digits_value, lemma_decimal_round_trip,
    parse_unsigned_in, push_decimal, unsigned_number, is_digit,
};

verus! {

/// The channels after `id` has been registered: a channel that is already
/// there stays where it is, a new one comes last.
pub open spec fn with_id(ids: Seq<u64>, id: u64) -> Seq<u64> {
    if ids.contains(id) {
        ids
    } else {
        ids.push(id)
    }
}

/// The channels after `id` has been unregistered.
pub open spec fn without_id(ids: Seq<u64>, id: u64) -> Seq<u64> {
    if ids.contains(id) {
        ids.remove(ids.index_of(id))
    } else {
        ids
    }
}

/// The channels after each of `more` has been registered, in that order.
pub open spec fn with_ids(ids: Seq<u64>, more: Seq<u64>) -> Seq<u64>
    decreases more.len(),
{
    if more.len() == 0 {
        ids
    } else {
        with_ids(with_id(ids, more[0]), more.skip(1))
    }
}

/// Where the first line of a text ends: at its first line feed, or at the end
/// of the text.
pub open spec fn line_end(s: Seq<char>) -> int
    decreases s.len(),
{
    if s.len() == 0 || s[0] == '\n' {
        0
    } else {
        1 + line_end(s.skip(1))
    }
}

/// What a line says, given its characters up to the line feed: a carriage
/// return just before the line feed belongs to the line break.
pub open spec fn line_content(raw: Seq<char>, terminated: bool) -> Seq<char> {
    if terminated && raw.len() > 0 && raw.last() == '\r' {
        raw.drop_last()
    } else {
        raw
    }
}

/// The identifiers that the lines of a text give, in order. A line that is
/// not an unsigned integer gives none.
pub open spec fn listed_ids(s: Seq<char>) -> Seq<u64>
    decreases s.len(),
{
    if s.len() == 0 {
        Seq::empty()
    } else {
        let n = line_end(s);
        if 0 <= n < s.len() {
            line_ids(line_content(s.take(n), true)) + listed_ids(s.skip(n + 1))
        } else {
            line_ids(line_content(s, false))
        }
    }
}

/// The identifier that one line gives, if it gives one.
pub open spec fn line_ids(line: Seq<char>) -> Seq<u64> {
    match unsigned_number(line) {
        Some(id) => seq![id],
        None => Seq::empty(),
    }
}

/// The text of the file that mirrors the channels: the decimal numeral of
/// each, followed by a line feed.
pub open spec fn channel_file(ids: Seq<u64>) -> Seq<char>
    decreases ids.len(),
{
    if ids.len() == 0 {
        Seq::empty()
    } else {
        decimal_digits(ids[0] as nat) + seq!['\n'] + channel_file(ids.skip(1))
    }
}

/// A place that no line feed precedes, and that is the end of the text or a
/// line feed itself, is where the first line ends.
pub proof fn lemma_line_end_is(s: Seq<char>, n: int)
    requires
        0 <= n <= s.len(),
        forall|j: int| 0 <= j < n ==> s[j] != '\n',
        n < s.len() ==> s[n] == '\n',
    ensures
        line_end(s) == n,
    decreases s.len(),
{
    if n == 0 {
    } else {
        assert(s[0] != '\n');
        let t = s.skip(1);
        assert forall|j: int| 0 <= j < n - 1 implies t[j] != '\n' by {
            assert(t[j] == s[j + 1]);
        }
        lemma_line_end_is(t, n - 1);
    }
}

/// Registering a channel never makes a channel appear twice, keeps every
/// channel that was there, and adds exactly the one.
pub proof fn lemma_with_id(ids: Seq<u64>, id: u64)
    requires
        ids.no_duplicates(),
    ensures
        with_id(ids, id).no_duplicates(),
        with_id(ids, id).to_set() == ids.to_set().insert(id),
{
    let r = with_id(ids, id);
    if ids.contains(id) {
        assert(r.to_set() =~= ids.to_set().insert(id));
    } else {
        assert forall|i: int, j: int| 0 <= i < r.len() && 0 <= j < r.len() && i != j implies r[i]
            != r[j] by {
            if i < ids.len() && j < ids.len() {
            } else if i < ids.len() {
                assert(ids.contains(ids[i]));
            } else {
                assert(ids.contains(ids[j]));
            }
        }
        assert forall|x: u64| r.to_set().contains(x) <==> ids.to_set().insert(id).contains(
            x,
        ) by {
            if r.contains(x) {
                let i = r.index_of(x);
                if i < ids.len() {
                    assert(ids[i] == x);
                    assert(ids.contains(x));
                }
            }
            if ids.contains(x) {
                let i = ids.index_of(x);
                assert(r[i] == x);
            }
            if x == id {
                assert(r[ids.len() as int] == id);
            }
        }
        assert(r.to_set() =~= ids.to_set().insert(id));
    }
}

/// Unregistering a channel never makes a channel appear twice, and removes
/// exactly the one.
pub proof fn lemma_without_id(ids: Seq<u64>, id: u64)
    requires
        ids.no_duplicates(),
    ensures
        without_id(ids, id).no_duplicates(),
        without_id(ids, id).to_set() == ids.to_set().remove(id),
        !without_id(ids, id).contains(id),
{
    let r = without_id(ids, id);
    if ids.contains(id) {
        let k = ids.index_of(id);
        assert forall|i: int| 0 <= i < r.len() implies r[i] == ids[if i < k {
            i
        } else {
            i + 1
        }] by {}
        assert forall|i: int, j: int| 0 <= i < r.len() && 0 <= j < r.len() && i != j implies r[i]
            != r[j] by {}
        assert forall|x: u64| r.to_set().contains(x) <==> ids.to_set().remove(id).contains(
            x,
        ) by {
            if r.contains(x) {
                let i = r.index_of(x);
                let i0 = if i < k {
                    i
                } else {
                    i + 1
                };
                assert(ids[i0] == x);
                assert(ids.contains(x));
                assert(i0 != k);
            }
            if ids.contains(x) && x != id {
                let i = ids.index_of(x);
                let j = if i < k {
                    i
                } else {
                    i - 1
                };
                assert(r[j] == x);
            }
        }
        assert(r.to_set() =~= ids.to_set().remove(id));
        if r.contains(id) {
            assert(r.to_set().contains(id));
        }
    } else {
        assert(r.to_set() =~= ids.to_set().remove(id));
    }
}

/// Registering the channels of a first list and then those of a second is
/// registering those of the two lists joined.
pub proof fn lemma_with_ids_append(ids: Seq<u64>, first: Seq<u64>, second: Seq<u64>)
    ensures
        with_ids(ids, first + second) == with_ids(with_ids(ids, first), second),
    decreases first.len(),
{
    if first.len() == 0 {
        assert(first + second =~= second);
    } else {
        assert((first + second)[0] == first[0]);
        assert((first + second).skip(1) =~= first.skip(1) + second);
        lemma_with_ids_append(with_id(ids, first[0]), first.skip(1), second);
    }
}

/// The durable set of destination channels, in the order of registration.
#[derive(Debug)]
pub struct Registry {
    ids: Vec<u64>,
}

impl View for Registry {
    type V = Seq<u64>;

    closed spec fn view(&self) -> Seq<u64> {
        self.ids@
    }
}

impl Registry {
    /// No channel is registered twice.
    pub open spec fn wf(&self) -> bool {
        self@.no_duplicates()
    }

    /// The registered channels as a set.
    pub open spec fn channels(&self) -> Set<u64> {
        self@.to_set()
    }

    /// A registry without channels.
    pub fn new() -> (registry: Registry)
        ensures
            registry.wf(),
            registry@ == Seq::<u64>::empty(),
    {
        Registry { ids: Vec::new() }
    }

    /// The number of registered channels.
    pub fn len(&self) -> (n: usize)
        requires
            self.wf(),
        ensures
            n == self@.len(),
            n == self.channels().len(),
    {
        proof {
            self.ids@.unique_seq_to_set();
        }
        self.ids.len()
    }

    /// Whether `id` is registered.
    pub fn contains(&self, id: u64) -> (found: bool)
        ensures
            found == self@.contains(id),
            found == self.channels().contains(id),
    {
        let place = self.position(id);
        proof {
            if let Some(i) = place {
                assert(self.ids@.contains(id));
            }
        }
        place.is_some()
    }

    /// Where `id` stands among the registered channels.
    fn position(&self, id: u64) -> (place: Option<usize>)
        ensures
            match place {
                Some(i) => i < self.ids@.len() && self.ids@[i as int] == id,
                None => !self.ids@.contains(id),
            },
    {
        let mut i: usize = 0;
        while i < self.ids.len()
            invariant
                i <= self.ids.len(),
                forall|j: int| 0 <= j < i ==> self.ids@[j] != id,
            decreases self.ids.len() - i,
        {
            if self.ids[i] == id {
                return Some(i);
            }
            i = i + 1;
        }
        None
    }

    /// Registers `id`. Registering a channel that is there already changes
    /// nothing. Tells whether the channel is new.
    pub fn add(&mut self, id: u64) -> (added: bool)
        requires
            old(self).wf(),
        ensures
            final(self).wf(),
            final(self)@ == with_id(old(self)@, id),
            final(self).channels() == old(self).channels().insert(id),
            added == !old(self)@.contains(id),
    {
        proof {
            lemma_with_id(self.ids@, id);
        }
        if self.contains(id) {
            false
        } else {
            self.ids.push(id);
            true
        }
    }

    /// Unregisters `id`. Unregistering a channel that is not there changes
    /// nothing. Tells whether the channel was there.
    pub fn remove(&mut self, id: u64) -> (removed: bool)
        requires
            old(self).wf(),
        ensures
            final(self).wf(),
            final(self)@ == without_id(old(self)@, id),
            final(self).channels() == old(self).channels().remove(id),
            removed == old(self)@.contains(id),
    {
        proof {
            lemma_without_id(self.ids@, id);
        }
        match self.position(id) {
            Some(i) => {
                assert(self.ids@.contains(id));
                assert(self.ids@.index_of(id) == i);
                self.ids.remove(i);
                true
            },
            None => false,
        }
    }

    /// A copy of the registered channels, so that a caller can walk them
    /// while the registry changes.
    pub fn snapshot(&self) -> (copy: Vec<u64>)
        ensures
            copy@ == self@,
            copy@.to_set() == self.channels(),
    {
        self.ids.clone()
    }

    /// The registry that the same registrations give, as a value of its own.
    pub fn duplicate(&self) -> (copy: Registry)
        ensures
            copy@ == self@,
            copy.wf() == self.wf(),
    {
        Registry { ids: self.ids.clone() }
    }

    /// The registry that a saved file gives: every line that is an unsigned
    /// integer registers a channel, every other line is passed over.
    pub fn load(text: &str) -> (registry: Registry)
        ensures
            registry.wf(),
            registry@ == with_ids(Seq::empty(), listed_ids(text@)),
    {
        let mut registry = Registry::new();
        registry.add_lines(text);
        registry
    }

    /// Registers the channels that the lines of a saved file give.
    pub fn add_lines(&mut self, text: &str)
        requires
            old(self).wf(),
        ensures
            final(self).wf(),
            final(self)@ == with_ids(old(self)@, listed_ids(text@)),
    {
        let chars = chars_of(text);
        let n = chars.len();
        let mut start: usize = 0;
        assert(chars@.skip(0) =~= text@);
        while start < n
            invariant
                n == chars.len(),
                chars@ == text@,
                start <= n,
                self.wf(),
                with_ids(self@, listed_ids(chars@.skip(start as int))) == with_ids(
                    old(self)@,
                    listed_ids(text@),
                ),
            decreases n - start,
        {
            let ghost rest = chars@.skip(start as int);
            let mut end: usize = start;
            while end < n && chars[end] != '\n'
                invariant
                    start <= end <= n,
                    n == chars.len(),
                    forall|j: int| start <= j < end ==> chars@[j] != '\n',
                decreases n - end,
            {
                end = end + 1;
            }
            let terminated = end < n;
            let mut stop: usize = end;
            if terminated && end > start && chars[end - 1] == '\r' {
                stop = end - 1;
            }
            let parsed = parse_unsigned_in(&chars, start, stop);
            proof {
                lemma_line_end_is(rest, end - start);
                let raw = rest.take(end - start);
                assert(raw =~= chars@.subrange(start as int, end as int));
                assert(line_content(raw, terminated) =~= chars@.subrange(
                    start as int,
                    stop as int,
                ));
                let head = line_ids(line_content(raw, terminated));
                if terminated {
                    assert(rest.skip(end - start + 1) =~= chars@.skip(end + 1));
                    lemma_with_ids_append(self@, head, listed_ids(chars@.skip(end + 1)));
                } else {
                    assert(raw =~= rest);
                    assert(chars@.skip(n as int) =~= Seq::<char>::empty());
                    assert(head + listed_ids(chars@.skip(n as int)) =~= head);
                    lemma_with_ids_append(self@, head, listed_ids(chars@.skip(n as int)));
                }
                assert(with_ids(self@, head) == match parsed {
                    Some(id) => with_id(self@, id),
                    None => self@,
                }) by {
                    if let Some(id) = parsed {
                        assert(head[0] == id);
                        assert(head.skip(1) =~= Seq::<u64>::empty());
                        assert(with_ids(with_id(self@, id), head.skip(1)) == with_id(self@, id));
                    } else {
                        assert(head.len() == 0);
                    }
                }
            }
            if let Some(id) = parsed {
                self.add(id);
            }
            start = if terminated {
                end + 1
            } else {
                n
            };
        }
        proof {
            assert(chars@.skip(n as int) =~= Seq::<char>::empty());
        }
    }

    /// The text of the file that mirrors this registry.
    pub fn file_text(&self) -> (text: String)
        ensures
            text@ == channel_file(self@),
    {
        render_channels(&self.ids)
    }
}

/// The text of the file that mirrors a list of channels.
pub fn render_channels(ids: &Vec<u64>) -> (text: String)
    ensures
        text@ == channel_file(ids@),
{
    let mut text = String::new();
    let mut i: usize = 0;
    assert(ids@.skip(0) =~= ids@);
    assert(text@ + channel_file(ids@) =~= channel_file(ids@));
    while i < ids.len()
        invariant
            i <= ids.len(),
            channel_file(ids@) == text@ + channel_file(ids@.skip(i as int)),
        decreases ids.len() - i,
    {
        let ghost before = text@;
        let ghost rest = ids@.skip(i as int);
        push_decimal(&mut text, ids[i]);
        proof {
            reveal_strlit("\n");
            assert("\n"@ =~= seq!['\n']);
        }
        text.append("\n");
        proof {
            assert(rest[0] == ids@[i as int]);
            assert(rest.skip(1) =~= ids@.skip(i + 1));
            assert(text@ + channel_file(ids@.skip(i + 1)) =~= before + channel_file(rest));
        }
        i = i + 1;
    }
    proof {
        assert(ids@.skip(ids.len() as int) =~= Seq::<u64>::empty());
        assert(text@ + Seq::<char>::empty() =~= text@);
    }
    text
}

/// Registering a channel twice is registering it once.
pub proof fn lemma_add_idempotent(ids: Seq<u64>, id: u64)
    ensures
        with_id(with_id(ids, id), id) == with_id(ids, id),
        with_id(ids, id).contains(id),
{
    if !ids.contains(id) {
        assert(ids.push(id)[ids.len() as int] == id);
    }
}

/// A registry that was empty and had one channel registered twice holds that
/// one channel, and its file is the one line of that channel.
pub proof fn lemma_add_twice_to_empty(id: u64)
    ensures
        with_id(with_id(Seq::empty(), id), id) == seq![id],
        with_id(with_id(Seq::empty(), id), id).to_set().len() == 1,
        channel_file(with_id(with_id(Seq::empty(), id), id)) == decimal_digits(id as nat) + seq![
            '\n',
        ],
{
    let empty = Seq::<u64>::empty();
    lemma_add_idempotent(empty, id);
    assert(with_id(empty, id) =~= seq![id]);
    let one = seq![id];
    assert(one.no_duplicates());
    one.unique_seq_to_set();
    assert(one.skip(1) =~= Seq::<u64>::empty());
    assert(channel_file(one.skip(1)) =~= Seq::<char>::empty());
    assert(channel_file(one) =~= decimal_digits(id as nat) + seq!['\n']);
}

/// The lines of a registry's file give back its channels, in order.
pub proof fn lemma_file_lists_channels(ids: Seq<u64>)
    ensures
        listed_ids(channel_file(ids)) == ids,
    decreases ids.len(),
{
    if ids.len() == 0 {
    } else {
        let digits = decimal_digits(ids[0] as nat);
        let rest = channel_file(ids.skip(1));
        let s = digits + seq!['\n'] + rest;
        lemma_decimal_digits_value(ids[0] as nat);
        lemma_decimal_round_trip(ids[0]);
        let n = digits.len() as int;
        assert(s[n] == '\n');
        assert forall|j: int| 0 <= j < n implies s[j] != '\n' by {
            assert(s[j] == digits[j]);
            assert(is_digit(digits[j]));
        }
        lemma_line_end_is(s, n);
        assert(s.take(n) =~= digits);
        assert(is_digit(digits.last()));
        assert(line_content(digits, true) == digits);
        assert(s.skip(n + 1) =~= rest);
        lemma_file_lists_channels(ids.skip(1));
        assert(seq![ids[0]] + ids.skip(1) =~= ids);
    }
}

/// Registering, into an empty registry, the channels of a list in which none
/// occurs twice gives that list.
pub proof fn lemma_with_ids_of_unique(ids: Seq<u64>, more: Seq<u64>)
    requires
        (ids + more).no_duplicates(),
    ensures
        with_ids(ids, more) == ids + more,
    decreases more.len(),
{
    if more.len() == 0 {
        assert(ids + more =~= ids);
    } else {
        let all = ids + more;
        if ids.contains(more[0]) {
            let i = ids.index_of(more[0]);
            assert(all[i] == more[0]);
            assert(all[ids.len() as int] == more[0]);
            assert(false);
        }
        assert(ids.push(more[0]) + more.skip(1) =~= all);
        lemma_with_ids_of_unique(ids.push(more[0]), more.skip(1));
    }
}

/// A restart loses nothing: loading the file that a registry wrote gives the
/// same channels in the same order.
pub proof fn lemma_load_restores(ids: Seq<u64>)
    requires
        ids.no_duplicates(),
    ensures
        with_ids(Seq::empty(), listed_ids(channel_file(ids))) == ids,
{
    lemma_file_lists_channels(ids);
    assert(Seq::<u64>::empty() + ids =~= ids);
    lemma_with_ids_of_unique(Seq::empty(), ids);
}

} // verus!
