//! Sets of platform codes such as `pc`, `ps` and `xbox`, kept in ascending
//! order so that two equal sets always list their codes alike.

use vstd::prelude::*;
use crate::text::chars_of;

verus! {

/// Dictionary order on texts: the first character that differs decides, and
/// a text comes before every longer text that it begins.
pub open spec fn precedes(a: Seq<char>, b: Seq<char>) -> bool
    decreases a.len(),
{
    if b.len() == 0 {
        false
    } else if a.len() == 0 {
        true
    } else if a[0] != b[0] {
        a[0] < b[0]
    } else {
        precedes(a.skip(1), b.skip(1))
    }
}

/// The codes stand in strictly ascending dictionary order.
pub open spec fn ascending(names: Seq<Seq<char>>) -> bool {
    forall|i: int, j: int| 0 <= i < j < names.len() ==> precedes(#[trigger] names[i], #[trigger] names[j])
}

/// The codes after `name` has been put in its place; a code that is there
/// already is not put in again.
pub open spec fn with_name(names: Seq<Seq<char>>, name: Seq<char>) -> Seq<Seq<char>> {
    if names.contains(name) {
        names
    } else {
        names.insert(rank(names, name), name)
    }
}

/// How many of the codes come before `name`.
pub open spec fn rank(names: Seq<Seq<char>>, name: Seq<char>) -> int
    decreases names.len(),
{
    if names.len() == 0 {
        0
    } else {
        rank(names.drop_last(), name) + if precedes(names.last(), name) {
            1int
        } else {
            0int
        }
    }
}

/// The codes after each of `more` has been put in, in that order.
pub open spec fn with_names(names: Seq<Seq<char>>, more: Seq<Seq<char>>) -> Seq<Seq<char>>
    decreases more.len(),
{
    if more.len() == 0 {
        names
    } else {
        with_name(with_names(names, more.drop_last()), more.last())
    }
}

/// No code of the one list is a code of the other.
pub open spec fn disjoint(a: Seq<Seq<char>>, b: Seq<Seq<char>>) -> bool {
    forall|i: int, j: int| 0 <= i < a.len() && 0 <= j < b.len() ==> #[trigger] a[i] != #[trigger] b[j]
}

/// Whether an item published for `platforms` passes the filter `wanted`: an
/// empty filter lets every item pass, any other filter those items that
/// share a platform with it.
pub open spec fn passes(wanted: Seq<Seq<char>>, platforms: Seq<Seq<char>>) -> bool {
    wanted.len() == 0 || !disjoint(wanted, platforms)
}

/// No text comes before itself.
pub proof fn lemma_precedes_irreflexive(a: Seq<char>)
    ensures
        !precedes(a, a),
    decreases a.len(),
{
    if a.len() > 0 {
        lemma_precedes_irreflexive(a.skip(1));
    }
}

/// Of two different texts, one comes before the other.
pub proof fn lemma_precedes_total(a: Seq<char>, b: Seq<char>)
    ensures
        a == b || precedes(a, b) || precedes(b, a),
        !(precedes(a, b) && precedes(b, a)),
    decreases a.len(),
{
    if a.len() == 0 || b.len() == 0 {
        if a.len() == 0 && b.len() == 0 {
            assert(a =~= b);
        }
    } else if a[0] == b[0] {
        lemma_precedes_total(a.skip(1), b.skip(1));
        if a.skip(1) == b.skip(1) {
            assert(a =~= seq![a[0]] + a.skip(1));
            assert(b =~= seq![b[0]] + b.skip(1));
        }
    }
}

/// What comes before a text comes before everything after that text.
pub proof fn lemma_precedes_transitive(a: Seq<char>, b: Seq<char>, c: Seq<char>)
    requires
        precedes(a, b),
        precedes(b, c),
    ensures
        precedes(a, c),
    decreases a.len(),
{
    if a.len() > 0 {
        if a[0] == b[0] && b[0] == c[0] {
            lemma_precedes_transitive(a.skip(1), b.skip(1), c.skip(1));
        }
    }
}

/// Two texts that begin alike stand to each other as their remainders do.
pub proof fn lemma_precedes_after_common_prefix(a: Seq<char>, b: Seq<char>, k: int)
    requires
        0 <= k <= a.len(),
        k <= b.len(),
        a.take(k) == b.take(k),
    ensures
        precedes(a, b) == precedes(a.skip(k), b.skip(k)),
    decreases k,
{
    if k == 0 {
        assert(a.skip(0) =~= a);
        assert(b.skip(0) =~= b);
    } else {
        assert(a[0] == a.take(k)[0]);
        assert(b[0] == b.take(k)[0]);
        assert(a.skip(1).take(k - 1) =~= a.take(k).skip(1));
        assert(b.skip(1).take(k - 1) =~= b.take(k).skip(1));
        lemma_precedes_after_common_prefix(a.skip(1), b.skip(1), k - 1);
        assert(a.skip(1).skip(k - 1) =~= a.skip(k));
        assert(b.skip(1).skip(k - 1) =~= b.skip(k));
    }
}

/// In an ascending list, the codes before `name` are exactly those at the
/// places below its rank.
pub proof fn lemma_rank(names: Seq<Seq<char>>, name: Seq<char>)
    requires
        ascending(names),
    ensures
        0 <= rank(names, name) <= names.len(),
        forall|i: int| 0 <= i < rank(names, name) ==> precedes(#[trigger] names[i], name),
        forall|i: int| rank(names, name) <= i < names.len() ==> !precedes(#[trigger] names[i], name),
    decreases names.len(),
{
    if names.len() > 0 {
        let front = names.drop_last();
        assert forall|i: int, j: int| 0 <= i < j < front.len() implies precedes(
            #[trigger] front[i],
            #[trigger] front[j],
        ) by {
            assert(front[i] == names[i] && front[j] == names[j]);
        }
        lemma_rank(front, name);
        let r = rank(front, name);
        if precedes(names.last(), name) {
            // every earlier code comes before the last one, hence before `name`
            assert forall|i: int| 0 <= i < front.len() implies precedes(
                #[trigger] names[i],
                name,
            ) by {
                assert(precedes(names[i], names[names.len() - 1]));
                lemma_precedes_transitive(names[i], names.last(), name);
            }
            if r < front.len() {
                assert(front[r] == names[r]);
                assert(!precedes(front[r], name));
                assert(false);
            }
            assert forall|i: int| 0 <= i < rank(names, name) implies precedes(
                #[trigger] names[i],
                name,
            ) by {}
        } else {
            assert forall|i: int| 0 <= i < r implies precedes(#[trigger] names[i], name) by {
                assert(names[i] == front[i]);
            }
            assert forall|i: int| r <= i < names.len() implies !precedes(
                #[trigger] names[i],
                name,
            ) by {
                if i < front.len() {
                    assert(names[i] == front[i]);
                }
            }
        }
    }
}

/// A place such that every code below it comes before `name` and no code
/// from it on does is the rank of `name`.
pub proof fn lemma_rank_is(names: Seq<Seq<char>>, name: Seq<char>, r: int)
    requires
        ascending(names),
        0 <= r <= names.len(),
        forall|i: int| 0 <= i < r ==> precedes(#[trigger] names[i], name),
        forall|i: int| r <= i < names.len() ==> !precedes(#[trigger] names[i], name),
    ensures
        rank(names, name) == r,
{
    lemma_rank(names, name);
    let q = rank(names, name);
    if q < r {
        assert(precedes(names[q], name));
        assert(!precedes(names[q], name));
    } else if r < q {
        assert(precedes(names[r], name));
        assert(!precedes(names[r], name));
    }
}

/// Putting a code into an ascending list leaves it ascending, and adds that
/// code to its set and nothing else.
pub proof fn lemma_with_name(names: Seq<Seq<char>>, name: Seq<char>)
    requires
        ascending(names),
    ensures
        ascending(with_name(names, name)),
        with_name(names, name).to_set() == names.to_set().insert(name),
{
    let out = with_name(names, name);
    if names.contains(name) {
        assert(out.to_set() =~= names.to_set().insert(name));
    } else {
        lemma_rank(names, name);
        let r = rank(names, name);
        assert forall|i: int| r <= i < names.len() implies precedes(name, #[trigger] names[i]) by {
            lemma_precedes_total(names[i], name);
            assert(names.contains(names[i]));
        }
        assert forall|i: int, j: int| 0 <= i < j < out.len() implies precedes(
            #[trigger] out[i],
            #[trigger] out[j],
        ) by {
            let a = if i < r {
                i
            } else {
                i - 1
            };
            let b = if j < r {
                j
            } else {
                j - 1
            };
            if i == r {
                assert(out[j] == names[b]);
            } else if j == r {
                assert(out[i] == names[a]);
            } else {
                assert(out[i] == names[a]);
                assert(out[j] == names[b]);
            }
        }
        assert forall|x: Seq<char>| out.to_set().contains(x) <==> names.to_set().insert(
            name,
        ).contains(x) by {
            if out.contains(x) {
                let i = out.index_of(x);
                if i < r {
                    assert(names[i] == x);
                    assert(names.contains(x));
                } else if i > r {
                    assert(names[i - 1] == x);
                    assert(names.contains(x));
                }
            }
            if names.contains(x) {
                let i = names.index_of(x);
                if i < r {
                    assert(out[i] == x);
                } else {
                    assert(out[i + 1] == x);
                }
            }
            if x == name {
                assert(out[r] == name);
            }
        }
        assert(out.to_set() =~= names.to_set().insert(name));
    }
}

/// Putting codes into an ascending list leaves it ascending, and adds those
/// codes to its set and nothing else.
pub proof fn lemma_with_names(names: Seq<Seq<char>>, more: Seq<Seq<char>>)
    requires
        ascending(names),
    ensures
        ascending(with_names(names, more)),
        with_names(names, more).to_set() == names.to_set() + more.to_set(),
    decreases more.len(),
{
    if more.len() == 0 {
        assert(more.to_set() =~= Set::<Seq<char>>::empty());
        assert(names.to_set() + more.to_set() =~= names.to_set());
    } else {
        let front = more.drop_last();
        lemma_with_names(names, front);
        lemma_with_name(with_names(names, front), more.last());
        assert forall|x: Seq<char>| more.to_set().contains(x) <==> front.to_set().insert(
            more.last(),
        ).contains(x) by {
            if more.contains(x) {
                let i = more.index_of(x);
                if i < front.len() {
                    assert(front[i] == x);
                    assert(front.contains(x));
                }
            }
            if front.contains(x) {
                let i = front.index_of(x);
                assert(more[i] == x);
            }
            if x == more.last() {
                assert(more[more.len() - 1] == x);
            }
        }
        assert(more.to_set() =~= front.to_set().insert(more.last()));
        assert(with_names(names, more).to_set() =~= names.to_set() + more.to_set());
    }
}

/// No code occurs twice in an ascending list.
pub proof fn lemma_ascending_unique(names: Seq<Seq<char>>)
    requires
        ascending(names),
    ensures
        names.no_duplicates(),
{
    assert forall|i: int, j: int| 0 <= i < names.len() && 0 <= j < names.len() && i != j implies names[i]
        != names[j] by {
        lemma_precedes_irreflexive(names[i]);
        if i < j {
            assert(precedes(names[i], names[j]));
        } else {
            assert(precedes(names[j], names[i]));
        }
    }
}

/// Two ascending lists of the same codes are the same list: a set of codes
/// has one way of being listed.
pub proof fn lemma_ascending_canonical(a: Seq<Seq<char>>, b: Seq<Seq<char>>)
    requires
        ascending(a),
        ascending(b),
        a.to_set() == b.to_set(),
    ensures
        a == b,
    decreases a.len(),
{
    if a.len() == 0 {
        if b.len() > 0 {
            assert(b.contains(b[0]));
            assert(a.to_set().contains(b[0]));
        }
        assert(a =~= b);
    } else {
        let top = a.last();
        assert(a.contains(a[a.len() - 1]));
        assert(b.to_set().contains(top));
        let at = b.index_of(top);
        assert(b.contains(b[b.len() - 1]));
        assert(a.to_set().contains(b.last()));
        let back = a.index_of(b.last());
        lemma_precedes_total(top, b.last());
        if at < b.len() - 1 {
            assert(precedes(b[at], b[b.len() - 1]));
        }
        if back < a.len() - 1 {
            assert(precedes(a[back], a[a.len() - 1]));
        }
        assert(top == b.last());
        let x = a.drop_last();
        let y = b.drop_last();
        lemma_ascending_unique(a);
        lemma_ascending_unique(b);
        assert forall|i: int, j: int| 0 <= i < j < x.len() implies precedes(
            #[trigger] x[i],
            #[trigger] x[j],
        ) by {
            assert(x[i] == a[i] && x[j] == a[j]);
        }
        assert forall|i: int, j: int| 0 <= i < j < y.len() implies precedes(
            #[trigger] y[i],
            #[trigger] y[j],
        ) by {
            assert(y[i] == b[i] && y[j] == b[j]);
        }
        assert forall|c: Seq<char>| x.to_set().contains(c) <==> y.to_set().contains(c) by {
            if x.contains(c) {
                let i = x.index_of(c);
                assert(a[i] == c);
                assert(a.contains(c));
                assert(b.to_set().contains(c));
                let j = b.index_of(c);
                assert(j != b.len() - 1);
                assert(y[j] == c);
            }
            if y.contains(c) {
                let i = y.index_of(c);
                assert(b[i] == c);
                assert(b.contains(c));
                assert(a.to_set().contains(c));
                let j = a.index_of(c);
                assert(j != a.len() - 1);
                assert(x[j] == c);
            }
        }
        assert(x.to_set() =~= y.to_set());
        lemma_ascending_canonical(x, y);
        assert(a =~= x.push(top));
        assert(b =~= y.push(top));
    }
}

/// How two texts stand to each other in dictionary order.
#[derive(Clone, Copy, Debug, PartialEq, Eq, Structural)]
pub enum Standing {
    /// The first comes before the second.
    Before,
    /// The two are the same text.
    Same,
    /// The first comes after the second.
    After,
}

/// Tells how two texts stand to each other in dictionary order.
pub fn standing(a: &Vec<char>, b: &Vec<char>) -> (s: Standing)
    ensures
        s == Standing::Before <==> precedes(a@, b@),
        s == Standing::Same <==> a@ == b@,
        s == Standing::After <==> precedes(b@, a@),
{
    let mut i: usize = 0;
    while i < a.len() && i < b.len() && a[i] == b[i]
        invariant
            i <= a.len(),
            i <= b.len(),
            a@.take(i as int) == b@.take(i as int),
        decreases a.len() - i,
    {
        assert(a@.take(i + 1) =~= a@.take(i as int).push(a@[i as int]));
        assert(b@.take(i + 1) =~= b@.take(i as int).push(b@[i as int]));
        i = i + 1;
    }
    proof {
        lemma_precedes_after_common_prefix(a@, b@, i as int);
        lemma_precedes_after_common_prefix(b@, a@, i as int);
        lemma_precedes_total(a@, b@);
        lemma_precedes_irreflexive(a@);
        let ra = a@.skip(i as int);
        let rb = b@.skip(i as int);
        if i < a.len() {
            assert(ra[0] == a@[i as int]);
        }
        if i < b.len() {
            assert(rb[0] == b@[i as int]);
        }
        if i == a.len() && i == b.len() {
            assert(a@ =~= a@.take(i as int));
            assert(b@ =~= b@.take(i as int));
        }
    }
    if i == a.len() {
        if i == b.len() {
            Standing::Same
        } else {
            Standing::Before
        }
    } else if i == b.len() {
        Standing::After
    } else if a[i] < b[i] {
        Standing::Before
    } else {
        Standing::After
    }
}

/// A set of platform codes.
#[derive(Debug)]
pub struct PlatformSet {
    names: Vec<String>,
}

impl View for PlatformSet {
    type V = Seq<Seq<char>>;

    /// The codes, in ascending order.
    closed spec fn view(&self) -> Seq<Seq<char>> {
        texts(self.names@)
    }
}

/// The texts of a list of strings.
pub open spec fn texts(names: Seq<String>) -> Seq<Seq<char>> {
    Seq::new(names.len(), |i: int| names[i]@)
}

impl PlatformSet {
    /// The codes stand in strictly ascending order, so none occurs twice.
    pub open spec fn wf(&self) -> bool {
        ascending(self@)
    }

    /// The codes as a set.
    pub open spec fn codes(&self) -> Set<Seq<char>> {
        self@.to_set()
    }

    /// The set without codes.
    pub fn new() -> (set: PlatformSet)
        ensures
            set.wf(),
            set@ == Seq::<Seq<char>>::empty(),
    {
        let set = PlatformSet { names: Vec::new() };
        assert(set@ =~= Seq::<Seq<char>>::empty());
        set
    }

    /// The set of the codes in a list, however often and in whatever order
    /// the list names them.
    pub fn from_names(names: Vec<String>) -> (set: PlatformSet)
        ensures
            set.wf(),
            set@ == with_names(Seq::empty(), texts(names@)),
            set.codes() == texts(names@).to_set(),
    {
        let mut set = PlatformSet::new();
        let ghost all = texts(names@);
        let mut i: usize = 0;
        assert(all.take(0) =~= Seq::<Seq<char>>::empty());
        while i < names.len()
            invariant
                i <= names.len(),
                all == texts(names@),
                set.wf(),
                set@ == with_names(Seq::empty(), all.take(i as int)),
            decreases names.len() - i,
        {
            let name = names[i].clone();
            proof {
                assert(all.take(i + 1).drop_last() =~= all.take(i as int));
                assert(all.take(i + 1).last() == name@);
            }
            set.insert(name);
            i = i + 1;
        }
        proof {
            assert(all.take(names.len() as int) =~= all);
            lemma_with_names(Seq::empty(), all);
            assert(Seq::<Seq<char>>::empty().to_set() + all.to_set() =~= all.to_set());
        }
        set
    }

    /// The number of codes.
    pub fn len(&self) -> (n: usize)
        ensures
            n == self@.len(),
    {
        self.names.len()
    }

    /// Whether there is no code.
    pub fn is_empty(&self) -> (empty: bool)
        ensures
            empty == (self@.len() == 0),
    {
        self.names.len() == 0
    }

    /// The code at place `i` of the ascending order.
    pub fn name(&self, i: usize) -> (name: &String)
        requires
            i < self@.len(),
        ensures
            name@ == self@[i as int],
    {
        &self.names[i]
    }

    /// Whether `name` is one of the codes.
    pub fn contains(&self, name: &str) -> (found: bool)
        ensures
            found == self@.contains(name@),
    {
        let mut i: usize = 0;
        while i < self.names.len()
            invariant
                i <= self.names.len(),
                forall|j: int| 0 <= j < i ==> self@[j] != name@,
            decreases self.names.len() - i,
        {
            if same_text(self.names[i].as_str(), name) {
                assert(self@[i as int] == name@);
                return true;
            }
            i = i + 1;
        }
        false
    }

    /// Puts `name` in. Tells whether the code is new.
    #[verifier::loop_isolation(false)]
    pub fn insert(&mut self, name: String) -> (added: bool)
        requires
            old(self).wf(),
        ensures
            final(self).wf(),
            final(self)@ == with_name(old(self)@, name@),
            final(self).codes() == old(self).codes().insert(name@),
            added == !old(self)@.contains(name@),
    {
        let ghost before = self@;
        let wanted = chars_of(name.as_str());
        let mut i: usize = 0;
        proof {
            lemma_with_name(before, name@);
            lemma_ascending_unique(before);
        }
        while i < self.names.len()
            invariant
                i <= self.names.len(),
                self@ == before,
                ascending(before),
                wanted@ == name@,
                forall|j: int| 0 <= j < i ==> precedes(#[trigger] before[j], name@),
            decreases self.names.len() - i,
        {
            let here = chars_of(self.names[i].as_str());
            assert(here@ == before[i as int]);
            match standing(&here, &wanted) {
                Standing::Before => {},
                Standing::Same => {
                    assert(before.contains(name@));
                    return false;
                },
                Standing::After => {
                    proof {
                        assert forall|j: int| i <= j < before.len() implies !precedes(
                            #[trigger] before[j],
                            name@,
                        ) by {
                            lemma_precedes_total(before[j], name@);
                            if j > i {
                                assert(precedes(before[i as int], before[j]));
                                lemma_precedes_transitive(name@, before[i as int], before[j]);
                            }
                        }
                        lemma_rank_is(before, name@, i as int);
                        assert(!before.contains(name@)) by {
                            if before.contains(name@) {
                                let k = before.index_of(name@);
                                lemma_precedes_irreflexive(name@);
                            }
                        }
                    }
                    self.names.insert(i, name);
                    assert(self@ =~= before.insert(i as int, name@));
                    return true;
                },
            }
            i = i + 1;
        }
        proof {
            lemma_rank_is(before, name@, i as int);
            assert(!before.contains(name@)) by {
                if before.contains(name@) {
                    let k = before.index_of(name@);
                    lemma_precedes_irreflexive(name@);
                }
            }
        }
        self.names.push(name);
        assert(self@ =~= before.insert(before.len() as int, name@));
        true
    }

    /// Whether the two sets share no code.
    #[verifier::loop_isolation(false)]
    pub fn is_disjoint(&self, other: &PlatformSet) -> (apart: bool)
        ensures
            apart == disjoint(self@, other@),
            apart == self.codes().disjoint(other.codes()),
    {
        proof {
            if disjoint(self@, other@) {
                assert forall|x: Seq<char>| !(self.codes().contains(x) && other.codes().contains(
                    x,
                )) by {
                    if self@.contains(x) && other@.contains(x) {
                        let i = self@.index_of(x);
                        let j = other@.index_of(x);
                        assert(self@[i] == other@[j]);
                    }
                }
            } else {
                let (i, j) = choose|i: int, j: int|
                    0 <= i < self@.len() && 0 <= j < other@.len() && self@[i] == other@[j];
                assert(self@.contains(self@[i]));
                assert(other@.contains(other@[j]));
                assert(self.codes().contains(self@[i]) && other.codes().contains(self@[i]));
            }
        }
        let mut i: usize = 0;
        while i < self.names.len()
            invariant
                i <= self.names.len(),
                forall|a: int, b: int|
                    0 <= a < i && 0 <= b < other@.len() ==> #[trigger] self@[a] != #[trigger] other@[b],
            decreases self.names.len() - i,
        {
            if other.contains(self.names[i].as_str()) {
                proof {
                    let j = other@.index_of(self@[i as int]);
                    assert(self@[i as int] == other@[j]);
                }
                return false;
            }
            assert forall|b: int| 0 <= b < other@.len() implies self@[i as int] != #[trigger] other@[b] by {
                if self@[i as int] == other@[b] {
                    assert(other@.contains(self@[i as int]));
                }
            }
            i = i + 1;
        }
        true
    }

    /// Whether an item published for the platforms `published` passes this
    /// filter. The empty filter lets every item pass.
    pub fn admits(&self, published: &PlatformSet) -> (pass: bool)
        ensures
            pass == passes(self@, published@),
    {
        self.is_empty() || !self.is_disjoint(published)
    }
}

/// Whether two strings are the same text.
pub fn same_text(a: &str, b: &str) -> (same: bool)
    ensures
        same == (a@ == b@),
{
    let x = chars_of(a);
    let y = chars_of(b);
    standing(&x, &y) == Standing::Same
}

} // verus!
