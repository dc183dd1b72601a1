//! The resource store: a cache of cluster objects kept fresh by a
//! stream of watch events. Events are applied one at a time; the
//! snapshot is always sorted ascending by (namespace, name) and holds,
//! for every key, exactly the last value applied that was not a
//! deletion. The network loop that produces the events lives outside;
//! it hands them in as plain values.

use vstd::prelude::*;

use crate::model::{PodData, PodDataView};
use crate::text::{lemma_lex_irrefl, lemma_lex_trans, lemma_lex_trichotomy, lex_lt, str_eq, str_lt};

verus! {

/// One event of the watch stream.
#[derive(Debug)]
pub enum WatchEvent {
    /// A new object appeared.
    Added(PodData),
    /// An object changed; the value is its newest version.
    Modified(PodData),
    /// An object went away.
    Deleted(PodData),
}

/// Mathematical image of a [`WatchEvent`].
pub ghost enum WatchEventView {
    Added(PodDataView),
    Modified(PodDataView),
    Deleted(PodDataView),
}

impl View for WatchEvent {
    type V = WatchEventView;

    open spec fn view(&self) -> WatchEventView {
        match self {
            WatchEvent::Added(p) => WatchEventView::Added(p@),
            WatchEvent::Modified(p) => WatchEventView::Modified(p@),
            WatchEvent::Deleted(p) => WatchEventView::Deleted(p@),
        }
    }
}

impl WatchEventView {
    /// The key the event addresses.
    pub open spec fn key(self) -> (Seq<char>, Seq<char>) {
        match self {
            WatchEventView::Added(p) => p.key(),
            WatchEventView::Modified(p) => p.key(),
            WatchEventView::Deleted(p) => p.key(),
        }
    }
}

/// Strict order on store entries: by namespace, then by name.
pub open spec fn key_lt(a: PodDataView, b: PodDataView) -> bool {
    lex_lt(a.namespace, b.namespace) || (a.namespace == b.namespace && lex_lt(a.name, b.name))
}

/// The sequence is strictly ascending by (namespace, name).
pub open spec fn sorted_strict(s: Seq<PodDataView>) -> bool {
    forall|i: int| 0 <= i < s.len() - 1 ==> key_lt(#[trigger] s[i], s[i + 1])
}

/// Some entry of the sequence carries this key.
pub open spec fn has_key(s: Seq<PodDataView>, k: (Seq<char>, Seq<char>)) -> bool {
    exists|i: int| 0 <= i < s.len() && (#[trigger] s[i]).key() == k
}

/// The entry carrying this key, where one exists and keys are unique.
pub open spec fn value_at(s: Seq<PodDataView>, k: (Seq<char>, Seq<char>)) -> PodDataView {
    s[choose|i: int| 0 <= i < s.len() && (#[trigger] s[i]).key() == k]
}

/// The strict order is transitive.
pub proof fn lemma_key_lt_trans(a: PodDataView, b: PodDataView, c: PodDataView)
    requires
        key_lt(a, b),
        key_lt(b, c),
    ensures
        key_lt(a, c),
{
    if lex_lt(a.namespace, b.namespace) && lex_lt(b.namespace, c.namespace) {
        lemma_lex_trans(a.namespace, b.namespace, c.namespace);
    } else if a.namespace == b.namespace && b.namespace == c.namespace {
        lemma_lex_trans(a.name, b.name, c.name);
    }
}

/// An entry never precedes one with the same key.
pub proof fn lemma_key_lt_irrefl(a: PodDataView, b: PodDataView)
    requires
        a.key() == b.key(),
    ensures
        !key_lt(a, b),
{
    lemma_lex_irrefl(a.namespace);
    lemma_lex_irrefl(a.name);
}

/// In a strictly sorted sequence, an earlier entry precedes a later
/// one.
pub proof fn lemma_sorted_pair(s: Seq<PodDataView>, i: int, j: int)
    requires
        sorted_strict(s),
        0 <= i < j < s.len(),
    ensures
        key_lt(s[i], s[j]),
    decreases j - i,
{
    if j == i + 1 {
    } else {
        lemma_sorted_pair(s, i, j - 1);
        lemma_key_lt_trans(s[i], s[j - 1], s[j]);
    }
}

/// In a strictly sorted sequence, keys are unique: any two entries
/// with the same key sit at the same index.
pub proof fn lemma_sorted_unique(s: Seq<PodDataView>, i: int, j: int)
    requires
        sorted_strict(s),
        0 <= i < s.len(),
        0 <= j < s.len(),
        s[i].key() == s[j].key(),
    ensures
        i == j,
{
    if i < j {
        lemma_sorted_pair(s, i, j);
        lemma_key_lt_irrefl(s[i], s[j]);
    } else if j < i {
        lemma_sorted_pair(s, j, i);
        lemma_key_lt_irrefl(s[j], s[i]);
    }
}

/// In a strictly sorted sequence, the entry at any index with the
/// sought key is the value the lookup yields.
pub proof fn lemma_value_at(s: Seq<PodDataView>, i: int)
    requires
        sorted_strict(s),
        0 <= i < s.len(),
    ensures
        has_key(s, s[i].key()),
        value_at(s, s[i].key()) == s[i],
{
    assert(has_key(s, s[i].key()));
    let j = choose|j: int| 0 <= j < s.len() && (#[trigger] s[j]).key() == s[i].key();
    lemma_sorted_unique(s, i, j);
}

/// What one applied event did to the store's contents: an addition or
/// modification binds the event's key to the event's value and leaves
/// every other key alone; a deletion removes the key and leaves every
/// other key alone.
pub open spec fn applied(
    pre: Seq<PodDataView>,
    ev: WatchEventView,
    post: Seq<PodDataView>,
) -> bool {
    match ev {
        WatchEventView::Added(v) | WatchEventView::Modified(v) => {
            &&& forall|k: (Seq<char>, Seq<char>)|
                has_key(post, k) <==> (#[trigger] has_key(pre, k) || k == v.key())
            &&& has_key(post, v.key())
            &&& value_at(post, v.key()) == v
            &&& forall|k: (Seq<char>, Seq<char>)|
                k != v.key() && #[trigger] has_key(pre, k) ==> value_at(post, k) == value_at(
                    pre,
                    k,
                )
        },
        WatchEventView::Deleted(v) => {
            &&& forall|k: (Seq<char>, Seq<char>)|
                has_key(post, k) <==> (#[trigger] has_key(pre, k) && k != v.key())
            &&& forall|k: (Seq<char>, Seq<char>)|
                k != v.key() && #[trigger] has_key(pre, k) ==> value_at(post, k) == value_at(
                    pre,
                    k,
                )
        },
    }
}

/// The per-type cache of cluster objects.
#[derive(Debug)]
pub struct Store {
    /// The entries, strictly ascending by (namespace, name).
    pub entries: Vec<PodData>,
}

impl Store {
    /// The contents as a sequence of views.
    pub open spec fn contents(self) -> Seq<PodDataView> {
        self.entries@.map_values(|p: PodData| p@)
    }

    /// The store's invariant: entries strictly sorted by key, which
    /// also makes every key unique.
    pub open spec fn wf(self) -> bool {
        sorted_strict(self.contents())
    }

    /// An empty store.
    pub fn new() -> (r: Store)
        ensures
            r.wf(),
            r.contents().len() == 0,
    {
        let entries: Vec<PodData> = Vec::new();
        proof {
            assert(entries@.map_values(|p: PodData| p@) =~= Seq::<PodDataView>::empty());
        }
        Store { entries }
    }

    /// The current snapshot: all entries, sorted ascending by
    /// (namespace, name). Reading never waits on anything.
    pub fn snapshot(&self) -> (r: &Vec<PodData>)
        requires
            self.wf(),
        ensures
            r@.map_values(|p: PodData| p@) == self.contents(),
            sorted_strict(self.contents()),
    {
        &self.entries
    }

    /// Applies one watch event: `Added` and `Modified` upsert the
    /// event's key, `Deleted` removes it.
    pub fn apply(&mut self, ev: WatchEvent)
        requires
            old(self).wf(),
        ensures
            final(self).wf(),
            applied(old(self).contents(), ev@, final(self).contents()),
    {
        match ev {
            WatchEvent::Added(p) => self.upsert(p),
            WatchEvent::Modified(p) => self.upsert(p),
            WatchEvent::Deleted(p) => self.delete(p),
        }
    }

    /// Replaces the whole contents with a freshly listed collection,
    /// as after an expired watch marker: the result is what replaying
    /// the items as additions into an empty store leaves, so a later
    /// item wins over an earlier one with the same key. Until the
    /// call the old snapshot keeps serving; the swap is one
    /// assignment.
    pub fn reseed(&mut self, items: Vec<PodData>)
        ensures
            final(self).wf(),
            replayed(
                Seq::empty(),
                items@.map_values(|p: PodData| WatchEventView::Added(p@)),
                final(self).contents(),
            ),
    {
        let ghost total = items@;
        let ghost evs = items@.map_values(|p: PodData| WatchEventView::Added(p@));
        let mut rest = items;
        let n0 = rest.len();
        self.entries = Vec::new();
        proof {
            assert(self.contents() =~= Seq::<PodDataView>::empty());
            assert(evs.take(0) =~= Seq::<WatchEventView>::empty());
        }
        let mut k: usize = 0;
        while rest.len() > 0
            invariant
                self.wf(),
                evs == total.map_values(|p: PodData| WatchEventView::Added(p@)),
                evs.len() == total.len(),
                n0 == total.len(),
                k + rest@.len() == total.len(),
                rest@ == total.skip(k as int),
                replayed(Seq::empty(), evs.take(k as int), self.contents()),
            decreases rest@.len(),
        {
            let p = rest.remove(0);
            let ghost mid = self.contents();
            proof {
                assert(p == total.skip(k as int)[0]);
                assert(p == total[k as int]);
                assert(rest@ =~= total.skip(k + 1));
            }
            self.upsert(p);
            proof {
                assert(evs.take(k + 1).drop_last() =~= evs.take(k as int));
                assert(evs.take(k + 1).last() == evs[k as int]);
                assert(evs[k as int] == WatchEventView::Added(total[k as int]@));
                assert(applied(mid, evs.take(k + 1).last(), self.contents()));
                assert(replayed(Seq::empty(), evs.take(k + 1), self.contents()));
            }
            k = k + 1;
        }
        proof {
            assert(evs.take(k as int) =~= evs);
        }
    }

    /// Binds the value's key to the value, replacing a previous entry
    /// with the same key, at the key's sorted position.
    fn upsert(&mut self, p: PodData)
        requires
            old(self).wf(),
        ensures
            final(self).wf(),
            applied(old(self).contents(), WatchEventView::Added(p@), final(self).contents()),
    {
        let ghost pre = old(self).contents();
        let mut i: usize = 0;
        while i < self.entries.len() && key_lt_exec(&self.entries[i], &p)
            invariant
                self.entries@ == old(self).entries@,
                pre == self.contents(),
                pre.len() == self.entries@.len(),
                0 <= i <= pre.len(),
                forall|j: int| 0 <= j < i ==> key_lt(#[trigger] pre[j], p@),
            decreases self.entries@.len() - i,
        {
            i = i + 1;
        }
        let replace: bool = i < self.entries.len() && key_eq_exec(&self.entries[i], &p);
        if replace {
            self.entries.remove(i);
            self.entries.insert(i, p);
            proof {
                let post = self.contents();
                assert(post =~= pre.update(i as int, p@));
                assert(pre[i as int].key() == p@.key());
                assert forall|a: int| 0 <= a < post.len() - 1 implies key_lt(
                    #[trigger] post[a],
                    post[a + 1],
                ) by {
                    assert(key_lt(pre[a], pre[a + 1]));
                }
                lemma_upsert_replace(pre, post, i as int, p@);
            }
        } else {
            self.entries.insert(i, p);
            proof {
                let post = self.contents();
                assert(post =~= pre.insert(i as int, p@));
                if i < pre.len() {
                    lemma_key_lt_irrefl(pre[i as int], pre[i as int]);
                    lemma_lex_trichotomy(pre[i as int].namespace, p@.namespace);
                    lemma_lex_trichotomy(pre[i as int].name, p@.name);
                    assert(key_lt(p@, pre[i as int]));
                }
                assert forall|a: int| 0 <= a < post.len() - 1 implies key_lt(
                    #[trigger] post[a],
                    post[a + 1],
                ) by {
                    if a + 1 < i {
                        assert(post[a] == pre[a] && post[a + 1] == pre[a + 1]);
                    } else if a + 1 == i {
                        assert(post[a] == pre[a] && post[a + 1] == p@);
                    } else if a == i {
                        assert(post[a] == p@ && post[a + 1] == pre[a]);
                    } else {
                        assert(post[a] == pre[a - 1] && post[a + 1] == pre[a]);
                    }
                }
                assert forall|j: int| 0 <= j < pre.len() implies (#[trigger] pre[j]).key()
                    != p@.key() by {
                    if j < i {
                        if pre[j].key() == p@.key() {
                            lemma_key_lt_irrefl(pre[j], p@);
                        }
                    } else if j > i {
                        lemma_sorted_pair(pre, i as int, j);
                        lemma_key_lt_trans(p@, pre[i as int], pre[j]);
                        if pre[j].key() == p@.key() {
                            lemma_key_lt_irrefl(p@, pre[j]);
                        }
                    }
                }
                lemma_upsert_insert(pre, post, i as int, p@);
            }
        }
    }

    /// Removes the entry carrying the value's key, if one exists.
    fn delete(&mut self, p: PodData)
        requires
            old(self).wf(),
        ensures
            final(self).wf(),
            applied(old(self).contents(), WatchEventView::Deleted(p@), final(self).contents()),
    {
        let ghost pre = old(self).contents();
        let mut i: usize = 0;
        while i < self.entries.len()
            invariant
                self.entries@ == old(self).entries@,
                pre == self.contents(),
                pre.len() == self.entries@.len(),
                sorted_strict(pre),
                0 <= i <= pre.len(),
                forall|j: int| 0 <= j < i ==> (#[trigger] pre[j]).key() != p@.key(),
            decreases self.entries@.len() - i,
        {
            if key_eq_exec(&self.entries[i], &p) {
                self.entries.remove(i);
                proof {
                    let post = self.contents();
                    assert(post =~= pre.remove(i as int));
                    assert forall|a: int| 0 <= a < post.len() - 1 implies key_lt(
                        #[trigger] post[a],
                        post[a + 1],
                    ) by {
                        if a + 1 < i {
                            assert(post[a] == pre[a] && post[a + 1] == pre[a + 1]);
                        } else if a + 1 == i {
                            assert(post[a] == pre[a] && post[a + 1] == pre[a + 2]);
                            lemma_key_lt_trans(pre[a], pre[a + 1], pre[a + 2]);
                        } else {
                            assert(post[a] == pre[a + 1] && post[a + 1] == pre[a + 2]);
                        }
                    }
                    lemma_delete_found(pre, post, i as int, p@);
                }
                return;
            }
            i = i + 1;
        }
        proof {
            assert forall|k: (Seq<char>, Seq<char>)| #[trigger] has_key(pre, k) implies k
                != p@.key() by {
                let j = choose|j: int| 0 <= j < pre.len() && (#[trigger] pre[j]).key() == k;
            }
        }
    }
}

/// Decides the strict (namespace, name) order on two entries.
fn key_lt_exec(a: &PodData, b: &PodData) -> (r: bool)
    ensures
        r == key_lt(a@, b@),
{
    if str_lt(a.namespace.as_str(), b.namespace.as_str()) {
        true
    } else if str_eq(a.namespace.as_str(), b.namespace.as_str()) {
        str_lt(a.name.as_str(), b.name.as_str())
    } else {
        false
    }
}

/// Decides whether two entries carry the same key.
fn key_eq_exec(a: &PodData, b: &PodData) -> (r: bool)
    ensures
        r == (a@.key() == b@.key()),
{
    let same = str_eq(a.namespace.as_str(), b.namespace.as_str()) && str_eq(
        a.name.as_str(),
        b.name.as_str(),
    );
    proof {
        if a@.namespace == b@.namespace && a@.name == b@.name {
            assert(a@.key() == b@.key());
        }
        if a@.key() == b@.key() {
            assert(a@.namespace == b@.namespace && a@.name == b@.name);
        }
    }
    same
}

proof fn lemma_upsert_replace(
    pre: Seq<PodDataView>,
    post: Seq<PodDataView>,
    i: int,
    v: PodDataView,
)
    requires
        sorted_strict(pre),
        sorted_strict(post),
        0 <= i < pre.len(),
        pre[i].key() == v.key(),
        post == pre.update(i, v),
    ensures
        applied(pre, WatchEventView::Added(v), post),
{
    assert forall|k: (Seq<char>, Seq<char>)| has_key(post, k) <==> (#[trigger] has_key(pre, k)
        || k == v.key()) by {
        if has_key(post, k) {
            let j = choose|j: int| 0 <= j < post.len() && (#[trigger] post[j]).key() == k;
            if j != i {
                assert(pre[j].key() == k);
            }
        }
        if has_key(pre, k) {
            let j = choose|j: int| 0 <= j < pre.len() && (#[trigger] pre[j]).key() == k;
            if j != i {
                assert(post[j].key() == k);
            } else {
                assert(post[i].key() == v.key());
            }
        }
        if k == v.key() {
            assert(post[i].key() == k);
        }
    }
    assert(post[i] == v);
    lemma_value_at(post, i);
    assert forall|k: (Seq<char>, Seq<char>)| k != v.key() && #[trigger] has_key(pre, k)
        implies value_at(post, k) == value_at(pre, k) by {
        let j = choose|j: int| 0 <= j < pre.len() && (#[trigger] pre[j]).key() == k;
        assert(j != i);
        assert(post[j] == pre[j]);
        lemma_value_at(pre, j);
        lemma_value_at(post, j);
    }
}

proof fn lemma_upsert_insert(
    pre: Seq<PodDataView>,
    post: Seq<PodDataView>,
    i: int,
    v: PodDataView,
)
    requires
        sorted_strict(pre),
        sorted_strict(post),
        0 <= i <= pre.len(),
        post == pre.insert(i, v),
        forall|j: int| 0 <= j < pre.len() ==> (#[trigger] pre[j]).key() != v.key(),
    ensures
        applied(pre, WatchEventView::Added(v), post),
{
    assert forall|k: (Seq<char>, Seq<char>)| has_key(post, k) <==> (#[trigger] has_key(pre, k)
        || k == v.key()) by {
        if has_key(post, k) {
            let j = choose|j: int| 0 <= j < post.len() && (#[trigger] post[j]).key() == k;
            if j < i {
                assert(pre[j].key() == k);
            } else if j > i {
                assert(pre[j - 1].key() == k);
            }
        }
        if has_key(pre, k) {
            let j = choose|j: int| 0 <= j < pre.len() && (#[trigger] pre[j]).key() == k;
            if j < i {
                assert(post[j].key() == k);
            } else {
                assert(post[j + 1].key() == k);
            }
        }
        if k == v.key() {
            assert(post[i].key() == k);
        }
    }
    assert(post[i] == v);
    lemma_value_at(post, i);
    assert forall|k: (Seq<char>, Seq<char>)| k != v.key() && #[trigger] has_key(pre, k)
        implies value_at(post, k) == value_at(pre, k) by {
        let j = choose|j: int| 0 <= j < pre.len() && (#[trigger] pre[j]).key() == k;
        lemma_value_at(pre, j);
        if j < i {
            assert(post[j] == pre[j]);
            lemma_value_at(post, j);
        } else {
            assert(post[j + 1] == pre[j]);
            lemma_value_at(post, j + 1);
        }
    }
}

proof fn lemma_delete_found(
    pre: Seq<PodDataView>,
    post: Seq<PodDataView>,
    i: int,
    v: PodDataView,
)
    requires
        sorted_strict(pre),
        sorted_strict(post),
        0 <= i < pre.len(),
        pre[i].key() == v.key(),
        post == pre.remove(i),
    ensures
        applied(pre, WatchEventView::Deleted(v), post),
{
    assert forall|k: (Seq<char>, Seq<char>)| has_key(post, k) <==> (#[trigger] has_key(pre, k)
        && k != v.key()) by {
        if has_key(post, k) {
            let j = choose|j: int| 0 <= j < post.len() && (#[trigger] post[j]).key() == k;
            if j < i {
                assert(pre[j].key() == k);
                if k == v.key() {
                    lemma_sorted_unique(pre, j, i);
                }
            } else {
                assert(pre[j + 1].key() == k);
                if k == v.key() {
                    lemma_sorted_unique(pre, j + 1, i);
                }
            }
        }
        if has_key(pre, k) && k != v.key() {
            let j = choose|j: int| 0 <= j < pre.len() && (#[trigger] pre[j]).key() == k;
            assert(j != i);
            if j < i {
                assert(post[j].key() == k);
            } else {
                assert(post[j - 1].key() == k);
            }
        }
    }
    assert forall|k: (Seq<char>, Seq<char>)| k != v.key() && #[trigger] has_key(pre, k)
        implies value_at(post, k) == value_at(pre, k) by {
        let j = choose|j: int| 0 <= j < pre.len() && (#[trigger] pre[j]).key() == k;
        assert(j != i);
        lemma_value_at(pre, j);
        if j < i {
            assert(post[j] == pre[j]);
            lemma_value_at(post, j);
        } else {
            assert(post[j - 1] == pre[j]);
            lemma_value_at(post, j - 1);
        }
    }
}

/// The store's contents after a run of applied events, chained
/// through the intermediate contents.
pub open spec fn replayed(
    pre: Seq<PodDataView>,
    events: Seq<WatchEventView>,
    post: Seq<PodDataView>,
) -> bool
    decreases events.len(),
{
    if events.len() == 0 {
        post == pre
    } else {
        exists|mid: Seq<PodDataView>|
            replayed(pre, events.drop_last(), mid) && #[trigger] applied(
                mid,
                events.last(),
                post,
            )
    }
}

/// The last event of the run that addressed this key, if any.
pub open spec fn last_event_for(
    events: Seq<WatchEventView>,
    k: (Seq<char>, Seq<char>),
) -> Option<WatchEventView>
    decreases events.len(),
{
    if events.len() == 0 {
        Option::None
    } else if events.last().key() == k {
        Option::Some(events.last())
    } else {
        last_event_for(events.drop_last(), k)
    }
}

/// Replaying any interleaving of watch events leaves, for every key,
/// exactly the last value applied for that key where that event was
/// an addition or a modification; omits every key whose last event
/// was a deletion; and leaves keys no event addressed as they were.
pub proof fn lemma_replay(
    pre: Seq<PodDataView>,
    events: Seq<WatchEventView>,
    post: Seq<PodDataView>,
    k: (Seq<char>, Seq<char>),
)
    requires
        replayed(pre, events, post),
    ensures
        match last_event_for(events, k) {
            Option::Some(WatchEventView::Added(v)) => has_key(post, k) && value_at(post, k)
                == v,
            Option::Some(WatchEventView::Modified(v)) => has_key(post, k) && value_at(post, k)
                == v,
            Option::Some(WatchEventView::Deleted(v)) => !has_key(post, k),
            Option::None => has_key(post, k) == has_key(pre, k) && (has_key(pre, k)
                ==> value_at(post, k) == value_at(pre, k)),
        },
    decreases events.len(),
{
    if events.len() == 0 {
    } else {
        let mid = choose|mid: Seq<PodDataView>|
            replayed(pre, events.drop_last(), mid) && #[trigger] applied(
                mid,
                events.last(),
                post,
            );
        lemma_replay(pre, events.drop_last(), mid, k);
        let ev = events.last();
        if ev.key() == k {
            match ev {
                WatchEventView::Added(v) => {
                    assert(has_key(post, k) && value_at(post, k) == v);
                },
                WatchEventView::Modified(v) => {
                    assert(has_key(post, k) && value_at(post, k) == v);
                },
                WatchEventView::Deleted(v) => {
                    assert(!has_key(post, k));
                },
            }
        } else {
            match ev {
                WatchEventView::Added(v) => {
                    assert(k != v.key());
                },
                WatchEventView::Modified(v) => {
                    assert(k != v.key());
                },
                WatchEventView::Deleted(v) => {
                    assert(k != v.key());
                },
            }
        }
    }
}


/// The base retry delay of the watch loop, in milliseconds.
pub const BACKOFF_BASE_MS: u64 = 500;

/// The largest retry delay of the watch loop, in milliseconds.
pub const BACKOFF_MAX_MS: u64 = 30000;

/// What the watch stream reported instead of an event.
#[derive(Clone, Copy, Debug, PartialEq, Eq, Structural)]
pub enum StreamSignal {
    /// The server no longer honors the stream's version marker.
    Expired,
    /// The transport failed.
    Failed,
}

/// What the watch loop is to do next. Errors never surface to the
/// snapshot's readers; the loop recovers locally.
#[derive(Clone, Copy, Debug, PartialEq, Eq, Structural)]
pub enum Recovery {
    /// Fetch a full fresh list and reseed the store with it.
    Relist,
    /// Wait this many milliseconds, then reattach the stream.
    RetryAfter(u64),
}

/// The retry delay of the watch loop: doubled on every failure up to
/// a fixed bound, reset once the stream works again.
#[derive(Clone, Copy, Debug, PartialEq, Eq, Structural)]
pub struct Backoff {
    pub delay_ms: u64,
}

impl Backoff {
    /// The delay stays within its bounds.
    pub open spec fn wf(self) -> bool {
        BACKOFF_BASE_MS <= self.delay_ms <= BACKOFF_MAX_MS
    }

    /// A fresh backoff at the base delay.
    pub fn new() -> (r: Backoff)
        ensures
            r.wf(),
            r.delay_ms == BACKOFF_BASE_MS,
    {
        Backoff { delay_ms: BACKOFF_BASE_MS }
    }

    /// Called when the stream delivered an item: the next failure
    /// starts over at the base delay.
    pub fn on_progress(&mut self)
        ensures
            final(self).wf(),
            final(self).delay_ms == BACKOFF_BASE_MS,
    {
        self.delay_ms = BACKOFF_BASE_MS;
    }

    /// Decides how the watch loop recovers from a stream signal: an
    /// expired marker is answered with an immediate relist (and a
    /// fresh backoff); a transport failure with a bounded, doubling
    /// retry delay.
    pub fn recover(&mut self, sig: StreamSignal) -> (r: Recovery)
        requires
            old(self).wf(),
        ensures
            final(self).wf(),
            match sig {
                StreamSignal::Expired => r == Recovery::Relist && final(self).delay_ms
                    == BACKOFF_BASE_MS,
                StreamSignal::Failed => r == Recovery::RetryAfter(old(self).delay_ms)
                    && final(self).delay_ms == if 2 * old(self).delay_ms <= BACKOFF_MAX_MS {
                    2 * old(self).delay_ms
                } else {
                    BACKOFF_MAX_MS as int
                },
            },
    {
        match sig {
            StreamSignal::Expired => {
                self.delay_ms = BACKOFF_BASE_MS;
                Recovery::Relist
            },
            StreamSignal::Failed => {
                let cur = self.delay_ms;
                self.delay_ms = if cur <= BACKOFF_MAX_MS / 2 {
                    cur * 2
                } else {
                    BACKOFF_MAX_MS
                };
                Recovery::RetryAfter(cur)
            },
        }
    }
}

} // verus!
