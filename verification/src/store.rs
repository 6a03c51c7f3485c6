//! The log store: append, point lookup and forward scan over an ordered record of items.

use vstd::prelude::*;
use crate::error::Error;
use crate::item::{Item, ItemView, NewItem, NewItemView};
use crate::query::{Query, QueryView};

verus! {

/// The mathematical values of a sequence of items, in order.
pub open spec fn views(items: Seq<Item>) -> Seq<ItemView> {
    items.map_values(|item: Item| item@)
}

/// Whether `s` can be the content of a log: every id is positive, and ids grow strictly
/// from each item to the next.
pub open spec fn is_log(s: Seq<ItemView>) -> bool {
    &&& forall|i: int| 0 <= i < s.len() ==> (#[trigger] s[i]).id >= 1
    &&& forall|i: int, j: int| 0 <= i < j < s.len() ==> (#[trigger] s[i]).id < (#[trigger] s[j]).id
}

/// The highest id that `s` holds; zero for the empty log.
pub open spec fn last_id(s: Seq<ItemView>) -> int {
    if s.len() == 0 {
        0
    } else {
        s.last().id
    }
}

/// The items of `s` that `q` selects, in the order of `s`.
pub open spec fn hits(s: Seq<ItemView>, q: QueryView) -> Seq<ItemView> {
    s.filter(|item: ItemView| q.selects(item))
}

/// What a scan of `s` with `q` returns: the selected items in log order, cut off at the
/// limit where there is one.
pub open spec fn scan(s: Seq<ItemView>, q: QueryView) -> Seq<ItemView> {
    let found = hits(s, q);
    match q.limit {
        Some(n) => if n < found.len() {
            found.take(n as int)
        } else {
            found
        },
        None => found,
    }
}

/// The first item of `s` that `q` selects.
pub open spec fn first_hit(s: Seq<ItemView>, q: QueryView) -> Option<ItemView> {
    let found = hits(s, q);
    if found.len() > 0 {
        Some(found[0])
    } else {
        None
    }
}

/// Reading one more item of the log adds it to the hits exactly if the query selects it.
pub proof fn lemma_hits_step(s: Seq<ItemView>, q: QueryView, i: int)
    requires
        0 <= i < s.len(),
    ensures
        hits(s.take(i + 1), q) == if q.selects(s[i]) {
            hits(s.take(i), q).push(s[i])
        } else {
            hits(s.take(i), q)
        },
{
    reveal(Seq::filter);
    assert(s.take(i + 1).drop_last() =~= s.take(i));
}

/// A prefix of the log in which the query selects nothing has no hits.
pub proof fn lemma_no_hits(s: Seq<ItemView>, q: QueryView)
    requires
        forall|j: int| 0 <= j < s.len() ==> !q.selects(#[trigger] s[j]),
    ensures
        hits(s, q).len() == 0,
    decreases s.len(),
{
    reveal(Seq::filter);
    if s.len() > 0 {
        lemma_no_hits(s.drop_last(), q);
    }
}

/// The hits of a log are those of a prefix followed by those of the rest.
pub proof fn lemma_hits_split(s: Seq<ItemView>, q: QueryView, k: int)
    requires
        0 <= k <= s.len(),
    ensures
        hits(s, q) == hits(s.take(k), q) + hits(s.skip(k), q),
{
    assert(s =~= s.take(k) + s.skip(k));
    Seq::filter_distributes_over_add(s.take(k), s.skip(k), |item: ItemView| q.selects(item));
}

/// The first hit is the selected item that stands first in the log.
pub proof fn lemma_first_hit_at(s: Seq<ItemView>, q: QueryView, k: int)
    requires
        0 <= k < s.len(),
        q.selects(s[k]),
        forall|j: int| 0 <= j < k ==> !q.selects(#[trigger] s[j]),
    ensures
        first_hit(s, q) == Some(s[k]),
{
    let p = |item: ItemView| q.selects(item);
    lemma_hits_split(s, q, k);
    lemma_no_hits(s.take(k), q);
    let rest = s.skip(k);
    assert(rest =~= seq![s[k]] + rest.skip(1));
    Seq::filter_distributes_over_add(seq![s[k]], rest.skip(1), p);
    assert(seq![s[k]].filter(p) =~= seq![s[k]]) by {
        reveal_with_fuel(Seq::filter, 2);
        assert(seq![s[k]].drop_last() =~= Seq::<ItemView>::empty());
    }
    assert(hits(s, q)[0] == s[k]);
}

/// The position of the first item of `s` that `q` selects; the length of `s` where it
/// selects none.
pub open spec fn first_position(s: Seq<ItemView>, q: QueryView) -> int
    decreases s.len(),
{
    if s.len() == 0 {
        0
    } else if q.selects(s[0]) {
        0
    } else {
        1 + first_position(s.skip(1), q)
    }
}

/// `first_position` is in range, selects nothing before it, and stands on a selected item
/// unless it is the length.
pub proof fn lemma_first_position(s: Seq<ItemView>, q: QueryView)
    ensures
        0 <= first_position(s, q) <= s.len(),
        forall|j: int| 0 <= j < first_position(s, q) ==> !q.selects(#[trigger] s[j]),
        first_position(s, q) < s.len() ==> q.selects(s[first_position(s, q)]),
    decreases s.len(),
{
    if s.len() > 0 && !q.selects(s[0]) {
        let rest = s.skip(1);
        lemma_first_position(rest, q);
        assert forall|j: int| 0 <= j < first_position(s, q) implies !q.selects(#[trigger] s[j]) by {
            if j > 0 {
                assert(s[j] == rest[j - 1]);
            }
        }
        if first_position(s, q) < s.len() {
            assert(s[first_position(s, q)] == rest[first_position(rest, q)]);
        }
    }
}

/// What a scan without a limit returns is exactly what the query selects in the log:
/// nothing else comes back, and nothing selected is left out.
pub proof fn lemma_scan_is_exact(s: Seq<ItemView>, q: QueryView, item: ItemView)
    requires
        q.limit is None,
    ensures
        scan(s, q).contains(item) <==> s.contains(item) && q.selects(item),
{
    let p = |x: ItemView| q.selects(x);
    if scan(s, q).contains(item) {
        s.lemma_filter_contains_rev(p, item);
        let i = choose|i: int| 0 <= i < s.filter(p).len() && s.filter(p)[i] == item;
        s.lemma_filter_pred(p, i);
    }
    if s.contains(item) && q.selects(item) {
        let i = choose|i: int| 0 <= i < s.len() && s[i] == item;
        s.lemma_filter_contains(p, i);
    }
}

/// A scan by source id returns exactly the items above the cursor that answer that id,
/// and none that answers another id or none.
pub proof fn lemma_scan_by_source(s: Seq<ItemView>, source: int, min_id: int)
    ensures
        ({
            let q = QueryView {
                topic: None,
                attribute: None,
                source_id: Some(source),
                min_id,
                limit: None,
            };
            &&& forall|item: ItemView| #[trigger]
                scan(s, q).contains(item) <==> s.contains(item) && item.id > min_id
                    && item.source_id == Some(source)
            &&& forall|i: int|
                0 <= i < scan(s, q).len() ==> (#[trigger] scan(s, q)[i]).source_id == Some(source)
        }),
{
    let q = QueryView { topic: None, attribute: None, source_id: Some(source), min_id, limit: None };
    assert forall|item: ItemView| #[trigger]
        scan(s, q).contains(item) <==> s.contains(item) && item.id > min_id && item.source_id
            == Some(source) by {
        lemma_scan_is_exact(s, q, item);
    }
    assert forall|i: int| 0 <= i < scan(s, q).len() implies (#[trigger] scan(s, q)[i]).source_id
        == Some(source) by {
        assert(scan(s, q).contains(scan(s, q)[i]));
    }
}

/// The hits of a log keep the order of the log: they are a log themselves, with ids that
/// grow strictly and so never repeat.
pub proof fn lemma_hits_are_ordered(s: Seq<ItemView>, q: QueryView)
    requires
        is_log(s),
    ensures
        is_log(hits(s, q)),
        hits(s, q).len() > 0 ==> hits(s, q).last().id <= s.last().id,
    decreases s.len(),
{
    reveal(Seq::filter);
    if s.len() > 0 {
        let front = s.drop_last();
        assert(is_log(front)) by {
            assert forall|i: int, j: int| 0 <= i < j < front.len() implies (#[trigger] front[i]).id
                < (#[trigger] front[j]).id by {
                assert(s[i].id < s[j].id);
            }
            assert forall|i: int| 0 <= i < front.len() implies (#[trigger] front[i]).id >= 1 by {
                assert(s[i].id >= 1);
            }
        }
        lemma_hits_are_ordered(front, q);
        let found = hits(front, q);
        if found.len() > 0 {
            if front.len() > 1 {
                assert(s[front.len() - 1].id < s[s.len() - 1].id);
            }
            assert(found.last().id < s.last().id);
        }
        if q.selects(s.last()) {
            let all = found.push(s.last());
            assert(s.last().id >= 1);
            assert forall|i: int, j: int| 0 <= i < j < all.len() implies (#[trigger] all[i]).id
                < (#[trigger] all[j]).id by {
                if j == found.len() {
                    if i < found.len() - 1 {
                        assert(found[i].id < found[found.len() - 1].id);
                    }
                } else {
                    assert(found[i].id < found[j].id);
                }
            }
        }
    }
}

/// What a scan returns is ordered by id, lowest first, without repetition.
pub proof fn lemma_scan_is_ordered(s: Seq<ItemView>, q: QueryView)
    requires
        is_log(s),
    ensures
        is_log(scan(s, q)),
{
    lemma_hits_are_ordered(s, q);
    let found = hits(s, q);
    let out = scan(s, q);
    assert forall|i: int, j: int| 0 <= i < j < out.len() implies (#[trigger] out[i]).id
        < (#[trigger] out[j]).id by {
        assert(found[i].id < found[j].id);
    }
    assert forall|i: int| 0 <= i < out.len() implies (#[trigger] out[i]).id >= 1 by {
        assert(found[i].id >= 1);
    }
}

/// A reader that waits at cursor `q.min_id` is never handed an item at or below the
/// cursor, and is handed the selected item with the lowest id as soon as one is in the log.
pub proof fn lemma_first_hit_is_lowest(s: Seq<ItemView>, q: QueryView)
    requires
        is_log(s),
    ensures
        match first_hit(s, q) {
            Some(item) => {
                &&& s.contains(item)
                &&& q.selects(item)
                &&& item.id > q.min_id
                &&& forall|other: ItemView| #[trigger]
                    s.contains(other) && q.selects(other) ==> item.id <= other.id
            },
            None => forall|other: ItemView| #[trigger] s.contains(other) ==> !q.selects(other),
        },
{
    lemma_first_position(s, q);
    let k = first_position(s, q);
    if k < s.len() {
        lemma_first_hit_at(s, q, k);
        assert(s.contains(s[k]));
        assert forall|other: ItemView| #[trigger]
            s.contains(other) && q.selects(other) implies s[k].id <= other.id by {
            let j = choose|j: int| 0 <= j < s.len() && s[j] == other;
            if j < k {
                assert(!q.selects(s[j]));
            } else if j > k {
                assert(s[k].id < s[j].id);
            }
        }
    } else {
        lemma_no_hits(s, q);
    }
}

/// A scan cut off after one item returns the first hit and nothing else.
pub proof fn lemma_scan_one(s: Seq<ItemView>, q: QueryView)
    ensures
        scan(s, q.first_n(1)) == match first_hit(s, q) {
            Some(item) => seq![item],
            None => Seq::<ItemView>::empty(),
        },
{
    let one = q.first_n(1);
    assert(hits(s, one) == hits(s, q)) by {
        assert((|item: ItemView| one.selects(item)) =~= (|item: ItemView| q.selects(item)));
    }
    let found = hits(s, q);
    if found.len() > 0 {
        assert(scan(s, one) =~= seq![found[0]]);
    } else {
        assert(scan(s, one) =~= Seq::<ItemView>::empty());
    }
}

/// One write as the store commits it.
pub struct Commit {
    /// The writer that asked for it. The store does not look at it: every writer is
    /// served alike.
    pub writer: nat,
    /// What is to be appended.
    pub item: NewItemView,
    /// The time the item is stamped with.
    pub stamp: nat,
}

/// The log after the store has committed `writes` to `log`, one after the other. Writers
/// that run side by side are serialised by the store: `writes` is their commit order.
pub open spec fn committed(log: Seq<ItemView>, writes: Seq<Commit>) -> Seq<ItemView>
    decreases writes.len(),
{
    if writes.len() == 0 {
        log
    } else {
        let before = committed(log, writes.drop_last());
        before.push(writes.last().item.stored(last_id(before) + 1, writes.last().stamp))
    }
}

/// However many writes of however many writers are committed, the ids handed out
/// continue the log without a gap and in commit order: the k-th write gets the k-th id
/// after the highest one. The result is a log again, so ids grow strictly and none occurs
/// twice, and what was there before is unchanged.
pub proof fn lemma_commits_are_gapless(log: Seq<ItemView>, writes: Seq<Commit>)
    requires
        is_log(log),
    ensures
        is_log(committed(log, writes)),
        committed(log, writes).len() == log.len() + writes.len(),
        committed(log, writes).take(log.len() as int) == log,
        last_id(committed(log, writes)) == last_id(log) + writes.len(),
        forall|k: int|
            0 <= k < writes.len() ==> #[trigger] committed(log, writes)[log.len() + k]
                == writes[k].item.stored(last_id(log) + 1 + k, writes[k].stamp),
    decreases writes.len(),
{
    let after = committed(log, writes);
    if writes.len() == 0 {
        assert(after.take(log.len() as int) =~= log);
    } else {
        let earlier = writes.drop_last();
        let before = committed(log, earlier);
        lemma_commits_are_gapless(log, earlier);
        let id = last_id(before) + 1;
        assert(after.take(log.len() as int) =~= before.take(log.len() as int));
        assert forall|k: int| 0 <= k < writes.len() implies #[trigger] after[log.len() + k]
            == writes[k].item.stored(last_id(log) + 1 + k, writes[k].stamp) by {
            if k < earlier.len() {
                assert(after[log.len() + k] == before[log.len() + k]);
                assert(earlier[k] == writes[k]);
            }
        }
        assert forall|i: int, j: int| 0 <= i < j < after.len() implies (#[trigger] after[i]).id
            < (#[trigger] after[j]).id by {
            if j == before.len() {
                if i < before.len() - 1 {
                    assert(before[i].id < before[before.len() - 1].id);
                }
            } else {
                assert(before[i].id < before[j].id);
            }
        }
        assert forall|i: int| 0 <= i < after.len() implies (#[trigger] after[i]).id >= 1 by {
            if i < before.len() {
                assert(before[i].id >= 1);
            }
        }
    }
}

/// An append-only record of items, ordered by id.
pub struct Log {
    items: Vec<Item>,
}

impl View for Log {
    type V = Seq<ItemView>;

    closed spec fn view(&self) -> Seq<ItemView> {
        views(self.items@)
    }
}

/// Whether the limit of a scan is reached with `n` items found.
fn reached(limit: Option<usize>, n: usize) -> (full: bool)
    ensures
        full == (limit is Some && n >= limit->0),
{
    match limit {
        Some(max) => n >= max,
        None => false,
    }
}

impl Log {
    #[verifier::type_invariant]
    spec fn ordered(&self) -> bool {
        is_log(views(self.items@))
    }

    /// The empty log.
    pub fn new() -> (log: Log)
        ensures
            log@ == Seq::<ItemView>::empty(),
            is_log(log@),
    {
        let log = Log { items: Vec::new() };
        assert(log@ =~= Seq::<ItemView>::empty());
        log
    }

    /// The number of items in the log.
    pub fn len(&self) -> (n: usize)
        ensures
            n == self@.len(),
            is_log(self@),
    {
        proof {
            use_type_invariant(self);
        }
        self.items.len()
    }

    /// The highest id in the log; zero while it is empty.
    pub fn last_id(&self) -> (id: i64)
        ensures
            id == last_id(self@),
            id >= 0,
            is_log(self@),
    {
        proof {
            use_type_invariant(self);
        }
        let n = self.items.len();
        if n == 0 {
            0
        } else {
            assert(self@[n - 1].id >= 1);
            self.items[n - 1].id
        }
    }

    /// Appends one item under the next id and returns that id. The log is full once the
    /// highest id is `i64::MAX`: then nothing is appended and the store reports failure.
    pub fn append(&mut self, new: NewItem, stamp: u128) -> (r: Result<i64, Error>)
        ensures
            is_log(final(self)@),
            match r {
                Ok(id) => {
                    &&& id == last_id(old(self)@) + 1
                    &&& final(self)@ == old(self)@.push(new@.stored(id as int, stamp as nat))
                },
                Err(e) => {
                    &&& e == Error::Store
                    &&& last_id(old(self)@) == i64::MAX
                    &&& final(self)@ == old(self)@
                },
            },
    {
        proof {
            use_type_invariant(&*self);
        }
        let last = self.last_id();
        if last == i64::MAX {
            return Err(Error::Store);
        }
        let id = last + 1;
        let item = Item {
            id,
            topic: new.topic,
            attribute: new.attribute,
            stamp,
            source_id: new.source_id,
            parent_id: new.parent_id,
            payload: new.payload,
            secondary: new.secondary,
            status: new.status,
        };
        // The items are taken out while they grow, so that the log is ordered at every step.
        let mut items: Vec<Item> = Vec::new();
        std::mem::swap(&mut self.items, &mut items);
        let ghost before = items@;
        proof {
            assert(views(Seq::<Item>::empty()) =~= Seq::<ItemView>::empty());
            let after = views(before.push(item));
            assert(after =~= views(before).push(item@));
            assert(is_log(after)) by {
                assert forall|i: int, j: int| 0 <= i < j < after.len() implies (#[trigger] after[i]).id
                    < (#[trigger] after[j]).id by {
                    if j == before.len() {
                        if i < before.len() - 1 {
                            assert(views(before)[i].id < views(before)[before.len() - 1].id);
                        }
                    } else {
                        assert(views(before)[i].id < views(before)[j].id);
                    }
                }
            }
        }
        items.push(item);
        self.items = items;
        Ok(id)
    }

    /// The item stored under `id`.
    pub fn get(&self, id: i64) -> (r: Result<&Item, Error>)
        ensures
            is_log(self@),
            match r {
                Ok(item) => item@.id == id && self@.contains(item@),
                Err(e) => e == Error::NotFound && forall|i: int|
                    0 <= i < self@.len() ==> (#[trigger] self@[i]).id != id,
            },
    {
        proof {
            use_type_invariant(self);
        }
        let mut i: usize = 0;
        while i < self.items.len()
            invariant
                i <= self.items.len(),
                is_log(self@),
                forall|j: int| 0 <= j < i ==> (#[trigger] self@[j]).id != id,
            decreases self.items.len() - i,
        {
            if self.items[i].id == id {
                assert(self@[i as int] == self.items[i as int]@);
                return Ok(&self.items[i]);
            }
            i = i + 1;
        }
        Err(Error::NotFound)
    }

    /// The first item, in log order, that `q` selects: the one with the lowest id.
    pub fn first(&self, q: &Query) -> (r: Option<&Item>)
        ensures
            is_log(self@),
            match r {
                Some(item) => first_hit(self@, q@) == Some(item@),
                None => first_hit(self@, q@) is None,
            },
    {
        proof {
            use_type_invariant(self);
        }
        let mut i: usize = 0;
        while i < self.items.len()
            invariant
                i <= self.items.len(),
                is_log(self@),
                forall|j: int| 0 <= j < i ==> !q@.selects(#[trigger] self@[j]),
            decreases self.items.len() - i,
        {
            if q.selects(&self.items[i]) {
                proof {
                    assert(self@[i as int] == self.items[i as int]@);
                    lemma_first_hit_at(self@, q@, i as int);
                }
                return Some(&self.items[i]);
            }
            i = i + 1;
        }
        proof {
            lemma_no_hits(self@, q@);
        }
        None
    }

    /// The items that `q` selects, lowest ids first, cut off at the limit of `q`.
    pub fn scan(&self, q: &Query) -> (found: Vec<Item>)
        ensures
            is_log(self@),
            views(found@) == scan(self@, q@),
    {
        proof {
            use_type_invariant(self);
        }
        let mut found: Vec<Item> = Vec::new();
        let mut i: usize = 0;
        assert(self@.take(0) =~= Seq::<ItemView>::empty());
        assert(views(found@) =~= hits(self@.take(0), q@)) by {
            lemma_no_hits(self@.take(0), q@);
        }
        while i < self.items.len() && !reached(q.limit, found.len())
            invariant
                i <= self.items.len(),
                views(found@) == hits(self@.take(i as int), q@),
                q.limit is Some ==> found.len() <= q.limit->0,
            decreases self.items.len() - i,
        {
            proof {
                assert(self@[i as int] == self.items[i as int]@);
                lemma_hits_step(self@, q@, i as int);
            }
            if q.selects(&self.items[i]) {
                let ghost before = found@;
                let item = self.items[i].clone();
                found.push(item);
                assert(views(found@) =~= views(before).push(item@));
            }
            i = i + 1;
        }
        proof {
            lemma_hits_split(self@, q@, i as int);
            if i == self.items.len() {
                assert(self@.take(i as int) =~= self@);
            } else {
                let all = hits(self@, q@);
                let n = q.limit->0 as int;
                assert(all.take(n) =~= views(found@));
                if !(n < all.len()) {
                    assert(all =~= views(found@));
                }
            }
        }
        found
    }

    /// The log that holds exactly `items`, where they can be the content of a log;
    /// otherwise the store is reported as faulty.
    pub fn from_items(items: Vec<Item>) -> (r: Result<Log, Error>)
        ensures
            match r {
                Ok(log) => log@ == views(items@) && is_log(log@),
                Err(e) => e == Error::Store && !is_log(views(items@)),
            },
    {
        let mut i: usize = 0;
        while i < items.len()
            invariant
                i <= items.len(),
                is_log(views(items@).take(i as int)),
            decreases items.len() - i,
        {
            let ghost all = views(items@);
            if items[i].id < 1 {
                assert(all[i as int].id < 1);
                return Err(Error::Store);
            }
            if i > 0 && items[i - 1].id >= items[i].id {
                assert(all[i - 1].id >= all[i as int].id);
                return Err(Error::Store);
            }
            proof {
                let next = all.take(i + 1);
                let seen = all.take(i as int);
                assert forall|a: int, b: int| 0 <= a < b < next.len() implies (#[trigger] next[a]).id
                    < (#[trigger] next[b]).id by {
                    if b == i {
                        if a < i - 1 {
                            assert(seen[a].id < seen[i - 1].id);
                        }
                    } else {
                        assert(seen[a].id < seen[b].id);
                    }
                }
                assert forall|a: int| 0 <= a < next.len() implies (#[trigger] next[a]).id >= 1 by {
                    if a < i {
                        assert(seen[a].id >= 1);
                    }
                }
            }
            i = i + 1;
        }
        assert(views(items@).take(i as int) =~= views(items@));
        Ok(Log { items })
    }

    /// The items of the log, in order.
    pub fn items(&self) -> (all: &Vec<Item>)
        ensures
            is_log(self@),
            views(all@) == self@,
    {
        proof {
            use_type_invariant(self);
        }
        &self.items
    }
}

} // verus!
