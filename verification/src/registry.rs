use vstd::prelude::*;
use crate::rows::{views_of, copy_rows};

verus! {

/// Capacity of each subscriber's delivery queue. A subscriber whose queue is
/// full when a row is published is disconnected (disconnect-on-full), which
/// preserves per-subscriber order and never blocks ingestion.
pub const QUEUE_CAPACITY: usize = 1000;

/// One registered subscriber: its process-lifetime-unique id and its bounded
/// delivery queue.
struct Entry {
    id: u64,
    queue: Vec<String>,
}

/// Tracks connected subscribers and their delivery queues. The registry is a
/// mapping from id to queue: keys unique, order irrelevant.
pub struct Registry {
    next: u64,
    subs: Vec<Entry>,
}

spec fn map_of(s: Seq<Entry>) -> Map<u64, Seq<Seq<char>>>
    decreases s.len(),
{
    if s.len() == 0 {
        Map::empty()
    } else {
        map_of(s.drop_last()).insert(s.last().id, views_of(s.last().queue@))
    }
}

spec fn ids_distinct(s: Seq<Entry>) -> bool {
    forall|i: int, j: int|
        0 <= i < j < s.len() ==> (#[trigger] s[i].id) != (#[trigger] s[j].id)
}

impl View for Registry {
    type V = Map<u64, Seq<Seq<char>>>;

    closed spec fn view(&self) -> Map<u64, Seq<Seq<char>>> {
        map_of(self.subs@)
    }
}

/// What one `publish` call does to the registry: every subscriber with room
/// gets the row appended to its queue; a subscriber whose queue is full is
/// disconnected. No queue blocks any other.
pub open spec fn spec_publish(m: Map<u64, Seq<Seq<char>>>, row: Seq<char>) -> Map<
    u64,
    Seq<Seq<char>>,
> {
    Map::new(
        |id: u64| m.dom().contains(id) && m[id].len() < QUEUE_CAPACITY as int,
        |id: u64| m[id].push(row),
    )
}

proof fn lemma_map_of_dom(s: Seq<Entry>, id: u64)
    ensures
        map_of(s).dom().contains(id) <==> (exists|k: int|
            0 <= k < s.len() && (#[trigger] s[k].id) == id),
    decreases s.len(),
{
    if s.len() > 0 {
        lemma_map_of_dom(s.drop_last(), id);
        if s.last().id == id {
            assert(s[s.len() - 1].id == id);
        } else if map_of(s).dom().contains(id) {
            let k = choose|k: int| 0 <= k < s.drop_last().len() && (#[trigger] s.drop_last()[k].id)
                == id;
            assert(s[k].id == id);
        } else if exists|k: int| 0 <= k < s.len() && (#[trigger] s[k].id) == id {
            let k = choose|k: int| 0 <= k < s.len() && (#[trigger] s[k].id) == id;
            assert(k < s.len() - 1);
            assert(s.drop_last()[k].id == id);
        }
    }
}

proof fn lemma_map_of_index(s: Seq<Entry>, i: int)
    requires
        0 <= i < s.len(),
        ids_distinct(s),
    ensures
        map_of(s).dom().contains(s[i].id),
        map_of(s)[s[i].id] == views_of(s[i].queue@),
    decreases s.len(),
{
    if i < s.len() - 1 {
        assert(ids_distinct(s.drop_last()));
        assert(s.drop_last()[i] == s[i]);
        lemma_map_of_index(s.drop_last(), i);
        assert(s[i].id != s.last().id);
    }
}

proof fn lemma_map_of_remove(s: Seq<Entry>, i: int)
    requires
        0 <= i < s.len(),
        ids_distinct(s),
    ensures
        map_of(s.remove(i)) == map_of(s).remove(s[i].id),
    decreases s.len(),
{
    let id = s[i].id;
    if i == s.len() - 1 {
        assert(s.remove(i) =~= s.drop_last());
        lemma_map_of_dom(s.drop_last(), id);
        assert(forall|k: int|
            0 <= k < s.drop_last().len() ==> (#[trigger] s.drop_last()[k].id) != id);
        assert(map_of(s.drop_last()) =~= map_of(s).remove(id));
    } else {
        assert(ids_distinct(s.drop_last()));
        assert(s.drop_last()[i] == s[i]);
        lemma_map_of_remove(s.drop_last(), i);
        assert(s.remove(i).drop_last() =~= s.drop_last().remove(i));
        assert(s.remove(i).last() == s.last());
        assert(s.last().id != id);
        assert(map_of(s.remove(i)) == map_of(s.drop_last().remove(i)).insert(
            s.last().id,
            views_of(s.last().queue@),
        ));
        assert(map_of(s.drop_last()).remove(id).insert(s.last().id, views_of(s.last().queue@))
            =~= map_of(s).remove(id));
    }
}

impl Registry {
    /// The id the next subscriber will be assigned.
    pub closed spec fn next_id_spec(self) -> u64 {
        self.next
    }

    /// Well-formed: ids unique and below the allocation counter, and every
    /// queue within its bound.
    pub closed spec fn wf(self) -> bool {
        &&& ids_distinct(self.subs@)
        &&& forall|k: int|
            0 <= k < self.subs@.len() ==> (#[trigger] self.subs@[k].id) < self.next
        &&& forall|k: int|
            0 <= k < self.subs@.len() ==> (#[trigger] self.subs@[k].queue@.len())
                <= QUEUE_CAPACITY as int
    }

    /// Created empty at startup.
    pub fn new() -> (r: Registry)
        ensures
            r.wf(),
            r@ == Map::<u64, Seq<Seq<char>>>::empty(),
            r.next_id_spec() == 0,
    {
        Registry { next: 0, subs: Vec::new() }
    }

    /// The id the next subscriber will be assigned, without assigning it.
    pub fn peek_next_id(&self) -> (id: u64)
        ensures
            id == self.next_id_spec(),
    {
        self.next
    }

    /// Returns a strictly increasing, process-lifetime-unique identifier.
    pub fn next_id(&mut self) -> (id: u64)
        requires
            old(self).wf(),
            old(self).next_id_spec() < u64::MAX,
        ensures
            final(self).wf(),
            id == old(self).next_id_spec(),
            final(self).next_id_spec() == id + 1,
            final(self)@ == old(self)@,
            !final(self)@.dom().contains(id),
    {
        let id = self.next;
        self.next = self.next + 1;
        proof {
            lemma_map_of_dom(self.subs@, id);
        }
        id
    }

    /// Registers a subscriber under `id` with an empty delivery queue.
    pub fn add(&mut self, id: u64)
        requires
            old(self).wf(),
            !old(self)@.dom().contains(id),
            id < old(self).next_id_spec(),
        ensures
            final(self).wf(),
            final(self)@ == old(self)@.insert(id, Seq::<Seq<char>>::empty()),
            final(self).next_id_spec() == old(self).next_id_spec(),
    {
        let ghost s0 = self.subs@;
        proof {
            lemma_map_of_dom(s0, id);
        }
        self.subs.push(Entry { id, queue: Vec::new() });
        proof {
            assert(self.subs@.drop_last() =~= s0);
            assert(views_of(self.subs@.last().queue@) =~= Seq::<Seq<char>>::empty());
        }
    }

    /// Deregisters `id`. Removing an absent subscriber is a no-op, so a
    /// removal racing an earlier disconnect is harmless.
    pub fn remove(&mut self, id: u64)
        requires
            old(self).wf(),
        ensures
            final(self).wf(),
            final(self)@ == old(self)@.remove(id),
            final(self).next_id_spec() == old(self).next_id_spec(),
    {
        let n = self.subs.len();
        let mut i: usize = 0;
        while i < n
            invariant
                n == self.subs.len(),
                i <= n,
                *self == *old(self),
                old(self).wf(),
                forall|k: int| 0 <= k < i ==> (#[trigger] self.subs@[k].id) != id,
            decreases n - i,
        {
            if self.subs[i].id == id {
                let ghost s0 = self.subs@;
                proof {
                    lemma_map_of_remove(s0, i as int);
                }
                self.subs.remove(i);
                proof {
                    assert(forall|k: int|
                        0 <= k < self.subs@.len() ==> #[trigger] self.subs@[k] == (if k < i as int {
                            s0[k]
                        } else {
                            s0[k + 1]
                        }));
                    assert(ids_distinct(self.subs@));
                }
                return ;
            }
            i += 1;
        }
        proof {
            lemma_map_of_dom(self.subs@, id);
            assert(old(self)@.remove(id) =~= old(self)@);
        }
    }

    /// Drains and returns, in delivery order, everything queued for `id`.
    pub fn take_queued(&mut self, id: u64) -> (rows: Vec<String>)
        requires
            old(self).wf(),
        ensures
            final(self).wf(),
            final(self).next_id_spec() == old(self).next_id_spec(),
            old(self)@.dom().contains(id) ==> {
                &&& views_of(rows@) == old(self)@[id]
                &&& final(self)@ == old(self)@.insert(id, Seq::<Seq<char>>::empty())
            },
            !old(self)@.dom().contains(id) ==> {
                &&& rows@.len() == 0
                &&& final(self)@ == old(self)@
            },
    {
        let n = self.subs.len();
        let mut i: usize = 0;
        while i < n
            invariant
                n == self.subs.len(),
                i <= n,
                *self == *old(self),
                old(self).wf(),
                forall|k: int| 0 <= k < i ==> (#[trigger] self.subs@[k].id) != id,
            decreases n - i,
        {
            if self.subs[i].id == id {
                let ghost s0 = self.subs@;
                proof {
                    lemma_map_of_index(s0, i as int);
                    lemma_map_of_dom(s0, id);
                    lemma_map_of_remove(s0, i as int);
                }
                let e = self.subs.remove(i);
                proof {
                    assert(forall|k: int|
                        0 <= k < self.subs@.len() ==> #[trigger] self.subs@[k] == (if k < i as int {
                            s0[k]
                        } else {
                            s0[k + 1]
                        }));
                    assert(ids_distinct(self.subs@));
                    lemma_map_of_dom(self.subs@, id);
                }
                let ghost s1 = self.subs@;
                self.subs.push(Entry { id, queue: Vec::new() });
                proof {
                    assert(self.subs@.drop_last() =~= s1);
                    assert(views_of(self.subs@.last().queue@) =~= Seq::<Seq<char>>::empty());
                    assert(self@ =~= old(self)@.insert(id, Seq::<Seq<char>>::empty()));
                }
                return e.queue;
            }
            i += 1;
        }
        proof {
            lemma_map_of_dom(self.subs@, id);
        }
        Vec::new()
    }

    /// Fans one published row out to every registered subscriber: a
    /// non-blocking bounded enqueue per queue, and disconnect-on-full. A full
    /// queue for one subscriber never prevents delivery to any other within
    /// the same call, and the call itself never fails.
    pub fn publish(&mut self, row: &String)
        requires
            old(self).wf(),
        ensures
            final(self).wf(),
            final(self)@ == spec_publish(old(self)@, row@),
            final(self).next_id_spec() == old(self).next_id_spec(),
    {
        let ghost s = old(self).subs@;
        let n = self.subs.len();
        let mut kept: Vec<Entry> = Vec::new();
        let mut i: usize = 0;
        proof {
            assert(s.take(0) =~= Seq::<Entry>::empty());
            assert(map_of(kept@) =~= spec_publish(map_of(s.take(0)), row@));
        }
        while i < n
            invariant
                n == self.subs.len(),
                i <= n,
                *self == *old(self),
                old(self).wf(),
                s == self.subs@,
                n == s.len(),
                ids_distinct(kept@),
                forall|k: int| 0 <= k < kept@.len() ==> (#[trigger] kept@[k].id) < old(self).next,
                forall|k: int|
                    0 <= k < kept@.len() ==> (#[trigger] kept@[k].queue@.len())
                        <= QUEUE_CAPACITY as int,
                map_of(kept@) == spec_publish(map_of(s.take(i as int)), row@),
            decreases n - i,
        {
            let ghost mk = map_of(kept@);
            let ghost mi = map_of(s.take(i as int));
            let ghost qv = views_of(s[i as int].queue@);
            proof {
                assert(s.take(i as int + 1).drop_last() =~= s.take(i as int));
                assert(s.take(i as int + 1).last() == s[i as int]);
                assert(map_of(s.take(i as int + 1)) == mi.insert(s[i as int].id, qv));
                assert(forall|k: int|
                    0 <= k < s.take(i as int).len() ==> #[trigger] s.take(i as int)[k] == s[k]);
                lemma_map_of_dom(s.take(i as int), s[i as int].id);
                assert(!mi.dom().contains(s[i as int].id));
                lemma_map_of_dom(kept@, s[i as int].id);
                assert(!mk.dom().contains(s[i as int].id));
            }
            let e = &self.subs[i];
            if e.queue.len() < QUEUE_CAPACITY {
                let mut q = copy_rows(&e.queue);
                q.push(row.clone());
                let ghost k0 = kept@;
                kept.push(Entry { id: e.id, queue: q });
                proof {
                    assert(kept@.drop_last() =~= k0);
                    assert(views_of(q@) =~= qv.push(row@));
                    assert(map_of(kept@) == mk.insert(s[i as int].id, qv.push(row@)));
                    assert(mk.insert(s[i as int].id, qv.push(row@)) =~= spec_publish(
                        mi.insert(s[i as int].id, qv),
                        row@,
                    ));
                }
            } else {
                proof {
                    assert(qv.len() == s[i as int].queue@.len());
                    assert(mk =~= spec_publish(mi.insert(s[i as int].id, qv), row@));
                }
            }
            i += 1;
        }
        proof {
            assert(s.take(n as int) =~= s);
        }
        self.subs = kept;
    }
}

} // verus!
