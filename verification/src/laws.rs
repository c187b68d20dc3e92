use vstd::prelude::*;
use crate::registry::{spec_publish, QUEUE_CAPACITY};
use crate::session::{Session, SessionState};

verus! {

/// The registry contents after the rows of `rows` are published one after
/// another, in order.
pub open spec fn spec_publish_all(
    m: Map<u64, Seq<Seq<char>>>,
    rows: Seq<Seq<char>>,
) -> Map<u64, Seq<Seq<char>>>
    decreases rows.len(),
{
    if rows.len() == 0 {
        m
    } else {
        spec_publish_all(spec_publish(m, rows.first()), rows.drop_first())
    }
}

/// Per-subscriber delivery preserves publish order: a subscriber whose queue
/// holds `q` and never overflows while `rows` are published ends with `q`
/// followed by exactly those rows, in order.
pub proof fn lemma_publish_appends(m: Map<u64, Seq<Seq<char>>>, id: u64, rows: Seq<Seq<char>>)
    requires
        m.dom().contains(id),
        m[id].len() + rows.len() <= QUEUE_CAPACITY as int,
    ensures
        spec_publish_all(m, rows).dom().contains(id),
        spec_publish_all(m, rows)[id] == m[id] + rows,
    decreases rows.len(),
{
    if rows.len() == 0 {
        assert(m[id] + rows =~= m[id]);
    } else {
        let m1 = spec_publish(m, rows.first());
        assert(m1.dom().contains(id));
        assert(m1[id] == m[id].push(rows.first()));
        lemma_publish_appends(m1, id, rows.drop_first());
        assert(m[id].push(rows.first()) + rows.drop_first() =~= m[id] + rows);
    }
}

/// A subscriber that joins with an empty queue receives exactly the rows
/// published after it joined, in publish order. Together with the contract
/// of `Session::replay_rows`, a subscriber joining after snapshot completion
/// receives exactly the stored rows, in stored order, during replay, then
/// only rows published afterward.
pub proof fn lemma_joined_receives_published(
    m: Map<u64, Seq<Seq<char>>>,
    id: u64,
    rows: Seq<Seq<char>>,
)
    requires
        m.dom().contains(id),
        m[id] == Seq::<Seq<char>>::empty(),
        rows.len() <= QUEUE_CAPACITY as int,
    ensures
        spec_publish_all(m, rows).dom().contains(id),
        spec_publish_all(m, rows)[id] == rows,
{
    lemma_publish_appends(m, id, rows);
    assert(Seq::<Seq<char>>::empty() + rows =~= rows);
}

/// A subscriber connected before snapshot completion, whose replay step runs
/// once completion has occurred, observes the stored snapshot — in store
/// order, as `Session::replay_rows` returns it — followed by exactly the
/// live rows published for it while it waited, in publish order: replay
/// comes in addition to the queued rows, not instead of them.
pub proof fn lemma_early_joiner_observation(
    sv: crate::store::StoreView,
    m: Map<u64, Seq<Seq<char>>>,
    id: u64,
    live: Seq<Seq<char>>,
)
    requires
        sv.complete,
        m.dom().contains(id),
        m[id] == Seq::<Seq<char>>::empty(),
        live.len() <= QUEUE_CAPACITY as int,
    ensures
        sv.rows + spec_publish_all(m, live)[id] == sv.rows + live,
{
    lemma_joined_receives_published(m, id, live);
}

/// A disconnected subscriber is ineligible for every subsequent publish: no
/// number of later rows delivers to it or brings it back.
pub proof fn lemma_removed_stays_out(m: Map<u64, Seq<Seq<char>>>, id: u64, rows: Seq<Seq<char>>)
    requires
        !m.dom().contains(id),
    ensures
        !spec_publish_all(m, rows).dom().contains(id),
    decreases rows.len(),
{
    if rows.len() > 0 {
        lemma_removed_stays_out(spec_publish(m, rows.first()), id, rows.drop_first());
    }
}

/// Failure is isolated per subscriber: within one publish, a full queue for
/// `s` resolves by disconnecting `s` and does not prevent delivery to any
/// other subscriber `t`.
pub proof fn lemma_full_queue_isolated(m: Map<u64, Seq<Seq<char>>>, s: u64, t: u64, row: Seq<char>)
    requires
        m.dom().contains(s),
        m[s].len() >= QUEUE_CAPACITY as int,
        m.dom().contains(t),
        t != s,
        m[t].len() < QUEUE_CAPACITY as int,
    ensures
        !spec_publish(m, row).dom().contains(s),
        spec_publish(m, row).dom().contains(t),
        spec_publish(m, row)[t] == m[t].push(row),
{
}

/// Replay happens at most once per session: it demands `can_replay`, which
/// holds exactly in the connecting state, and every transition out of that
/// state — `replay_rows` itself first among them — leaves it for good.
pub proof fn lemma_replay_at_most_once(s: Session)
    requires
        s.state_spec() != SessionState::Connecting,
    ensures
        !s.can_replay(),
{
}

} // verus!
