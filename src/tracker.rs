use crate::stack::{TimingStack, MAX_OPEN_FRAMES};
use std::collections::HashMap;
use vstd::prelude::*;

verus! {

/// A notification from the span framework: the span `id` was entered, or
/// exited, when the clock read `at`.
pub enum Notification {
    Enter { id: u64, at: u64 },
    Exit { id: u64, at: u64 },
}

impl Notification {
    /// The span the notification is about.
    pub open spec fn id(self) -> u64 {
        match self {
            Notification::Enter { id, .. } => id,
            Notification::Exit { id, .. } => id,
        }
    }

    /// The clock reading when the notification came.
    pub open spec fn at(self) -> u64 {
        match self {
            Notification::Enter { at, .. } => at,
            Notification::Exit { at, .. } => at,
        }
    }
}

/// One closed frame of the span `id`: it was opened at `start_ns` and closed
/// at `end_ns`.
#[derive(Clone, Copy, Debug, PartialEq, Eq, Structural)]
pub struct Mark {
    pub id: u64,
    pub start_ns: u64,
    pub end_ns: u64,
}

/// The open frames of `id`; a span never entered has none.
pub open spec fn stack_of(m: Map<u64, Seq<u64>>, id: u64) -> Seq<u64> {
    if m.contains_key(id) {
        m[id]
    } else {
        Seq::empty()
    }
}

/// Entering `id` at `at` opens a frame on top of its stack.
pub open spec fn enter_step(m: Map<u64, Seq<u64>>, id: u64, at: u64) -> Map<u64, Seq<u64>> {
    m.insert(id, stack_of(m, id).push(at))
}

/// Exiting `id` at `at` closes its most recent frame and gives the mark of
/// that frame; with no open frame it changes nothing and gives nothing.
pub open spec fn exit_step(m: Map<u64, Seq<u64>>, id: u64, at: u64) -> (Map<u64, Seq<u64>>, Option<Mark>) {
    let s = stack_of(m, id);
    if s.len() == 0 {
        (m, None)
    } else {
        (m.insert(id, s.drop_last()), Some(Mark { id, start_ns: s.last(), end_ns: at }))
    }
}

/// Handles one notification: the open frames after it, and the mark it gives.
pub open spec fn step(m: Map<u64, Seq<u64>>, n: Notification) -> (Map<u64, Seq<u64>>, Option<Mark>) {
    match n {
        Notification::Enter { id, at } => (enter_step(m, id, at), None),
        Notification::Exit { id, at } => exit_step(m, id, at),
    }
}

/// The open frames and the marks, in order, after the notifications `ns`
/// were handled one after another from no open frame.
pub open spec fn run(ns: Seq<Notification>) -> (Map<u64, Seq<u64>>, Seq<Mark>)
    decreases ns.len(),
{
    if ns.len() == 0 {
        (Map::empty(), Seq::empty())
    } else {
        let (m, marks) = run(ns.drop_last());
        let (m2, o) = step(m, ns.last());
        (
            m2,
            match o {
                Some(mk) => marks.push(mk),
                None => marks,
            },
        )
    }
}

/// The number of enters of `id` among `ns`.
pub open spec fn count_enters(ns: Seq<Notification>, id: u64) -> nat
    decreases ns.len(),
{
    if ns.len() == 0 {
        0
    } else {
        count_enters(ns.drop_last(), id) + if ns.last() is Enter && ns.last().id() == id {
            1nat
        } else {
            0nat
        }
    }
}

/// The number of exits of `id` among `ns`.
pub open spec fn count_exits(ns: Seq<Notification>, id: u64) -> nat
    decreases ns.len(),
{
    if ns.len() == 0 {
        0
    } else {
        count_exits(ns.drop_last(), id) + if ns.last() is Exit && ns.last().id() == id {
            1nat
        } else {
            0nat
        }
    }
}

/// The number of marks of `id` among `marks`.
pub open spec fn count_marks(marks: Seq<Mark>, id: u64) -> nat
    decreases marks.len(),
{
    if marks.len() == 0 {
        0
    } else {
        count_marks(marks.drop_last(), id) + if marks.last().id == id {
            1nat
        } else {
            0nat
        }
    }
}

/// Every exit closes a frame that an earlier enter of the same identity
/// opened and no other exit closed.
pub open spec fn well_formed(ns: Seq<Notification>) -> bool {
    forall|i: int|
        0 <= i < ns.len() && #[trigger] ns[i] is Exit ==> count_enters(ns.take(i), ns[i].id())
            > count_exits(ns.take(i), ns[i].id())
}

/// The clock never goes back along the notifications.
pub open spec fn monotone(ns: Seq<Notification>) -> bool {
    forall|i: int, j: int| 0 <= i <= j < ns.len() ==> #[trigger] ns[i].at() <= #[trigger] ns[j].at()
}

/// No open frame started after `t`.
pub open spec fn frames_bounded(m: Map<u64, Seq<u64>>, t: u64) -> bool {
    forall|id: u64, j: int|
        m.contains_key(id) && 0 <= j < m[id].len() ==> #[trigger] m[id][j] <= t
}

/// For a well-formed sequence of notifications on any identities, the open
/// frames of each identity are its enters less its exits, each identity gets
/// one mark per exit, and where the clock never goes back every mark starts
/// no later than it ends.
pub proof fn lemma_pairing(ns: Seq<Notification>)
    requires
        well_formed(ns),
    ensures
        forall|id: u64| #[trigger] stack_of(run(ns).0, id).len() + count_exits(ns, id)
            == count_enters(ns, id),
        forall|id: u64| #[trigger] count_marks(run(ns).1, id) == count_exits(ns, id),
        monotone(ns) ==> forall|k: int|
            0 <= k < run(ns).1.len() ==> (#[trigger] run(ns).1[k]).start_ns <= run(ns).1[k].end_ns,
        monotone(ns) && ns.len() > 0 ==> frames_bounded(run(ns).0, ns.last().at()),
    decreases ns.len(),
{
    if ns.len() > 0 {
        let prev = ns.drop_last();
        let n = ns.last();
        assert forall|i: int| 0 <= i < prev.len() && #[trigger] prev[i] is Exit implies count_enters(
            prev.take(i),
            prev[i].id(),
        ) > count_exits(prev.take(i), prev[i].id()) by {
            assert(prev.take(i) =~= ns.take(i));
            assert(ns[i] == prev[i]);
        }
        lemma_pairing(prev);
        let (m, marks) = run(prev);
        assert(ns.take(ns.len() - 1) =~= prev);
        if n is Exit {
            assert(ns[ns.len() - 1] is Exit);
        }
        assert forall|k: int, l: int| 0 <= k <= l < prev.len() && monotone(ns) implies #[trigger] prev[k].at()
            <= #[trigger] prev[l].at() by {
            assert(prev[k] == ns[k] && prev[l] == ns[l]);
        }
        if monotone(ns) {
            if prev.len() > 0 {
                assert(prev.last() == ns[ns.len() - 2]);
                assert(prev.last().at() <= n.at());
            }
        }
        assert forall|id: u64| #[trigger] stack_of(run(ns).0, id).len() + count_exits(ns, id)
            == count_enters(ns, id) by {
            assert(stack_of(m, id).len() + count_exits(prev, id) == count_enters(prev, id));
        }
        assert forall|id: u64| #[trigger] count_marks(run(ns).1, id) == count_exits(ns, id) by {
            assert(count_marks(marks, id) == count_exits(prev, id));
            assert(stack_of(m, id).len() + count_exits(prev, id) == count_enters(prev, id));
            match step(m, n).1 {
                Some(mk) => {
                    assert(run(ns).1 == marks.push(mk));
                    assert(run(ns).1.drop_last() =~= marks);
                },
                None => {},
            }
        }
        if monotone(ns) {
            let m2 = run(ns).0;
            assert forall|id: u64, j: int| m2.contains_key(id) && 0 <= j < m2[id].len() implies #[trigger] m2[id][j]
                <= n.at() by {
                if id != n.id() || !m.contains_key(id) {
                } else {
                    assert(m2[id][j] == m[id][j] || m2[id][j] == n.at());
                }
            }
            assert forall|k: int| 0 <= k < run(ns).1.len() implies (#[trigger] run(ns).1[k]).start_ns
                <= run(ns).1[k].end_ns by {
                if k < marks.len() {
                    assert(run(ns).1[k] == marks[k]);
                } else {
                    let s = stack_of(m, n.id());
                    assert(m.contains_key(n.id()));
                    assert(s[s.len() - 1] <= prev.last().at());
                }
            }
        }
    }
}

/// A span that is never entered never gets a mark.
pub proof fn lemma_never_entered(ns: Seq<Notification>, id: u64)
    requires
        forall|i: int| 0 <= i < ns.len() ==> !(#[trigger] ns[i] is Enter && ns[i].id() == id),
    ensures
        stack_of(run(ns).0, id).len() == 0,
        count_marks(run(ns).1, id) == 0,
    decreases ns.len(),
{
    if ns.len() > 0 {
        let prev = ns.drop_last();
        assert forall|i: int| 0 <= i < prev.len() implies !(#[trigger] prev[i] is Enter && prev[i].id()
            == id) by {
            assert(prev[i] == ns[i]);
        }
        lemma_never_entered(prev, id);
        assert(!(ns[ns.len() - 1] is Enter && ns[ns.len() - 1].id() == id));
        let (m, marks) = run(prev);
        match step(m, ns.last()).1 {
            Some(mk) => {
                assert(run(ns).1.drop_last() =~= marks);
            },
            None => {},
        }
    }
}

/// A span entered twice, then another span entered and exited, then the
/// first span exited twice: the other span's frame is marked first, then the
/// first span's frames, the most recent one first.
pub proof fn lemma_reentrance(a: u64, b: u64, t1: u64, t2: u64, t3: u64, t4: u64, t5: u64, t6: u64)
    requires
        a != b,
    ensures
        run(
            seq![
                Notification::Enter { id: a, at: t1 },
                Notification::Enter { id: a, at: t2 },
                Notification::Enter { id: b, at: t3 },
                Notification::Exit { id: b, at: t4 },
                Notification::Exit { id: a, at: t5 },
                Notification::Exit { id: a, at: t6 },
            ],
        ).1 == seq![
            Mark { id: b, start_ns: t3, end_ns: t4 },
            Mark { id: a, start_ns: t2, end_ns: t5 },
            Mark { id: a, start_ns: t1, end_ns: t6 },
        ],
{
    let ns = seq![
        Notification::Enter { id: a, at: t1 },
        Notification::Enter { id: a, at: t2 },
        Notification::Enter { id: b, at: t3 },
        Notification::Exit { id: b, at: t4 },
        Notification::Exit { id: a, at: t5 },
        Notification::Exit { id: a, at: t6 },
    ];
    let r0 = run(ns.take(0));
    let r1 = run(ns.take(1));
    assert(ns.take(1).drop_last() =~= ns.take(0));
    assert(r1.0 =~~= map![a => seq![t1]]);
    let r2 = run(ns.take(2));
    assert(ns.take(2).drop_last() =~= ns.take(1));
    assert(r2.0 =~~= map![a => seq![t1, t2]]);
    let r3 = run(ns.take(3));
    assert(ns.take(3).drop_last() =~= ns.take(2));
    assert(r3.0 =~~= map![a => seq![t1, t2], b => seq![t3]]);
    let r4 = run(ns.take(4));
    assert(ns.take(4).drop_last() =~= ns.take(3));
    assert(r4.0 =~~= map![a => seq![t1, t2], b => Seq::<u64>::empty()]);
    assert(r4.1 =~= seq![Mark { id: b, start_ns: t3, end_ns: t4 }]);
    let r5 = run(ns.take(5));
    assert(ns.take(5).drop_last() =~= ns.take(4));
    assert(r5.0 =~~= map![a => seq![t1], b => Seq::<u64>::empty()]);
    let r6 = run(ns.take(6));
    assert(ns.take(6).drop_last() =~= ns.take(5));
    assert(ns.take(6) =~= ns);
    assert(r6.1 =~= seq![
        Mark { id: b, start_ns: t3, end_ns: t4 },
        Mark { id: a, start_ns: t2, end_ns: t5 },
        Mark { id: a, start_ns: t1, end_ns: t6 },
    ]);
}

/// The open timing frames of every span identity, for a writer that keeps
/// them in a table of its own rather than on the spans.
pub struct SpanTracker {
    stacks: HashMap<u64, TimingStack>,
}

impl View for SpanTracker {
    type V = Map<u64, Seq<u64>>;

    closed spec fn view(&self) -> Map<u64, Seq<u64>> {
        self.stacks@.map_values(|s: TimingStack| s@)
    }
}

impl SpanTracker {
    /// A tracker with no open frame.
    pub fn new() -> (r: SpanTracker)
        ensures
            r@ == Map::<u64, Seq<u64>>::empty(),
    {
        let r = SpanTracker { stacks: HashMap::new() };
        proof {
            assert(r@ =~= Map::<u64, Seq<u64>>::empty());
        }
        r
    }

    /// The number of open frames of `id`.
    pub fn open_frames(&self, id: u64) -> (r: usize)
        ensures
            r == stack_of(self@, id).len(),
    {
        match self.stacks.get(&id) {
            Some(s) => s.len(),
            None => 0,
        }
    }

    /// Handles the entering of `id` at `now`: opens a frame on its stack.
    pub fn on_enter(&mut self, id: u64, now: u64)
        requires
            stack_of(old(self)@, id).len() < MAX_OPEN_FRAMES,
        ensures
            final(self)@ == enter_step(old(self)@, id, now),
    {
        let ghost before = self@;
        let s = match self.stacks.remove(&id) {
            Some(mut s) => {
                s.push(now);
                s
            },
            None => TimingStack::with_frame(now),
        };
        self.stacks.insert(id, s);
        proof {
            assert(self@ =~= enter_step(before, id, now));
        }
    }

    /// Handles the exiting of `id` at `now`: closes its most recent frame and
    /// returns the mark of it, or changes nothing and returns `None` where no
    /// frame of `id` is open.
    pub fn on_exit(&mut self, id: u64, now: u64) -> (r: Option<Mark>)
        ensures
            (final(self)@, r) == exit_step(old(self)@, id, now),
    {
        let ghost before = self@;
        match self.stacks.remove(&id) {
            Some(mut s) => {
                let popped = s.pop();
                self.stacks.insert(id, s);
                match popped {
                    Some(start_ns) => {
                        proof {
                            assert(self@ =~= exit_step(before, id, now).0);
                        }
                        Some(Mark { id, start_ns, end_ns: now })
                    },
                    None => {
                        proof {
                            assert(self@ =~= before);
                        }
                        None
                    },
                }
            },
            None => None,
        }
    }

    /// Handles the closing of the span `id`: its frames are dropped.
    pub fn on_close(&mut self, id: u64)
        ensures
            final(self)@ == old(self)@.remove(id),
    {
        let ghost before = self@;
        self.stacks.remove(&id);
        proof {
            assert(self@ =~= before.remove(id));
        }
    }
}

} // verus!
