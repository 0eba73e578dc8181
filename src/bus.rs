use std::collections::VecDeque;
use vstd::prelude::*;

use crate::packet::{FrameView, J1939Packet};

verus! {

/// The frames that each live subscription has yet to read, by subscription id.
pub type Pending = Map<usize, Seq<FrameView>>;

/// Publishing appends the frame to the unread frames of every live subscription.
pub open spec fn publish_model(m: Pending, f: FrameView) -> Pending {
    m.map_values(|q: Seq<FrameView>| q.push(f))
}

/// Publishing the frames of `fs`, in order.
pub open spec fn publish_all(m: Pending, fs: Seq<FrameView>) -> Pending
    decreases fs.len(),
{
    if fs.len() == 0 {
        m
    } else {
        publish_model(publish_all(m, fs.drop_last()), fs.last())
    }
}

/// What a reader of the bus does next.
pub enum Poll {
    /// Take this frame.
    Ready(J1939Packet),
    /// Nothing to read yet: wait for a publish, at most this many microseconds when a
    /// deadline is set.
    Wait(Option<u64>),
    /// The subscription's deadline has passed, or it is not live: the sequence ends.
    Ended,
}

/// A broadcast log of frames with one read cursor per subscription: every subscription
/// reads, in publish order, each frame published after it was created. Frames that
/// every live subscription has read are released.
pub struct BusLog {
    /// Frames that some live subscription has not read yet.
    frames: VecDeque<J1939Packet>,
    /// For each subscription id, the position in `frames` of its next frame, or `None`
    /// for an id that is free.
    cursors: Vec<Option<usize>>,
}

impl View for BusLog {
    type V = Pending;

    closed spec fn view(&self) -> Pending {
        Map::new(
            |i: usize| self.live(i),
            |i: usize| self.log().skip(self.cursors@[i as int]->Some_0 as int),
        )
    }
}

impl BusLog {
    spec fn log(&self) -> Seq<FrameView> {
        self.frames@.map_values(|f: J1939Packet| f@)
    }

    spec fn live(&self, i: usize) -> bool {
        i < self.cursors@.len() && self.cursors@[i as int] is Some
    }

    spec fn bounded(&self) -> bool {
        forall|i: usize| #[trigger]
            self.live(i) ==> self.cursors@[i as int]->Some_0 <= self.frames@.len()
    }

    /// Every cursor points into the retained frames, and the first retained frame is
    /// still unread by some subscription.
    pub closed spec fn wf(&self) -> bool {
        &&& self.bounded()
        &&& self.frames@.len() == 0 || exists|i: usize| #[trigger]
            self.live(i) && self.cursors@[i as int] == Some(0usize)
    }

    /// An empty log without subscriptions.
    pub fn new() -> (r: BusLog)
        ensures
            r.wf(),
            r@ == Pending::empty(),
    {
        let r = BusLog { frames: VecDeque::new(), cursors: Vec::new() };
        assert(r@ =~= Pending::empty());
        r
    }

    fn first_live(&self) -> (r: Option<usize>)
        ensures
            r matches Some(i) ==> self.live(i),
            r is None ==> forall|i: usize| !#[trigger] self.live(i),
    {
        let mut i: usize = 0;
        while i < self.cursors.len()
            invariant
                i <= self.cursors@.len(),
                forall|j: usize| j < i ==> !#[trigger] self.live(j),
            decreases self.cursors@.len() - i,
        {
            if self.cursors[i].is_some() {
                return Some(i);
            }
            i = i + 1;
        }
        None
    }

    /// Whether some subscription is live.
    pub fn has_subscribers(&self) -> (r: bool)
        ensures
            r == !(self@.dom() =~= Set::<usize>::empty()),
    {
        match self.first_live() {
            Some(i) => {
                assert(self@.dom().contains(i));
                true
            },
            None => {
                assert(self@.dom() =~= Set::<usize>::empty());
                false
            },
        }
    }

    /// Appends `frame` to what every live subscription has yet to read. With no
    /// subscription live, nobody can read it and it is dropped.
    pub fn publish(&mut self, frame: J1939Packet)
        requires
            old(self).wf(),
        ensures
            final(self).wf(),
            final(self)@ == publish_model(old(self)@, frame@),
    {
        let ghost f = frame@;
        if let Some(first) = self.first_live() {
            self.frames.push_back(frame);
            proof {
                assert forall|i: usize| #[trigger] self.live(i) implies self.cursors@[i as int]->Some_0
                    <= self.frames@.len() by {
                    assert(old(self).live(i));
                }
                if old(self).frames@.len() == 0 {
                    assert(old(self).live(first));
                    assert(self.live(first) && self.cursors@[first as int] == Some(0usize));
                } else {
                    let w = choose|i: usize| #[trigger]
                        old(self).live(i) && old(self).cursors@[i as int] == Some(0usize);
                    assert(self.live(w));
                }
                assert(self.log() =~= old(self).log().push(f));
                assert forall|i: usize| #[trigger] self.live(i) implies self.log().skip(
                    self.cursors@[i as int]->Some_0 as int,
                ) =~= old(self).log().skip(self.cursors@[i as int]->Some_0 as int).push(f) by {
                    assert(old(self).live(i));
                }
            }
        }
        assert(self@ =~= publish_model(old(self)@, f));
    }

    /// A new subscription, which reads only frames published from now on.
    pub fn subscribe(&mut self) -> (id: usize)
        requires
            old(self).wf(),
        ensures
            final(self).wf(),
            !old(self)@.dom().contains(id),
            final(self)@ == old(self)@.insert(id, Seq::empty()),
    {
        let end = self.frames.len();
        let ghost w: usize = if end > 0 {
            choose|i: usize| #[trigger] self.live(i) && self.cursors@[i as int] == Some(0usize)
        } else {
            0
        };
        let mut i: usize = 0;
        while i < self.cursors.len()
            invariant
                i <= self.cursors@.len(),
                forall|j: usize| j < i ==> #[trigger] self.live(j),
                end > 0 ==> self.live(w) && self.cursors@[w as int] == Some(0usize),
                self == old(self),
                old(self).wf(),
                end == self.frames@.len(),
            decreases self.cursors@.len() - i,
        {
            if self.cursors[i].is_none() {
                self.cursors.set(i, Some(end));
                proof {
                    assert(self.log() == old(self).log());
                    assert(self.log().skip(end as int) =~= Seq::empty());
                    assert(self@ =~= old(self)@.insert(i, Seq::empty()));
                    assert forall|j: usize| #[trigger] self.live(j) implies self.cursors@[j as int]->Some_0
                        <= self.frames@.len() by {
                        if j != i {
                            assert(old(self).live(j));
                        } else {
                            assert(self.cursors@[i as int] == Some(end));
                        }
                    }
                    if end > 0 {
                        assert(self.live(w));
                    }
                }
                return i;
            }
            i = i + 1;
        }
        let id = self.cursors.len();
        self.cursors.push(Some(end));
        proof {
            assert(self.log() == old(self).log());
            assert(self.log().skip(end as int) =~= Seq::empty());
            assert(self@ =~= old(self)@.insert(id, Seq::empty()));
            assert forall|j: usize| #[trigger] self.live(j) implies self.cursors@[j as int]->Some_0
                <= self.frames@.len() by {
                if j != id {
                    assert(old(self).live(j));
                }
            }
            if end > 0 {
                assert(self.live(w));
            }
        }
        id
    }

    /// The next unread frame of subscription `id`, if there is one; `None` also for an
    /// id that is not live.
    pub fn next(&mut self, id: usize) -> (r: Option<J1939Packet>)
        requires
            old(self).wf(),
        ensures
            final(self).wf(),
            old(self)@.dom().contains(id) && old(self)@[id].len() > 0 ==> {
                &&& r is Some
                &&& r->Some_0@ == old(self)@[id][0]
                &&& final(self)@ == old(self)@.insert(id, old(self)@[id].drop_first())
            },
            !(old(self)@.dom().contains(id) && old(self)@[id].len() > 0) ==> {
                &&& r is None
                &&& final(self)@ == old(self)@
            },
    {
        if id >= self.cursors.len() {
            return None;
        }
        match self.cursors[id] {
            None => None,
            Some(c) => {
                if c >= self.frames.len() {
                    assert(old(self).live(id));
                    assert(old(self)@[id] =~= Seq::empty());
                    None
                } else {
                    let f = self.frames[c].duplicate();
                    self.cursors.set(id, Some(c + 1));
                    proof {
                        assert(self.log() == old(self).log());
                        assert(old(self).live(id));
                        assert(old(self)@[id][0] == f@);
                        assert forall|j: usize| #[trigger] self.live(j) implies self.cursors@[j as int]->Some_0
                            <= self.frames@.len() by {
                            assert(old(self).live(j));
                        }
                        assert(old(self).log().skip(c + 1) =~= old(self).log().skip(c as int).drop_first());
                        assert forall|j: usize| #[trigger] self.live(j) && j != id implies self.cursors@[j as int]
                            == old(self).cursors@[j as int] by {
                            assert(old(self).live(j));
                        }
                        assert(self@ =~= old(self)@.insert(id, old(self)@[id].drop_first()));
                    }
                    self.trim();
                    Some(f)
                }
            },
        }
    }

    /// The next step of subscription `id` at time `now_us`, for a subscription that
    /// ends at `deadline_us` (microseconds on the same clock), or never when `None`.
    /// Once the deadline is reached the sequence ends whether or not frames arrived;
    /// before it, a reader with nothing to read waits no longer than the time left.
    pub fn poll(&mut self, id: usize, now_us: u64, deadline_us: Option<u64>) -> (r: Poll)
        requires
            old(self).wf(),
        ensures
            final(self).wf(),
            !old(self)@.dom().contains(id) || (deadline_us matches Some(d) && now_us >= d) ==> {
                &&& r is Ended
                &&& final(self)@ == old(self)@
            },
            old(self)@.dom().contains(id) && !(deadline_us matches Some(d) && now_us >= d) ==> {
                if old(self)@[id].len() > 0 {
                    &&& r matches Poll::Ready(f) && f@ == old(self)@[id][0]
                    &&& final(self)@ == old(self)@.insert(id, old(self)@[id].drop_first())
                } else {
                    &&& r == match deadline_us {
                        Some(d) => Poll::Wait(Some((d - now_us) as u64)),
                        None => Poll::Wait(None),
                    }
                    &&& final(self)@ == old(self)@
                }
            },
    {
        let live = id < self.cursors.len() && self.cursors[id].is_some();
        assert(live == old(self)@.dom().contains(id));
        if !live {
            return Poll::Ended;
        }
        match deadline_us {
            Some(d) => {
                if now_us >= d {
                    Poll::Ended
                } else {
                    match self.next(id) {
                        Some(f) => Poll::Ready(f),
                        None => Poll::Wait(Some(d - now_us)),
                    }
                }
            },
            None => match self.next(id) {
                Some(f) => Poll::Ready(f),
                None => Poll::Wait(None),
            },
        }
    }

    /// Ends subscription `id`; nothing happens for an id that is not live.
    pub fn unsubscribe(&mut self, id: usize)
        requires
            old(self).wf(),
        ensures
            final(self).wf(),
            final(self)@ == old(self)@.remove(id),
    {
        if id < self.cursors.len() {
            self.cursors.set(id, None);
            proof {
                assert forall|j: usize| #[trigger] self.live(j) implies self.cursors@[j as int]->Some_0
                    <= self.frames@.len() by {
                    assert(old(self).live(j));
                }
                assert(self.log() == old(self).log());
                assert(self@ =~= old(self)@.remove(id));
            }
            self.trim();
        } else {
            assert(old(self)@ =~= old(self)@.remove(id));
        }
    }

    /// Number of frames held in memory: as many as the slowest subscription has yet
    /// to read.
    pub fn retained(&self) -> (r: usize)
        requires
            self.wf(),
        ensures
            forall|i: usize| #[trigger] self@.dom().contains(i) ==> self@[i].len() <= r,
            r == 0 || exists|i: usize| #[trigger] self@.dom().contains(i) && self@[i].len() == r,
    {
        proof {
            if self.frames@.len() > 0 {
                let w = choose|i: usize| #[trigger] self.live(i) && self.cursors@[i as int] == Some(0usize);
                assert(self@.dom().contains(w));
                assert(self@[w].len() == self.frames@.len());
            }
        }
        self.frames.len()
    }

    /// Releases the frames that every live subscription has read.
    fn trim(&mut self)
        requires
            old(self).bounded(),
        ensures
            final(self).wf(),
            final(self)@ == old(self)@,
    {
        let mut m = self.frames.len();
        let ghost mut w: usize = 0;
        let mut i: usize = 0;
        while i < self.cursors.len()
            invariant
                i <= self.cursors@.len(),
                self == old(self),
                m <= self.frames@.len(),
                forall|j: usize| j < i && #[trigger] self.live(j) ==> m <= self.cursors@[j as int]->Some_0,
                m < self.frames@.len() ==> self.live(w) && self.cursors@[w as int] == Some(m),
            decreases self.cursors@.len() - i,
        {
            if let Some(c) = self.cursors[i] {
                if c < m {
                    m = c;
                    proof {
                        w = i;
                    }
                }
            }
            i = i + 1;
        }
        let ghost old_frames = self.frames@;
        let mut k: usize = 0;
        while k < m
            invariant
                k <= m <= old_frames.len(),
                self.frames@ == old_frames.subrange(k as int, old_frames.len() as int),
                self.cursors == old(self).cursors,
            decreases m - k,
        {
            self.frames.pop_front();
            k = k + 1;
        }
        let mut i: usize = 0;
        while i < self.cursors.len()
            invariant
                i <= self.cursors@.len(),
                self.cursors@.len() == old(self).cursors@.len(),
                self.frames@ == old_frames.subrange(m as int, old_frames.len() as int),
                forall|j: usize| j < self.cursors@.len() ==> (#[trigger] self.cursors@[j as int] is Some
                    <==> old(self).cursors@[j as int] is Some),
                forall|j: usize|
                    j < i && #[trigger] self.cursors@[j as int] is Some ==> self.cursors@[j as int]->Some_0
                        == old(self).cursors@[j as int]->Some_0 - m,
                forall|j: usize|
                    i <= j < self.cursors@.len() ==> #[trigger] self.cursors@[j as int]
                        == old(self).cursors@[j as int],
                forall|j: usize| old(self).live(j) ==> m <= #[trigger] old(self).cursors@[j as int]->Some_0,
            decreases self.cursors@.len() - i,
        {
            if let Some(c) = self.cursors[i] {
                assert(old(self).live(i));
                self.cursors.set(i, Some(c - m));
            }
            i = i + 1;
        }
        proof {
            assert forall|j: usize| #[trigger] self.live(j) implies self.cursors@[j as int]->Some_0
                <= self.frames@.len() by {
                assert(old(self).live(j));
            }
            if m < old_frames.len() {
                assert(self.live(w) && self.cursors@[w as int] == Some(0usize));
            }
            assert forall|j: usize| #[trigger] self.live(j) implies self.log().skip(
                self.cursors@[j as int]->Some_0 as int,
            ) =~= old(self).log().skip(old(self).cursors@[j as int]->Some_0 as int) by {
                assert(old(self).live(j));
            }
            assert(self@ =~= old(self)@);
        }
    }
}

/// Fan-out: publishing the frames `fs` in order adds exactly `fs`, in that order, to
/// what each live subscription has yet to read. In particular two subscriptions that
/// have just been created both read exactly `fs`, in order.
pub proof fn lemma_fan_out(m: Pending, fs: Seq<FrameView>, a: usize, b: usize)
    requires
        m.dom().contains(a),
        m.dom().contains(b),
        m[a] == Seq::<FrameView>::empty(),
        m[b] == Seq::<FrameView>::empty(),
    ensures
        publish_all(m, fs).dom() == m.dom(),
        publish_all(m, fs)[a] == fs,
        publish_all(m, fs)[b] == fs,
{
    lemma_publish_all(m, fs);
    assert(Seq::<FrameView>::empty() + fs =~= fs);
}

/// Publishing `fs` keeps the live subscriptions and appends `fs` to each one's unread
/// frames.
pub proof fn lemma_publish_all(m: Pending, fs: Seq<FrameView>)
    ensures
        publish_all(m, fs).dom() == m.dom(),
        forall|i: usize| m.dom().contains(i) ==> #[trigger] publish_all(m, fs)[i] == m[i] + fs,
    decreases fs.len(),
{
    if fs.len() > 0 {
        let prev = publish_all(m, fs.drop_last());
        lemma_publish_all(m, fs.drop_last());
        assert(publish_model(prev, fs.last()).dom() =~= prev.dom());
        assert forall|i: usize| m.dom().contains(i) implies #[trigger] publish_all(m, fs)[i] == m[i]
            + fs by {
            assert(m[i] + fs.drop_last() + seq![fs.last()] =~= m[i] + fs);
        }
    } else {
        assert forall|i: usize| m.dom().contains(i) implies #[trigger] publish_all(m, fs)[i] == m[i]
            + fs by {
            assert(m[i] + fs =~= m[i]);
        }
    }
}

} // verus!
