//! Event ring: what happened to which node or volume, when.

use crate::clock;
use crate::names::Dup;
use crate::text;
use std::collections::VecDeque;
use std::time::SystemTime;
use vstd::prelude::*;

verus! {

#[derive(Debug, Clone, Copy, PartialEq, Eq, Structural)]
pub enum Severity {
    Info,
    Warning,
    Error,
}

/// One thing that happened.
#[derive(Debug)]
pub struct Event {
    pub seq: u64,
    pub time: SystemTime,
    /// Node or volume name the event is about.
    pub subject: Option<String>,
    pub severity: Severity,
    /// node, volume, placement, register, poll.
    pub kind: String,
    pub message: String,
}

/// What a [`Event`] holds.
#[verifier::ext_equal]
pub struct EventView {
    pub seq: u64,
    pub time: SystemTime,
    pub subject: Option<Seq<char>>,
    pub severity: Severity,
    pub kind: Seq<char>,
    pub message: Seq<char>,
}

impl View for Event {
    type V = EventView;

    open spec fn view(&self) -> EventView {
        EventView {
            seq: self.seq,
            time: self.time,
            subject: self.subject.deep_view(),
            severity: self.severity,
            kind: self.kind@,
            message: self.message@,
        }
    }
}

impl DeepView for Event {
    type V = EventView;

    open spec fn deep_view(&self) -> EventView {
        self@
    }
}

impl Dup for Event {
    fn dup(&self) -> (r: Self) {
        Event {
            seq: self.seq,
            time: self.time,
            subject: self.subject.dup(),
            severity: self.severity,
            kind: self.kind.clone(),
            message: self.message.clone(),
        }
    }
}

impl Clone for Event {
    fn clone(&self) -> (r: Self)
        ensures
            r@ == self@,
    {
        self.dup()
    }
}

/// Something worth an event, before it has a number and a time.
#[derive(Debug)]
pub struct Notice {
    pub subject: Option<String>,
    pub severity: Severity,
    pub kind: String,
    pub message: String,
}

/// What a [`Notice`] holds.
#[verifier::ext_equal]
pub struct NoticeView {
    pub subject: Option<Seq<char>>,
    pub severity: Severity,
    pub kind: Seq<char>,
    pub message: Seq<char>,
}

impl View for Notice {
    type V = NoticeView;

    open spec fn view(&self) -> NoticeView {
        NoticeView {
            subject: self.subject.deep_view(),
            severity: self.severity,
            kind: self.kind@,
            message: self.message@,
        }
    }
}

impl DeepView for Notice {
    type V = NoticeView;

    open spec fn deep_view(&self) -> NoticeView {
        self@
    }
}

impl Dup for Notice {
    fn dup(&self) -> (r: Self) {
        Notice {
            subject: self.subject.dup(),
            severity: self.severity,
            kind: self.kind.clone(),
            message: self.message.clone(),
        }
    }
}

impl Clone for Notice {
    fn clone(&self) -> (r: Self)
        ensures
            r@ == self@,
    {
        self.dup()
    }
}

/// The last events, each with its number; where there is room for any, at most
/// as many as that.
#[derive(Debug)]
pub struct EventLog {
    next_seq: u64,
    ring: VecDeque<Event>,
    cap: usize,
}

/// What an [`EventLog`] holds.
#[verifier::ext_equal]
pub struct EventLogView {
    /// The number of the next event.
    pub next_seq: u64,
    /// The events that are kept, oldest first.
    pub ring: Seq<EventView>,
    pub cap: usize,
}

/// The events in `ring` that came after the one with the number `since`.
pub open spec fn after(ring: Seq<EventView>, since: u64) -> Seq<EventView> {
    ring.filter(|e: EventView| e.seq > since)
}

/// What stays in the ring when one more event comes in: all but the oldest
/// where the ring is full. A ring with no room at all never lets go of any.
pub open spec fn kept(ring: Seq<EventView>, cap: usize) -> Seq<EventView> {
    if ring.len() == cap && cap > 0 {
        ring.drop_first()
    } else {
        ring
    }
}

impl EventLogView {
    /// The log holds no more than it has room for, and the events in it are
    /// the last ones, numbered without a gap.
    pub open spec fn sound(self) -> bool {
        &&& self.next_seq >= 1
        &&& self.cap > 0 ==> self.ring.len() <= self.cap
        &&& self.ring.len() < self.next_seq
        &&& forall|i: int|
            0 <= i < self.ring.len() ==> (#[trigger] self.ring[i]).seq == self.next_seq
                - self.ring.len() + i
    }

    /// The log after one more event.
    pub open spec fn pushed(
        self,
        time: SystemTime,
        subject: Option<Seq<char>>,
        severity: Severity,
        kind: Seq<char>,
        message: Seq<char>,
    ) -> Self {
        EventLogView {
            next_seq: (self.next_seq + 1) as u64,
            ring: kept(self.ring, self.cap).push(
                EventView { seq: self.next_seq, time, subject, severity, kind, message },
            ),
            cap: self.cap,
        }
    }

    /// The log after one notice.
    pub open spec fn noted(self, time: SystemTime, n: NoticeView) -> Self {
        self.pushed(time, n.subject, n.severity, n.kind, n.message)
    }

    /// The log after the notices, each noted at its time.
    pub open spec fn recorded(self, notices: Seq<NoticeView>, times: Seq<SystemTime>) -> Self
        decreases notices.len(),
    {
        if notices.len() == 0 {
            self
        } else {
            self.recorded(notices.drop_last(), times.drop_last()).noted(
                times.last(),
                notices.last(),
            )
        }
    }

    /// The log only ever grows at its end and forgets at its start: after a
    /// push it is sound again, the new event is its last, and what it still
    /// holds besides are the latest of the events it held.
    pub proof fn push_keeps_latest(
        self,
        time: SystemTime,
        subject: Option<Seq<char>>,
        severity: Severity,
        kind: Seq<char>,
        message: Seq<char>,
    )
        requires
            self.sound(),
            self.next_seq < u64::MAX,
        ensures
            ({
                let new = self.pushed(time, subject, severity, kind, message);
                &&& new.sound()
                &&& new.ring.last() == (EventView {
                    seq: self.next_seq,
                    time,
                    subject,
                    severity,
                    kind,
                    message,
                })
                &&& new.ring.drop_last() == self.ring.skip(
                    self.ring.len() - (new.ring.len() - 1),
                )
            }),
    {
        let new = self.pushed(time, subject, severity, kind, message);
        assert(new.ring.drop_last() =~= kept(self.ring, self.cap));
        assert(kept(self.ring, self.cap) =~= self.ring.skip(
            self.ring.len() - (new.ring.len() - 1),
        ));
    }
}

impl View for EventLog {
    type V = EventLogView;

    closed spec fn view(&self) -> EventLogView {
        EventLogView {
            next_seq: self.next_seq,
            ring: Seq::new(self.ring@.len(), |i: int| self.ring@[i]@),
            cap: self.cap,
        }
    }
}

impl EventLog {
    #[verifier::type_invariant]
    closed spec fn numbered(self) -> bool {
        self@.sound()
    }

    /// An empty log with room for `cap` events.
    pub fn new(cap: usize) -> (r: Self)
        ensures
            r@ == (EventLogView { next_seq: 1, ring: Seq::empty(), cap }),
            r@.sound(),
    {
        let ring: VecDeque<Event> = VecDeque::with_capacity(if cap < 1024 { cap } else { 1024 });
        let r = EventLog { next_seq: 1, ring, cap };
        assert(r@.ring =~= Seq::<EventView>::empty());
        r
    }

    /// Notes what happened at `time`, and gives back the number of the event.
    pub fn push_at(
        &mut self,
        time: SystemTime,
        subject: Option<String>,
        severity: Severity,
        kind: &str,
        message: String,
    ) -> (seq: u64)
        requires
            old(self)@.next_seq < u64::MAX,
        ensures
            seq == old(self)@.next_seq,
            final(self)@.sound(),
            final(self)@ == old(self)@.pushed(
                time,
                subject.deep_view(),
                severity,
                kind@,
                message@,
            ),
    {
        proof {
            use_type_invariant(&*self);
        }
        let ghost before = self@;
        let ghost after = before.pushed(time, subject.deep_view(), severity, kind@, message@);
        let seq: u64 = self.next_seq;
        let cap: usize = self.cap;
        let mut ring: VecDeque<Event> = VecDeque::new();
        std::mem::swap(&mut ring, &mut self.ring);
        if ring.len() == cap {
            let _ = ring.pop_front();
        }
        let event = Event { seq, time, subject, severity, kind: text::owned(kind), message };
        ring.push_back(event);
        proof {
            assert(Seq::new(ring@.len(), |i: int| ring@[i]@) =~= after.ring);
            before.push_keeps_latest(time, subject.deep_view(), severity, kind@, message@);
        }
        *self = EventLog { next_seq: seq + 1, ring, cap };
        seq
    }

    /// Notes what happened just now, and gives back the number of the event.
    pub fn push(
        &mut self,
        subject: Option<String>,
        severity: Severity,
        kind: &str,
        message: String,
    ) -> (seq: u64)
        requires
            old(self)@.next_seq < u64::MAX,
        ensures
            seq == old(self)@.next_seq,
            final(self)@.sound(),
            exists|time: SystemTime|
                final(self)@ == #[trigger] old(self)@.pushed(
                    time,
                    subject.deep_view(),
                    severity,
                    kind@,
                    message@,
                ),
    {
        self.push_at(clock::now(), subject, severity, kind, message)
    }

    /// Notes each of the notices in turn.
    pub fn record(&mut self, notices: Vec<Notice>)
        requires
            old(self)@.next_seq + notices.len() <= u64::MAX,
        ensures
            final(self)@.sound(),
            exists|times: Seq<SystemTime>|
                times.len() == notices.deep_view().len() && final(self)@
                    == #[trigger] old(self)@.recorded(notices.deep_view(), times),
    {
        let ghost all = notices.deep_view();
        let ghost before = self@;
        let ghost mut times: Seq<SystemTime> = Seq::empty();
        let mut i: usize = 0;
        while i < notices.len()
            invariant
                i <= notices.len(),
                all == notices.deep_view(),
                times.len() == i,
                before.next_seq + notices.len() <= u64::MAX,
                self@.next_seq == before.next_seq + i,
                self@ == before.recorded(all.take(i as int), times),
            decreases notices.len() - i,
        {
            let n: &Notice = &notices[i];
            let ghost was = self@;
            let _ = self.push(n.subject.dup(), n.severity, n.kind.as_str(), n.message.clone());
            proof {
                let time = choose|time: SystemTime|
                    self@ == #[trigger] was.pushed(
                        time,
                        n@.subject,
                        n@.severity,
                        n@.kind,
                        n@.message,
                    );
                let longer = times.push(time);
                assert(longer.drop_last() =~= times);
                assert(all.take(i + 1).drop_last() =~= all.take(i as int));
                assert(all.take(i + 1).last() == n@);
                times = longer;
            }
            i = i + 1;
        }
        assert(all.take(i as int) =~= all);
        assert(self@ == before.recorded(all, times));
        proof {
            use_type_invariant(&*self);
        }
    }

    /// The events that are kept and came after the one with the number `since`.
    pub fn since(&self, since: u64) -> (r: Vec<Event>)
        ensures
            r.deep_view() == after(self@.ring, since),
            self@.sound(),
    {
        proof {
            use_type_invariant(self);
        }
        let mut r: Vec<Event> = Vec::new();
        let ghost ring = self@.ring;
        let mut i: usize = 0;
        assert(r.deep_view() =~= after(ring.take(0), since));
        while i < self.ring.len()
            invariant
                i <= self.ring@.len(),
                ring == self@.ring,
                r.deep_view() == after(ring.take(i as int), since),
            decreases self.ring@.len() - i,
        {
            let e: &Event = &self.ring[i];
            let ghost was = r.deep_view();
            proof {
                assert(ring.take(i + 1).drop_last() =~= ring.take(i as int));
                assert(ring.take(i + 1).last() == e@);
                reveal(Seq::filter);
            }
            if e.seq > since {
                r.push(e.dup());
                assert(r.deep_view() =~= was.push(e@));
            }
            i = i + 1;
        }
        assert(ring.take(i as int) =~= ring);
        r
    }

    /// The number of the last event; zero where there was none.
    pub fn latest_seq(&self) -> (r: u64)
        ensures
            r == self@.next_seq - 1,
            self@.sound(),
    {
        proof {
            use_type_invariant(self);
        }
        self.next_seq - 1
    }
}

/// A notice about a node or volume.
pub fn notice(subject: &str, severity: Severity, kind: &str, message: String) -> (r: Notice)
    ensures
        r@ == (NoticeView { subject: Some(subject@), severity, kind: kind@, message: message@ }),
{
    Notice { subject: Some(text::owned(subject)), severity, kind: text::owned(kind), message }
}

/// The events after a number are those of the kept ones that come after it in
/// the ring: none is left out, and none before it is given.
pub proof fn after_is_a_tail(log: EventLogView, since: u64)
    requires
        log.sound(),
    ensures
        after(log.ring, since) == log.ring.skip(
            if since < log.next_seq - log.ring.len() {
                0
            } else if since >= log.next_seq {
                log.ring.len() as int
            } else {
                since - (log.next_seq - log.ring.len()) + 1
            },
        ),
{
    tail_of(log.ring, (log.next_seq - log.ring.len()) as int, since);
}

proof fn tail_of(ring: Seq<EventView>, first: int, since: u64)
    requires
        forall|i: int| 0 <= i < ring.len() ==> (#[trigger] ring[i]).seq == first + i,
    ensures
        after(ring, since) == ring.skip(
            if since < first {
                0
            } else if since >= first + ring.len() {
                ring.len() as int
            } else {
                since - first + 1
            },
        ),
    decreases ring.len(),
{
    reveal(Seq::filter);
    if ring.len() > 0 {
        tail_of(ring.drop_last(), first, since);
        let rest = after(ring.drop_last(), since);
        assert(ring =~= ring.drop_last().push(ring.last()));
        if ring.last().seq > since {
            assert(after(ring, since) =~= rest.push(ring.last()));
        } else {
            assert(after(ring, since) =~= rest);
        }
    } else {
        assert(after(ring, since) =~= Seq::<EventView>::empty());
    }
    assert(after(ring, since) =~= ring.skip(
        if since < first {
            0
        } else if since >= first + ring.len() {
            ring.len() as int
        } else {
            since - first + 1
        },
    ));
}

} // verus!
