//! What the outside world answers to a driver, as specifications see it.

use vstd::prelude::*;

use crate::transport::IoEvent;

verus! {

/// A stretch of events between a driver and its surroundings: the transport operations
/// with their outcomes, and the clock readings, each in order.
#[verifier::ext_equal]
pub struct Feed {
    /// Transport operations.
    pub io: Seq<IoEvent>,
    /// Clock readings in milliseconds.
    pub clock: Seq<u64>,
}

impl Feed {
    /// Nothing happens.
    pub open spec fn nothing() -> Feed {
        Feed { io: Seq::empty(), clock: Seq::empty() }
    }

    /// This stretch, and `later` behind it.
    pub open spec fn followed_by(self, later: Feed) -> Feed {
        Feed { io: self.io + later.io, clock: self.clock + later.clock }
    }

    /// What is left after the first transport operation.
    pub open spec fn after_io(self) -> Feed {
        Feed { io: self.io.drop_first(), clock: self.clock }
    }

    /// What is left after the first clock reading.
    pub open spec fn after_clock(self) -> Feed {
        Feed { io: self.io, clock: self.clock.drop_first() }
    }
}

/// The bytes that were read, in order.
pub open spec fn bytes_read(io: Seq<IoEvent>) -> Seq<u8>
    decreases io.len(),
{
    if io.len() == 0 {
        Seq::empty()
    } else {
        let first = match io[0] {
            IoEvent::Read(Ok(more)) => more,
            _ => Seq::empty(),
        };
        first + bytes_read(io.drop_first())
    }
}

/// Nothing but reads that succeed, which bring `bytes` between them, in pieces of any
/// length.
pub open spec fn delivers(io: Seq<IoEvent>, bytes: Seq<u8>) -> bool {
    &&& forall|i: int|
        0 <= i < io.len() ==> (#[trigger] io[i]) is Read && io[i]->Read_0 is Ok
    &&& bytes_read(io) == bytes
}

/// What is delivered after a first read.
pub proof fn lemma_delivers(io: Seq<IoEvent>, bytes: Seq<u8>)
    requires
        delivers(io, bytes),
        io.len() > 0,
    ensures
        io[0] is Read,
        io[0]->Read_0 is Ok,
        delivers(io.drop_first(), bytes_read(io.drop_first())),
        bytes == io[0]->Read_0->Ok_0 + bytes_read(io.drop_first()),
{
    let rest = io.drop_first();
    assert forall|i: int| 0 <= i < rest.len() implies (#[trigger] rest[i]) is Read
        && rest[i]->Read_0 is Ok by {
        assert(rest[i] == io[i + 1]);
    }
}

/// One transport operation.
pub open spec fn one_io(e: IoEvent) -> Feed {
    Feed { io: seq![e], clock: Seq::empty() }
}

/// One clock reading.
pub open spec fn one_reading(now: u64) -> Feed {
    Feed { io: Seq::empty(), clock: seq![now] }
}

/// Stretches can be joined in any grouping, and joining nothing changes nothing.
pub proof fn lemma_followed_by(a: Feed, b: Feed, c: Feed)
    ensures
        a.followed_by(b).followed_by(c) == a.followed_by(b.followed_by(c)),
        a.followed_by(Feed::nothing()) == a,
        Feed::nothing().followed_by(a) == a,
{
    assert(a.followed_by(b).followed_by(c) =~= a.followed_by(b.followed_by(c)));
    assert(a.followed_by(Feed::nothing()) =~= a);
    assert(Feed::nothing().followed_by(a) =~= a);
}

/// Taking the first operation or reading off a stretch that begins with it.
pub proof fn lemma_first(e: IoEvent, now: u64, rest: Feed)
    ensures
        one_io(e).followed_by(rest).io.len() > 0,
        one_io(e).followed_by(rest).io[0] == e,
        one_io(e).followed_by(rest).after_io() == rest,
        one_io(e).followed_by(rest).clock == rest.clock,
        one_reading(now).followed_by(rest).clock.len() > 0,
        one_reading(now).followed_by(rest).clock[0] == now,
        one_reading(now).followed_by(rest).after_clock() == rest,
        one_reading(now).followed_by(rest).io == rest.io,
{
    assert(one_io(e).followed_by(rest).after_io() =~= rest);
    assert(one_io(e).followed_by(rest).clock =~= rest.clock);
    assert(one_reading(now).followed_by(rest).after_clock() =~= rest);
    assert(one_reading(now).followed_by(rest).io =~= rest.io);
}

/// Events are taken from the front, one at a time and each kind on its own; joining puts
/// the later ones behind. What is read is every byte of every read that succeeds, in order.
pub proof fn law_events_are_taken_in_order(a: Feed, b: Feed, e: IoEvent, now: u64)
    ensures
        a.followed_by(b).io == a.io + b.io,
        a.followed_by(b).clock == a.clock + b.clock,
        a.io.len() > 0 ==> seq![a.io[0]] + a.after_io().io == a.io,
        a.after_io().clock == a.clock,
        a.clock.len() > 0 ==> seq![a.clock[0]] + a.after_clock().clock == a.clock,
        a.after_clock().io == a.io,
        Feed::nothing().io.len() == 0,
        Feed::nothing().clock.len() == 0,
        one_io(e).io == seq![e],
        one_io(e).clock.len() == 0,
        one_reading(now).clock == seq![now],
        one_reading(now).io.len() == 0,
        bytes_read(Seq::empty()) == Seq::<u8>::empty(),
        bytes_read(seq![e] + a.io) == (match e {
            IoEvent::Read(Ok(more)) => more,
            _ => Seq::empty(),
        }) + bytes_read(a.io),
        delivers(a.io, bytes_read(a.io)) <==> forall|i: int|
            0 <= i < a.io.len() ==> (#[trigger] a.io[i]) is Read && a.io[i]->Read_0 is Ok,
{
    assert(a.io.len() > 0 ==> seq![a.io[0]] + a.after_io().io =~= a.io);
    assert(a.clock.len() > 0 ==> seq![a.clock[0]] + a.after_clock().clock =~= a.clock);
    assert((seq![e] + a.io).drop_first() =~= a.io);
}

} // verus!
