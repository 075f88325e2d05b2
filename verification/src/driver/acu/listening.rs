//! How long the ACU listens, and what it hears.

use vstd::prelude::*;

use crate::bytes;
use crate::driver::acu::laws;
use crate::driver::acu::model::{self, Heard, MAX_EMPTY_READS, MAX_READS};
use crate::driver::acu::state;
use crate::driver::acu::steps::ReplyFrame;
use crate::driver::feed::{self, Feed};
use crate::error::Error;
use crate::packet::codec;
use crate::packet::codec::PacketView;
use crate::reply::ReplyCode;
use crate::transport::IoEvent;
use crate::SOM;

verus! {

/// A read that brings nothing.
pub open spec fn is_quiet(e: IoEvent) -> bool {
    e == IoEvent::Read(Ok::<Seq<u8>, Error>(Seq::empty()))
}

/// Read `k` is the last of four in a row that bring nothing.
pub open spec fn ends_a_silence(io: Seq<IoEvent>, k: int) -> bool {
    3 <= k < io.len() && is_quiet(io[k]) && is_quiet(io[k - 1]) && is_quiet(io[k - 2]) && is_quiet(
        io[k - 3],
    )
}

/// After read `k` there is no time left: the reply delay is over, four reads in a row have
/// brought nothing, or there have been as many reads as the longest packet has bytes.
pub open spec fn is_over(feed: Feed, k: int, delay: u32) -> bool {
    ||| state::elapsed(feed.clock[k + 1], feed.clock[0]) >= delay
    ||| ends_a_silence(feed.io, k)
    ||| k + 1 >= 1440
}

/// `empty` reads in a row, up to read `k`, have brought nothing.
spec fn counts(io: Seq<IoEvent>, k: int, empty: nat) -> bool {
    &&& empty <= k <= io.len()
    &&& forall|i: int| k - empty <= i < k ==> is_quiet(#[trigger] io[i])
    &&& empty < k ==> !is_quiet(io[k - empty - 1])
}

/// What is left of `feed` after its first `k` reads.
spec fn left(feed: Feed, k: int) -> Feed {
    Feed { io: feed.io.skip(k), clock: feed.clock.skip(k + 1) }
}

/// One read more in the count.
proof fn lemma_counts(io: Seq<IoEvent>, k: int, empty: nat)
    requires
        counts(io, k, empty),
        empty < 4,
        k < io.len(),
        io[k] is Read,
        io[k]->Read_0 is Ok,
    ensures
        ({
            let empty1 = model::empty_reads(empty, io[k]->Read_0->Ok_0);
            &&& counts(io, k + 1, empty1)
            &&& ends_a_silence(io, k) <==> empty1 >= MAX_EMPTY_READS
        }),
{
    let more = io[k]->Read_0->Ok_0;
    let empty1 = model::empty_reads(empty, more);
    if more.len() == 0 {
        assert(more =~= Seq::<u8>::empty());
        assert(is_quiet(io[k]));
    } else {
        assert(!is_quiet(io[k]));
    }
    assert forall|i: int| k + 1 - empty1 <= i < k + 1 implies is_quiet(#[trigger] io[i]) by {
        if i < k {
            assert(k - empty <= i);
        }
    }
    if empty1 == 4 {
        assert(is_quiet(io[k - 1]) && is_quiet(io[k - 2]) && is_quiet(io[k - 3]));
    }
}

/// What is left after one read more.
proof fn lemma_left(feed: Feed, k: int)
    requires
        0 <= k < feed.io.len(),
        k < feed.clock.len(),
    ensures
        left(feed, k).io.len() > 0,
        left(feed, k).io[0] == feed.io[k],
        left(feed, k).after_io() == (Feed {
            io: feed.io.skip(k + 1),
            clock: feed.clock.skip(k + 1),
        }),
        left(feed, k).clock.len() == feed.clock.len() - k - 1,
        k + 1 < feed.clock.len() ==> left(feed, k).clock[0] == feed.clock[k + 1],
        k + 1 < feed.clock.len() ==> left(feed, k).after_io().after_clock() == left(feed, k + 1),
{
    assert(left(feed, k).after_io().io =~= feed.io.skip(k + 1));
    if k + 1 < feed.clock.len() {
        assert(left(feed, k).after_io().after_clock() =~= left(feed, k + 1));
    }
}

/// Nothing that is found wrong in received bytes is taken for a timeout.
proof fn lemma_scan_error_is_no_timeout(rx: Seq<u8>)
    ensures
        model::scan_reply(rx).0 != Err::<Option<ReplyFrame>, Error>(Error::Timeout),
    decreases rx.len(),
{
    bytes::lemma_first_index(rx, SOM);
    let at = bytes::first_index(rx, SOM) as int;
    if at < rx.len() {
        lemma_scan_error_is_no_timeout(rx.skip(at).skip(1));
    }
}

/// The read that ends listening, the ones before it, and what is left.
pub open spec fn lasts(feed: Feed, from: int, n: int, delay: u32, h: Heard) -> bool {
    &&& from < n <= feed.io.len()
    &&& n <= feed.clock.len()
    &&& h.rest.io == feed.io.skip(n)
    &&& forall|k: int|
        from <= k < n - 1 ==> {
            &&& (#[trigger] feed.io[k]) is Read
            &&& feed.io[k]->Read_0 is Ok
            &&& !is_over(feed, k, delay)
        }
    &&& feed.io[n - 1] is Read
    &&& match feed.io[n - 1]->Read_0 {
        Err(e) => h.outcome == Err::<ReplyFrame, Error>(e) && h.rest.clock == feed.clock.skip(n),
        Ok(_) => if h.outcome == Err::<ReplyFrame, Error>(Error::Timeout) {
            &&& is_over(feed, n - 1, delay)
            &&& n < feed.clock.len()
            &&& h.rest.clock == feed.clock.skip(n + 1)
        } else {
            h.rest.clock == feed.clock.skip(n)
        },
    }
}

/// How long listening lasts from read `k` on.
proof fn lemma_listen_lasts(feed: Feed, k: int, rx: Seq<u8>, empty: nat, delay: u32) -> (n: int)
    requires
        0 <= k < MAX_READS,
        k < feed.clock.len(),
        counts(feed.io, k, empty),
        empty < 4,
        model::listen(rx, feed.clock[0], empty, k as nat, delay, left(feed, k)) is Some,
    ensures
        lasts(
            feed,
            k,
            n,
            delay,
            model::listen(rx, feed.clock[0], empty, k as nat, delay, left(feed, k))->0,
        ),
    decreases feed.io.len() - k,
{
    let now = left(feed, k);
    assert(now.io.len() > 0);
    assert(k < feed.io.len());
    lemma_left(feed, k);
    let h = model::listen(rx, feed.clock[0], empty, k as nat, delay, now)->0;
    if feed.io[k]->Read_0 is Err {
        k + 1
    } else {
        let more = feed.io[k]->Read_0->Ok_0;
        let (found, rx1) = model::scan_reply(rx + more);
        let empty1 = model::empty_reads(empty, more);
        lemma_counts(feed.io, k, empty);
        lemma_scan_error_is_no_timeout(rx + more);
        if found != Ok::<Option<ReplyFrame>, Error>(None) {
            k + 1
        } else {
            assert(k + 1 < feed.clock.len());
            assert(model::time_is_up(feed.clock[k + 1], feed.clock[0], delay, empty1, (k + 1) as nat)
                == is_over(feed, k, delay));
            if is_over(feed, k, delay) {
                assert(h.rest.clock =~= feed.clock.skip(k + 2));
                k + 1
            } else {
                lemma_listen_lasts(feed, k + 1, rx1, empty1, delay)
            }
        }
    }
}

/// Listening lasts exactly as long as it may. Every read but the last has succeeded, and
/// after it there was time left: the clock did not show the reply delay to be over, not the
/// last four reads in a row had brought nothing, and there had been fewer reads than the
/// longest packet has bytes. A timeout comes only where, after the last read, one of the
/// three holds, or where the transport itself reports one; another failure of the transport
/// is reported as it is. The clock is read once before the first read, and once after every
/// read that completes nothing. What comes after is left.
///
/// The number of reads is returned.
pub proof fn law_listening_lasts_as_long_as_it_may(
    rx: Seq<u8>,
    delay: u32,
    feed: Feed,
    h: Heard,
) -> (n: int)
    requires
        model::hear(rx, delay, feed) == Some(h),
    ensures
        model::scan_reply(rx).0 != Ok::<Option<ReplyFrame>, Error>(None) ==> {
            &&& n == 0
            &&& h.rest.io == feed.io
            &&& h.rest.clock == feed.clock.skip(1)
            &&& h.outcome != Err::<ReplyFrame, Error>(Error::Timeout)
        },
        model::scan_reply(rx).0 == Ok::<Option<ReplyFrame>, Error>(None) ==> lasts(
            feed,
            0,
            n,
            delay,
            h,
        ),
{
    lemma_scan_error_is_no_timeout(rx);
    assert(feed.clock.skip(1) =~= feed.clock.drop_first());
    if model::scan_reply(rx).0 == Ok::<Option<ReplyFrame>, Error>(None) {
        assert(left(feed, 0) =~= feed.after_clock());
        lemma_listen_lasts(feed, 0, model::scan_reply(rx).1, 0, delay)
    } else {
        0
    }
}

/// Reads that leave time until the last of them completes something.
proof fn lemma_listen_reaches(
    feed: Feed,
    k: int,
    rx: Seq<u8>,
    empty: nat,
    delay: u32,
    bytes: Seq<u8>,
    before: Seq<u8>,
)
    requires
        0 <= k < feed.io.len() <= MAX_READS,
        feed.io.len() <= feed.clock.len(),
        counts(feed.io, k, empty),
        empty < 4,
        feed::delivers(feed.io.skip(k), bytes),
        before == feed::bytes_read(feed.io.skip(k).drop_last()),
        forall|j: int| k <= j < feed.io.len() - 1 ==> !#[trigger] is_over(feed, j, delay),
        k + 1 < feed.io.len() ==> model::scan_reply(rx + before).0 == Ok::<
            Option<ReplyFrame>,
            Error,
        >(None),
        model::scan_reply(rx + bytes).0 != Ok::<Option<ReplyFrame>, Error>(None),
    ensures
        model::listen(rx, feed.clock[0], empty, k as nat, delay, left(feed, k)) == Some(
            Heard {
                outcome: match model::scan_reply(rx + bytes).0 {
                    Ok(f) => Ok(f->0),
                    Err(e) => Err(e),
                },
                rx: model::scan_reply(rx + bytes).1,
                rest: Feed {
                    io: Seq::empty(),
                    clock: feed.clock.skip(feed.io.len() as int),
                },
            },
        ),
    decreases feed.io.len() - k,
{
    lemma_left(feed, k);
    let io = feed.io.skip(k);
    let rest = io.drop_first();
    assert(rest =~= feed.io.skip(k + 1));
    feed::lemma_delivers(io, bytes);
    let more = io[0]->Read_0->Ok_0;
    assert(rx + bytes =~= rx + more + feed::bytes_read(rest));
    if k + 1 == feed.io.len() {
        assert(rest =~= Seq::<IoEvent>::empty());
        assert(rx + more + feed::bytes_read(rest) =~= rx + more);
        assert(left(feed, k).after_io() =~= (Feed {
            io: Seq::empty(),
            clock: feed.clock.skip(feed.io.len() as int),
        }));
    } else {
        let earlier = rest.drop_last();
        assert(io.drop_last().drop_first() =~= earlier);
        assert(io.drop_last()[0] == io[0]);
        assert(rx + before =~= rx + more + feed::bytes_read(earlier));
        laws::lemma_scan_resumes(rx + more, feed::bytes_read(earlier));
        laws::lemma_scan_resumes(rx + more, feed::bytes_read(rest));
        lemma_counts(feed.io, k, empty);
        let (found, rx1) = model::scan_reply(rx + more);
        let empty1 = model::empty_reads(empty, more);
        assert(!is_over(feed, k, delay));
        assert(!model::time_is_up(
            feed.clock[k + 1],
            feed.clock[0],
            delay,
            empty1,
            (k + 1) as nat,
        ));
        lemma_listen_reaches(
            feed,
            k + 1,
            rx1,
            empty1,
            delay,
            feed::bytes_read(rest),
            feed::bytes_read(earlier),
        );
    }
}

/// What is completed in time is heard. If the reads of a stretch bring `bytes` between them,
/// in pieces of any length with pauses between them, if nothing is complete before the last
/// read and something after it, and if there was time left after every read before it, then
/// listening takes all these reads and ends with exactly what stands first in the bytes
/// received. What stands behind it is kept.
pub proof fn law_what_is_complete_in_time_is_heard(
    rx: Seq<u8>,
    delay: u32,
    feed: Feed,
    bytes: Seq<u8>,
)
    requires
        0 < feed.io.len() <= 1440,
        feed.io.len() <= feed.clock.len(),
        feed::delivers(feed.io, bytes),
        forall|k: int| 0 <= k < feed.io.len() - 1 ==> !#[trigger] is_over(feed, k, delay),
        model::scan_reply(rx + feed::bytes_read(feed.io.drop_last())).0 == Ok::<
            Option<ReplyFrame>,
            Error,
        >(None),
        model::scan_reply(rx + bytes).0 != Ok::<Option<ReplyFrame>, Error>(None),
    ensures
        model::hear(rx, delay, feed) == Some(
            Heard {
                outcome: match model::scan_reply(rx + bytes).0 {
                    Ok(f) => Ok(f->0),
                    Err(e) => Err(e),
                },
                rx: model::scan_reply(rx + bytes).1,
                rest: Feed {
                    io: Seq::empty(),
                    clock: feed.clock.skip(feed.io.len() as int),
                },
            },
        ),
{
    let before = feed::bytes_read(feed.io.drop_last());
    let rx1 = model::scan_reply(rx).1;
    laws::lemma_scan_resumes(rx, before);
    laws::lemma_scan_resumes(rx, bytes);
    assert(feed.io.skip(0) =~= feed.io);
    assert(left(feed, 0) =~= feed.after_clock());
    lemma_listen_reaches(feed, 0, rx1, 0, delay, bytes, before);
}

/// A reply of any length that the bus allows is heard by one call, behind any noise and in
/// pieces of any length, whatever pauses there are between them: it is enough that no four
/// reads in a row bring nothing, that no look at the clock before the last read finds the
/// reply delay to be over, and that there are no more reads than the longest packet has
/// bytes.
pub proof fn law_reply_with_pauses_is_heard(
    noise: Seq<u8>,
    p: PacketView,
    code: ReplyCode,
    delay: u32,
    feed: Feed,
)
    requires
        laws::is_noise(noise),
        codec::frame_well_formed(p),
        p.code == code.spec_byte(),
        0 < feed.io.len() <= 1440,
        feed.io.len() <= feed.clock.len(),
        feed::delivers(feed.io, codec::frame_bytes(p)),
        !is_quiet(feed.io.last()),
        forall|k: int| 0 <= k < feed.io.len() - 1 ==> !#[trigger] ends_a_silence(feed.io, k),
        forall|i: int|
            0 < i < feed.io.len() ==> state::elapsed(#[trigger] feed.clock[i], feed.clock[0])
                < delay,
    ensures
        model::hear(noise, delay, feed) == Some(
            Heard {
                outcome: Ok(
                    ReplyFrame {
                        code,
                        sqn: p.ctrl.sqn,
                        scb: p.scb,
                        data: p.data,
                        raw: codec::frame_bytes(p),
                    },
                ),
                rx: Seq::empty(),
                rest: Feed {
                    io: Seq::empty(),
                    clock: feed.clock.skip(feed.io.len() as int),
                },
            },
        ),
{
    let f = codec::frame_bytes(p);
    let none = Seq::<u8>::empty();
    let before = feed::bytes_read(feed.io.drop_last());
    laws::law_reply_is_found_behind_noise(noise, p, code, none);
    assert(noise + f + none =~= noise + f);
    lemma_last_read(feed.io);
    let last = feed.io.last()->Read_0->Ok_0;
    assert(last.len() > 0) by {
        if last.len() == 0 {
            assert(last =~= none);
        }
    }
    assert(before =~= f.take(before.len() as int)) by {
        assert(f == before + last);
    }
    laws::lemma_part_waits(p, before.len() as int);
    laws::lemma_noise_waits(noise, before);
    assert forall|k: int| 0 <= k < feed.io.len() - 1 implies !#[trigger] is_over(
        feed,
        k,
        delay,
    ) by {
        assert(!ends_a_silence(feed.io, k));
        assert(state::elapsed(feed.clock[k + 1], feed.clock[0]) < delay);
    }
    law_what_is_complete_in_time_is_heard(noise, delay, feed, f);
}

/// The bytes read are those of the reads before the last, and then its own.
proof fn lemma_last_read(io: Seq<IoEvent>)
    requires
        io.len() > 0,
        feed::delivers(io, feed::bytes_read(io)),
    ensures
        io.last() is Read,
        io.last()->Read_0 is Ok,
        feed::bytes_read(io) == feed::bytes_read(io.drop_last()) + io.last()->Read_0->Ok_0,
    decreases io.len(),
{
    feed::lemma_delivers(io, feed::bytes_read(io));
    let rest = io.drop_first();
    if io.len() == 1 {
        assert(rest =~= Seq::<IoEvent>::empty());
        assert(io.drop_last() =~= Seq::<IoEvent>::empty());
        assert(feed::bytes_read(io) =~= io[0]->Read_0->Ok_0);
        assert(feed::bytes_read(io.drop_last()) + io.last()->Read_0->Ok_0
            =~= io[0]->Read_0->Ok_0);
    } else {
        lemma_last_read(rest);
        assert(io.drop_last().drop_first() =~= rest.drop_last());
        assert(io.drop_last()[0] == io[0]);
        assert(rest.last() == io.last());
        assert(feed::bytes_read(io) =~= feed::bytes_read(io.drop_last())
            + io.last()->Read_0->Ok_0);
    }
}

/// Bytes are gone through frame by frame, from the first start byte on. What stands before
/// it is dropped once a frame has begun. A frame that is not there whole yet is waited for.
/// One whose trailer is wrong is no frame, and costs its start byte alone: a reply that
/// follows it is found. A frame that is right is handed out with its fields, and what follows
/// it is kept. Anything else wrong with a frame, and a code that no reply has, is reported,
/// and the bytes are kept from that frame on.
#[verifier::rlimit(50)]
pub proof fn law_bytes_are_scanned_frame_by_frame(noise: Seq<u8>, buf: Seq<u8>)
    requires
        forall|i: int| 0 <= i < noise.len() ==> noise[i] != 0x53,
    ensures
        model::scan_reply(noise) == (Ok::<Option<ReplyFrame>, Error>(None), noise),
        buf.len() > 0 && buf[0] == 0x53 ==> model::scan_reply(noise + buf) == match codec::parse_frame(
            buf,
        ) {
            Err(Error::Truncated { .. }) => (Ok::<Option<ReplyFrame>, Error>(None), buf),
            Err(Error::BadCrc { .. }) => model::scan_reply(buf.skip(1)),
            Err(Error::BadChecksum { .. }) => model::scan_reply(buf.skip(1)),
            Err(e) => (Err(e), buf),
            Ok((p, used)) => match ReplyCode::spec_from_byte(p.code) {
                Err(e) => (Err(e), buf),
                Ok(code) => (
                    Ok(
                        Some(
                            ReplyFrame {
                                code,
                                sqn: p.ctrl.sqn,
                                scb: p.scb,
                                data: p.data,
                                raw: buf.take(used),
                            },
                        ),
                    ),
                    buf.skip(used),
                ),
            },
        },
{
    bytes::lemma_first_index_is(noise, SOM, noise.len());
    if buf.len() > 0 && buf[0] == 0x53 {
        let all = noise + buf;
        assert forall|i: int| 0 <= i < noise.len() implies all[i] != SOM by {
            assert(all[i] == noise[i]);
        }
        bytes::lemma_first_index_is(all, SOM, noise.len());
        assert(all.skip(noise.len() as int) =~= buf);
    }
}

/// The bytes of the first reads, one read at a time.
proof fn lemma_bytes_of_one_more(io: Seq<IoEvent>, k: int)
    requires
        0 <= k < io.len(),
    ensures
        feed::bytes_read(io.take(k + 1)) == feed::bytes_read(io.take(k)) + match io[k] {
            IoEvent::Read(Ok(more)) => more,
            _ => Seq::empty(),
        },
    decreases io.len(),
{
    let none = Seq::<u8>::empty();
    let taken = io.take(k + 1);
    assert(taken[0] == io[0]);
    assert(feed::bytes_read(Seq::<IoEvent>::empty()) =~= none);
    if k == 0 {
        assert(taken.drop_first() =~= Seq::<IoEvent>::empty());
        assert(io.take(0) =~= Seq::<IoEvent>::empty());
        assert(feed::bytes_read(taken) =~= feed::bytes_read(io.take(0)) + match io[0] {
            IoEvent::Read(Ok(more)) => more,
            _ => none,
        });
    } else {
        let rest = io.drop_first();
        lemma_bytes_of_one_more(rest, k - 1);
        assert(taken.drop_first() =~= rest.take(k));
        assert(io.take(k).drop_first() =~= rest.take(k - 1));
        assert(io.take(k)[0] == io[0]);
        assert(rest[k - 1] == io[k]);
        assert(feed::bytes_read(taken) =~= feed::bytes_read(io.take(k)) + match io[k] {
            IoEvent::Read(Ok(more)) => more,
            _ => none,
        });
    }
}

/// What listening from read `k` on finds and keeps.
proof fn lemma_listen_keeps(
    all: Seq<u8>,
    feed: Feed,
    k: int,
    rx: Seq<u8>,
    empty: nat,
    delay: u32,
    n: int,
)
    requires
        0 <= k <= feed.io.len(),
        model::scan_reply(all + feed::bytes_read(feed.io.take(k))) == (
            Ok::<Option<ReplyFrame>, Error>(None),
            rx,
        ),
        k < feed.clock.len(),
        model::listen(rx, feed.clock[0], empty, k as nat, delay, left(feed, k)) is Some,
        n == feed.io.len() - model::listen(
            rx,
            feed.clock[0],
            empty,
            k as nat,
            delay,
            left(feed, k),
        )->0.rest.io.len(),
    ensures
        ({
            let h = model::listen(rx, feed.clock[0], empty, k as nat, delay, left(feed, k))->0;
            let (found, kept) = model::scan_reply(all + feed::bytes_read(feed.io.take(n)));
            &&& k < n <= feed.io.len()
            &&& h.rx == kept
            &&& feed.io[n - 1] matches IoEvent::Read(Ok(_)) ==> match found {
                Ok(Some(f)) => h.outcome == Ok::<ReplyFrame, Error>(f),
                Ok(None) => h.outcome == Err::<ReplyFrame, Error>(Error::Timeout),
                Err(e) => h.outcome == Err::<ReplyFrame, Error>(e),
            }
        }),
    decreases feed.io.len() - k,
{
    assert(left(feed, k).io.len() > 0);
    lemma_left(feed, k);
    lemma_bytes_of_one_more(feed.io, k);
    let before = feed::bytes_read(feed.io.take(k));
    if let IoEvent::Read(Ok(more)) = feed.io[k] {
        let empty1 = model::empty_reads(empty, more);
        let (found, rx1) = model::scan_reply(rx + more);
        laws::lemma_scan_resumes(all + before, more);
        assert(all + feed::bytes_read(feed.io.take(k + 1)) =~= all + before + more);
        if found == Ok::<Option<ReplyFrame>, Error>(None) {
            if !model::time_is_up(
                feed.clock[k + 1],
                feed.clock[0],
                delay,
                empty1,
                (k + 1) as nat,
            ) {
                lemma_listen_keeps(all, feed, k + 1, rx1, empty1, delay, n);
            }
        }
    } else {
        assert(all + feed::bytes_read(feed.io.take(k + 1)) =~= all + before);
    }
}

/// Nothing that has been read is lost, however listening ends. With all the bytes of the
/// reads that it has taken, it ends with what stands first in them, or with a timeout if
/// nothing complete does, unless its last read failed; and what is kept is what scanning all
/// these bytes leaves, noise and the beginning of a frame among them.
pub proof fn law_listening_loses_nothing(rx: Seq<u8>, delay: u32, feed: Feed, h: Heard, n: int)
    requires
        model::hear(rx, delay, feed) == Some(h),
        n == feed.io.len() - h.rest.io.len(),
    ensures
        0 <= n <= feed.io.len(),
        ({
            let (found, kept) = model::scan_reply(rx + feed::bytes_read(feed.io.take(n)));
            &&& h.rx == kept
            &&& n == 0 || feed.io[n - 1] is Read && feed.io[n - 1]->Read_0 is Ok ==> match found {
                Ok(Some(f)) => h.outcome == Ok::<ReplyFrame, Error>(f),
                Ok(None) => h.outcome == Err::<ReplyFrame, Error>(Error::Timeout),
                Err(e) => h.outcome == Err::<ReplyFrame, Error>(e),
            }
        }),
{
    let none = Seq::<u8>::empty();
    assert(feed.io.take(0) =~= Seq::<IoEvent>::empty());
    assert(feed::bytes_read(feed.io.take(0)) =~= none);
    assert(rx + none =~= rx);
    let (found, rx1) = model::scan_reply(rx);
    if found == Ok::<Option<ReplyFrame>, Error>(None) {
        assert(left(feed, 0) =~= feed.after_clock());
        lemma_listen_keeps(rx, feed, 0, rx1, 0, delay, n);
    }
}

} // verus!
