//! The per-host entity: one hostname under measurement, its resolved address
//! lists, its per-family connect-time averages, and the outcome of the
//! connection race. The surrounding program performs the DNS lookups and TCP
//! connects; their results reach the entity here as plain values.

use vstd::prelude::*;
use crate::addr::Addr;
use crate::addr::ResolvedAddr;
use crate::addr::lemma_parts_take_step;
use crate::addr::strictly_sorted;
use crate::addr::v4_part;
use crate::addr::v6_part;
use crate::timing::average;
use crate::timing::avg_of;

verus! {

/// The typed condition a winning-connection query reports when the race
/// phase has not produced a winner for this host.
#[derive(Clone, Copy, Debug, PartialEq, Eq, Structural)]
pub enum RaceError {
    NotConnectedYet,
}

/// One hostname under measurement.
///
/// A live connection is represented by a numeric handle chosen by the caller
/// that opened it; the entity only records which handle won the race.
pub struct Domain {
    /// The hostname to probe; never changes after construction.
    pub url: String,
    /// Resolved IPv4 addresses; strictly sorted once a resolution phase ends.
    pub v4: Vec<Addr>,
    /// Resolved IPv6 addresses; strictly sorted once a resolution phase ends.
    pub v6: Vec<Addr>,
    /// Average IPv4 connect latency in nanoseconds, set by the timing phase.
    pub connect_time_v4: Option<u64>,
    /// Average IPv6 connect latency in nanoseconds, set by the timing phase.
    pub connect_time_v6: Option<u64>,
    /// Whether the race has found a first successful connection. Transitions
    /// false to true at most once and is never reset.
    pub connected: bool,
    /// The handle of the winning connection, present exactly when
    /// `connected` holds; no later attempt may overwrite it.
    pub stream: Option<u64>,
}

/// The earliest successful attempt in a completion-ordered record of
/// connection attempts: `Some(handle)` for a completed handshake, `None`
/// for a failed attempt.
pub open spec fn first_success(s: Seq<Option<u64>>) -> Option<u64>
    decreases s.len(),
{
    if s.len() == 0 {
        None
    } else if s[0] is Some {
        s[0]
    } else {
        first_success(s.drop_first())
    }
}

/// A race has a first success exactly when some attempt succeeded at all:
/// a host with at least one reachable address ends its race connected, with
/// that one winner retained.
pub proof fn lemma_first_success_exists(ev: Seq<Option<u64>>)
    ensures
        (first_success(ev) is Some) <==> (exists|i: int| 0 <= i < ev.len() && ev[i] is Some),
    decreases ev.len(),
{
    if ev.len() > 0 && !(ev[0] is Some) {
        lemma_first_success_exists(ev.drop_first());
        let t = ev.drop_first();
        if exists|i: int| 0 <= i < t.len() && t[i] is Some {
            let i = choose|i: int| 0 <= i < t.len() && t[i] is Some;
            assert(ev[i + 1] is Some);
        }
        if exists|i: int| 0 <= i < ev.len() && ev[i] is Some {
            let i = choose|i: int| 0 <= i < ev.len() && ev[i] is Some;
            assert(t[i - 1] is Some);
        }
    }
}

/// Where a race ends when it starts from the given winner state and the
/// remaining attempts complete as `rest` records: an already-claimed winner
/// is kept, otherwise the first success in `rest` is claimed, otherwise the
/// host stays unconnected.
pub open spec fn race_outcome(connected: bool, stream: Option<u64>, rest: Seq<Option<u64>>) -> (
    bool,
    Option<u64>,
) {
    if connected {
        (true, stream)
    } else if first_success(rest) is Some {
        (true, first_success(rest))
    } else {
        (false, stream)
    }
}

impl Domain {
    /// The entity's invariant: a winning connection exists exactly when the
    /// host is connected.
    pub open spec fn wf(self) -> bool {
        self.connected <==> self.stream is Some
    }

    /// An entity as it stands when its hostname has just been loaded from
    /// the batch source: nothing resolved, nothing timed, no winner.
    pub open spec fn fresh_for(self, url: String) -> bool {
        &&& self.url == url
        &&& self.v4@ == Seq::<Addr>::empty()
        &&& self.v6@ == Seq::<Addr>::empty()
        &&& self.connect_time_v4 is None
        &&& self.connect_time_v6 is None
        &&& !self.connected
        &&& self.stream is None
    }

    /// A fresh entity for a hostname just loaded from the batch source:
    /// nothing resolved, nothing timed, no winner.
    pub fn new(url: String) -> (d: Domain)
        ensures
            d.fresh_for(url),
            d.wf(),
    {
        Domain {
            url,
            v4: Vec::new(),
            v6: Vec::new(),
            connect_time_v4: None,
            connect_time_v6: None,
            connected: false,
            stream: None,
        }
    }

    pub fn get_url(&self) -> (r: &String)
        ensures
            r == &self.url,
    {
        &self.url
    }

    pub fn get_ipv4(&self) -> (r: &Vec<Addr>)
        ensures
            r@ == self.v4@,
    {
        &self.v4
    }

    pub fn get_ipv6(&self) -> (r: &Vec<Addr>)
        ensures
            r@ == self.v6@,
    {
        &self.v6
    }

    /// The winning connection's handle, or `NotConnectedYet` when queried
    /// before the race phase has produced a winner for this host.
    pub fn get_stream(&self) -> (r: Result<u64, RaceError>)
        requires
            self.wf(),
        ensures
            self.connected ==> r == Ok::<u64, RaceError>(self.stream->0),
            !self.connected ==> r == Err::<u64, RaceError>(RaceError::NotConnectedYet),
    {
        if !self.connected {
            Err(RaceError::NotConnectedYet)
        } else {
            match self.stream {
                Some(h) => Ok(h),
                None => Err(RaceError::NotConnectedYet),
            }
        }
    }

    /// Record what one resolution attempt returned: every answer is appended
    /// to the list of its family, in answer order, without deduplication.
    /// An attempt that failed contributes an empty answer and changes
    /// nothing. May be invoked once per attempt; canonicalization happens
    /// separately, once, after the last attempt.
    pub fn resolve(&mut self, answers: &Vec<ResolvedAddr>)
        ensures
            final(self).url == old(self).url,
            final(self).v4@ == old(self).v4@ + v4_part(answers@),
            final(self).v6@ == old(self).v6@ + v6_part(answers@),
            final(self).connect_time_v4 == old(self).connect_time_v4,
            final(self).connect_time_v6 == old(self).connect_time_v6,
            final(self).connected == old(self).connected,
            final(self).stream == old(self).stream,
    {
        let ghost orig = *self;
        let mut i: usize = 0;
        while i < answers.len()
            invariant
                i <= answers@.len(),
                self.url == orig.url,
                self.v4@ == orig.v4@ + v4_part(answers@.take(i as int)),
                self.v6@ == orig.v6@ + v6_part(answers@.take(i as int)),
                self.connect_time_v4 == orig.connect_time_v4,
                self.connect_time_v6 == orig.connect_time_v6,
                self.connected == orig.connected,
                self.stream == orig.stream,
            decreases answers@.len() - i,
        {
            proof {
                lemma_parts_take_step(answers@, i as int);
            }
            match answers[i] {
                ResolvedAddr::V4(a) => {
                    self.v4.push(a);
                    proof {
                        assert((orig.v4@ + v4_part(answers@.take(i as int))).push(a)
                            =~= orig.v4@ + (v4_part(answers@.take(i as int)) + seq![a]));
                        assert(v6_part(answers@.take(i + 1))
                            =~= v6_part(answers@.take(i as int)));
                    }
                },
                ResolvedAddr::V6(a) => {
                    self.v6.push(a);
                    proof {
                        assert((orig.v6@ + v6_part(answers@.take(i as int))).push(a)
                            =~= orig.v6@ + (v6_part(answers@.take(i as int)) + seq![a]));
                        assert(v4_part(answers@.take(i + 1))
                            =~= v4_part(answers@.take(i as int)));
                    }
                },
            }
            i += 1;
        }
        proof {
            assert(answers@.take(answers@.len() as int) =~= answers@);
        }
    }

    /// The single canonicalization pass after the last resolution attempt:
    /// both family lists become strictly sorted and duplicate-free, keeping
    /// exactly the addresses they held.
    pub fn canonicalize(&mut self)
        ensures
            final(self).url == old(self).url,
            strictly_sorted(final(self).v4@),
            strictly_sorted(final(self).v6@),
            forall|a: Addr| final(self).v4@.contains(a) <==> old(self).v4@.contains(a),
            forall|a: Addr| final(self).v6@.contains(a) <==> old(self).v6@.contains(a),
            final(self).connect_time_v4 == old(self).connect_time_v4,
            final(self).connect_time_v6 == old(self).connect_time_v6,
            final(self).connected == old(self).connected,
            final(self).stream == old(self).stream,
    {
        crate::addr::canonicalize(&mut self.v4);
        crate::addr::canonicalize(&mut self.v6);
    }

    /// The IPv4 pass of the timing phase: `samples` holds one connect-latency
    /// sample per address of `v4`, in list order, `None` for a failed
    /// attempt. Stores and returns the average over exactly the successful
    /// samples, zero when none succeeded.
    pub fn time_v4(&mut self, samples: &Vec<Option<u64>>) -> (r: u64)
        requires
            samples@.len() == old(self).v4@.len(),
        ensures
            r as nat == avg_of(samples@),
            final(self).connect_time_v4 == Some(r),
            final(self).url == old(self).url,
            final(self).v4 == old(self).v4,
            final(self).v6 == old(self).v6,
            final(self).connect_time_v6 == old(self).connect_time_v6,
            final(self).connected == old(self).connected,
            final(self).stream == old(self).stream,
    {
        let r = average(samples);
        self.connect_time_v4 = Some(r);
        r
    }

    /// The IPv6 pass of the timing phase, like `time_v4` for `v6`.
    pub fn time_v6(&mut self, samples: &Vec<Option<u64>>) -> (r: u64)
        requires
            samples@.len() == old(self).v6@.len(),
        ensures
            r as nat == avg_of(samples@),
            final(self).connect_time_v6 == Some(r),
            final(self).url == old(self).url,
            final(self).v4 == old(self).v4,
            final(self).v6 == old(self).v6,
            final(self).connect_time_v4 == old(self).connect_time_v4,
            final(self).connected == old(self).connected,
            final(self).stream == old(self).stream,
    {
        let r = average(samples);
        self.connect_time_v6 = Some(r);
        r
    }

    /// The indivisible winner decision of the race: compare the winner flag
    /// to unset and, only if it was unset, set it and store the handle. The
    /// attempt that gets `true` back is the unique winner; every other
    /// successful attempt gets `false` and must close its own connection,
    /// since the stored winner is never overwritten.
    pub fn claim(&mut self, handle: u64) -> (claimed: bool)
        ensures
            claimed == !old(self).connected,
            final(self).connected,
            final(self).stream == (if old(self).connected {
                old(self).stream
            } else {
                Some(handle)
            }),
            old(self).wf() ==> final(self).wf(),
            final(self).url == old(self).url,
            final(self).v4 == old(self).v4,
            final(self).v6 == old(self).v6,
            final(self).connect_time_v4 == old(self).connect_time_v4,
            final(self).connect_time_v6 == old(self).connect_time_v6,
    {
        if !self.connected {
            self.connected = true;
            self.stream = Some(handle);
            true
        } else {
            false
        }
    }

    /// The race over one host, seen through the record of its connection
    /// attempts in completion order: the first successful attempt is claimed
    /// as the unique winner, later successes are discarded, and a host whose
    /// attempts all failed (or that had none) ends unconnected, which is a
    /// normal outcome. A winner claimed earlier is kept.
    pub fn race(&mut self, events: &Vec<Option<u64>>)
        requires
            old(self).wf(),
        ensures
            final(self).wf(),
            (final(self).connected, final(self).stream) == race_outcome(
                old(self).connected,
                old(self).stream,
                events@,
            ),
            final(self).url == old(self).url,
            final(self).v4 == old(self).v4,
            final(self).v6 == old(self).v6,
            final(self).connect_time_v4 == old(self).connect_time_v4,
            final(self).connect_time_v6 == old(self).connect_time_v6,
    {
        let ghost orig = *self;
        proof {
            assert(events@.skip(0) =~= events@);
        }
        let mut i: usize = 0;
        while i < events.len()
            invariant
                i <= events@.len(),
                self.wf(),
                race_outcome(self.connected, self.stream, events@.skip(i as int))
                    == race_outcome(orig.connected, orig.stream, events@),
                self.url == orig.url,
                self.v4 == orig.v4,
                self.v6 == orig.v6,
                self.connect_time_v4 == orig.connect_time_v4,
                self.connect_time_v6 == orig.connect_time_v6,
            decreases events@.len() - i,
        {
            proof {
                assert(events@.skip(i as int).drop_first() =~= events@.skip(i + 1));
                assert(events@.skip(i as int)[0] == events@[i as int]);
            }
            match events[i] {
                Some(h) => {
                    self.claim(h);
                },
                None => {},
            }
            i += 1;
        }
        proof {
            assert(events@.skip(events@.len() as int) =~= Seq::<Option<u64>>::empty());
        }
    }
}

} // verus!
