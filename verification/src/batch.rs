//! The batch controller: an ordered collection of host entities and the
//! three phases (resolve, time, race) driven across all of them. The
//! surrounding program fans the per-host network work out to workers and
//! joins them; what each worker observed comes back here as one plain record
//! per host, so one host's failures never disturb another host's state.

use vstd::prelude::*;
use crate::addr::Addr;
use crate::addr::ResolvedAddr;
use crate::addr::strictly_sorted;
use crate::addr::v4_part;
use crate::addr::v6_part;
use crate::host::Domain;
use crate::host::race_outcome;
use crate::timing::avg_of;

verus! {

/// One record of the batch source: a rank and a hostname. The controller
/// consumes only the hostname.
pub struct Record {
    pub rank: String,
    pub host: String,
}

/// How the resolution phase leaves one host that received the concatenated
/// answers `ans` over its attempts: each family's list is extended by the
/// answers of that family and then canonicalized once, so it ends strictly
/// sorted and holds exactly the old addresses and the answered ones. All
/// other state is untouched.
pub open spec fn resolved_from(pre: Domain, post: Domain, ans: Seq<ResolvedAddr>) -> bool {
    &&& post.url == pre.url
    &&& strictly_sorted(post.v4@)
    &&& strictly_sorted(post.v6@)
    &&& (forall|a: Addr| post.v4@.contains(a) <==> (pre.v4@ + v4_part(ans)).contains(a))
    &&& (forall|a: Addr| post.v6@.contains(a) <==> (pre.v6@ + v6_part(ans)).contains(a))
    &&& post.connect_time_v4 == pre.connect_time_v4
    &&& post.connect_time_v6 == pre.connect_time_v6
    &&& post.connected == pre.connected
    &&& post.stream == pre.stream
}

/// Re-running the resolution phase on a host whose answer set is stable does
/// not change the canonicalized lists: if a first run took `d0` to `d1` on
/// answers `ans1`, and a second run took `d1` to `d2` on answers `ans2`
/// holding the same addresses (however rotated or repeated), then `d2`'s
/// lists are `d1`'s.
pub proof fn lemma_resolution_idempotent(
    d0: Domain,
    d1: Domain,
    d2: Domain,
    ans1: Seq<ResolvedAddr>,
    ans2: Seq<ResolvedAddr>,
)
    requires
        resolved_from(d0, d1, ans1),
        resolved_from(d1, d2, ans2),
        forall|x: Addr| v4_part(ans2).contains(x) <==> v4_part(ans1).contains(x),
        forall|x: Addr| v6_part(ans2).contains(x) <==> v6_part(ans1).contains(x),
    ensures
        d2.v4@ =~= d1.v4@,
        d2.v6@ =~= d1.v6@,
{
    assert forall|x: Addr| v4_part(ans2).contains(x) implies d1.v4@.contains(x) by {
        crate::addr::lemma_concat_contains(d0.v4@, v4_part(ans1), x);
    }
    crate::addr::lemma_recanonicalize_stable(d1.v4@, v4_part(ans2), d2.v4@);
    assert forall|x: Addr| v6_part(ans2).contains(x) implies d1.v6@.contains(x) by {
        crate::addr::lemma_concat_contains(d0.v6@, v6_part(ans1), x);
    }
    crate::addr::lemma_recanonicalize_stable(d1.v6@, v6_part(ans2), d2.v6@);
}

/// How the timing phase leaves one host whose per-address connect samples
/// were `s4` and `s6`: both averages are present and equal the average over
/// exactly the successful samples; everything else is untouched.
pub open spec fn timed_from(
    pre: Domain,
    post: Domain,
    s4: Seq<Option<u64>>,
    s6: Seq<Option<u64>>,
) -> bool {
    &&& post.connect_time_v4 is Some
    &&& post.connect_time_v4->0 as nat == avg_of(s4)
    &&& post.connect_time_v6 is Some
    &&& post.connect_time_v6->0 as nat == avg_of(s6)
    &&& post.url == pre.url
    &&& post.v4 == pre.v4
    &&& post.v6 == pre.v6
    &&& post.connected == pre.connected
    &&& post.stream == pre.stream
}

/// How the race phase leaves one host whose attempts completed as `ev`
/// records: an earlier winner is kept, otherwise the first success is the
/// unique winner, otherwise the host stays unconnected. Everything else is
/// untouched.
pub open spec fn raced_from(pre: Domain, post: Domain, ev: Seq<Option<u64>>) -> bool {
    &&& (post.connected, post.stream) == race_outcome(pre.connected, pre.stream, ev)
    &&& post.wf()
    &&& post.url == pre.url
    &&& post.v4 == pre.v4
    &&& post.v6 == pre.v6
    &&& post.connect_time_v4 == pre.connect_time_v4
    &&& post.connect_time_v6 == pre.connect_time_v6
}

/// The batch under measurement: how many resolution attempts each host gets,
/// and the ordered host entities.
pub struct Config {
    /// Resolution attempts per host, supplied by the caller; the program
    /// driving the phases performs one lookup per attempt.
    pub attempts: usize,
    /// The host entities, in batch-source order.
    pub domains: Vec<Domain>,
}

impl Config {
    /// Every host entity satisfies its invariant.
    pub open spec fn wf(self) -> bool {
        forall|i: int| 0 <= i < self.domains@.len() ==> (#[trigger] self.domains@[i]).wf()
    }

    /// Build the batch from the batch source's records: one fresh host
    /// entity per hostname, taking the first `count` records in order (all
    /// of them when fewer were supplied).
    pub fn new(attempts: usize, count: usize, records: Vec<Record>) -> (c: Config)
        ensures
            c.attempts == attempts,
            c.domains@.len() == (if count <= records@.len() {
                count as int
            } else {
                records@.len() as int
            }),
            forall|i: int| 0 <= i < c.domains@.len()
                ==> (#[trigger] c.domains@[i]).fresh_for(records@[i].host),
            c.wf(),
    {
        let ghost all = records@;
        let mut rest = records;
        let n: usize = if count <= rest.len() {
            count
        } else {
            rest.len()
        };
        let mut domains: Vec<Domain> = Vec::new();
        let mut i: usize = 0;
        while i < n
            invariant
                i <= n,
                n <= all.len(),
                rest@ == all.skip(i as int),
                domains@.len() == i,
                forall|j: int| 0 <= j < i
                    ==> (#[trigger] domains@[j]).fresh_for(all[j].host),
                forall|j: int| 0 <= j < i ==> (#[trigger] domains@[j]).wf(),
            decreases n - i,
        {
            proof {
                assert(all.skip(i as int)[0] == all[i as int]);
                assert(all.skip(i as int).remove(0) =~= all.skip(i + 1));
            }
            let rec = rest.remove(0);
            let d = Domain::new(rec.host);
            domains.push(d);
            i += 1;
        }
        Config { attempts, domains }
    }

    /// The host entities, in batch order, for the reporting collaborator.
    pub fn get_domains(&self) -> (r: &Vec<Domain>)
        ensures
            r@ == self.domains@,
    {
        &self.domains
    }

    /// The resolution phase over the whole batch. `answers[i]` is what host
    /// `i`'s resolution worker gathered: the answers of all its attempts,
    /// concatenated in answer order (a failed attempt contributes nothing).
    /// Every host's lists are extended accordingly and then canonicalized
    /// exactly once, after its last attempt.
    pub fn resolve_domains(&mut self, answers: &Vec<Vec<ResolvedAddr>>)
        requires
            answers@.len() == old(self).domains@.len(),
        ensures
            final(self).attempts == old(self).attempts,
            final(self).domains@.len() == old(self).domains@.len(),
            forall|i: int| 0 <= i < final(self).domains@.len() ==> resolved_from(
                old(self).domains@[i],
                #[trigger] final(self).domains@[i],
                answers@[i]@,
            ),
            old(self).wf() ==> final(self).wf(),
    {
        let ghost pre = self.domains@;
        let ghost a0 = self.attempts;
        let n = self.domains.len();
        let mut i: usize = 0;
        while i < n
            invariant
                i <= n,
                n == self.domains@.len(),
                n == pre.len(),
                n == answers@.len(),
                self.attempts == a0,
                forall|j: int| 0 <= j < i ==> resolved_from(
                    pre[j],
                    #[trigger] self.domains@[j],
                    answers@[j]@,
                ),
                forall|j: int| i <= j < n ==> self.domains@[j] == pre[j],
            decreases n - i,
        {
            let d = &mut self.domains[i];
            d.resolve(&answers[i]);
            d.canonicalize();
            i += 1;
        }
    }

    /// The timing phase over the whole batch. `samples_v4[i]` and
    /// `samples_v6[i]` hold host `i`'s per-address connect samples, one per
    /// address in list order, `None` where the attempt failed. Every host
    /// ends with both averages recorded.
    pub fn take_time(
        &mut self,
        samples_v4: &Vec<Vec<Option<u64>>>,
        samples_v6: &Vec<Vec<Option<u64>>>,
    )
        requires
            samples_v4@.len() == old(self).domains@.len(),
            samples_v6@.len() == old(self).domains@.len(),
            forall|i: int| 0 <= i < old(self).domains@.len()
                ==> (#[trigger] samples_v4@[i])@.len() == old(self).domains@[i].v4@.len(),
            forall|i: int| 0 <= i < old(self).domains@.len()
                ==> (#[trigger] samples_v6@[i])@.len() == old(self).domains@[i].v6@.len(),
        ensures
            final(self).attempts == old(self).attempts,
            final(self).domains@.len() == old(self).domains@.len(),
            forall|i: int| 0 <= i < final(self).domains@.len() ==> timed_from(
                old(self).domains@[i],
                #[trigger] final(self).domains@[i],
                samples_v4@[i]@,
                samples_v6@[i]@,
            ),
            old(self).wf() ==> final(self).wf(),
    {
        let ghost pre = self.domains@;
        let ghost a0 = self.attempts;
        let n = self.domains.len();
        let mut i: usize = 0;
        while i < n
            invariant
                i <= n,
                n == self.domains@.len(),
                n == pre.len(),
                n == samples_v4@.len(),
                n == samples_v6@.len(),
                forall|j: int| 0 <= j < n
                    ==> (#[trigger] samples_v4@[j])@.len() == pre[j].v4@.len(),
                forall|j: int| 0 <= j < n
                    ==> (#[trigger] samples_v6@[j])@.len() == pre[j].v6@.len(),
                self.attempts == a0,
                forall|j: int| 0 <= j < i ==> timed_from(
                    pre[j],
                    #[trigger] self.domains@[j],
                    samples_v4@[j]@,
                    samples_v6@[j]@,
                ),
                forall|j: int| i <= j < n ==> self.domains@[j] == pre[j],
            decreases n - i,
        {
            let d = &mut self.domains[i];
            d.time_v4(&samples_v4[i]);
            d.time_v6(&samples_v6[i]);
            i += 1;
        }
    }

    /// The race phase over the whole batch. `events[i]` is the completion-
    /// ordered record of host `i`'s connection attempts. Each host keeps
    /// exactly its first success as the unique winner; a host whose attempts
    /// all failed ends unconnected, without disturbing the others.
    pub fn race_domains(&mut self, events: &Vec<Vec<Option<u64>>>)
        requires
            events@.len() == old(self).domains@.len(),
            old(self).wf(),
        ensures
            final(self).attempts == old(self).attempts,
            final(self).domains@.len() == old(self).domains@.len(),
            forall|i: int| 0 <= i < final(self).domains@.len() ==> raced_from(
                old(self).domains@[i],
                #[trigger] final(self).domains@[i],
                events@[i]@,
            ),
            final(self).wf(),
    {
        let ghost pre = self.domains@;
        let ghost a0 = self.attempts;
        let n = self.domains.len();
        let mut i: usize = 0;
        while i < n
            invariant
                i <= n,
                n == self.domains@.len(),
                n == pre.len(),
                n == events@.len(),
                self.attempts == a0,
                forall|j: int| 0 <= j < n ==> (#[trigger] pre[j]).wf(),
                forall|j: int| 0 <= j < i ==> raced_from(
                    pre[j],
                    #[trigger] self.domains@[j],
                    events@[j]@,
                ),
                forall|j: int| i <= j < n ==> self.domains@[j] == pre[j],
            decreases n - i,
        {
            proof {
                assert(self.domains@[i as int] == pre[i as int]);
                assert(pre[i as int].wf());
            }
            let d = &mut self.domains[i];
            d.race(&events[i]);
            i += 1;
        }
    }
}

} // verus!
