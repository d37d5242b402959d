//! Decisions of the download stage: how many addresses to try, what each answer
//! changes, when to stop, and the final ordering.

use vstd::prelude::*;
use crate::ip::IpAddress;
use crate::models::{CloudflareIpData, PingData};
use crate::sort::{reorders, sort_by_keys, stable_order, stably_sorted};

verus! {

/// How many candidates the download stage tries and how many it wants.
#[derive(Debug, Clone, Copy)]
pub struct DownloadPlan {
    /// Candidates to try, from the best-ranked on.
    pub test_num: usize,
    /// Successful downloads after which the stage stops.
    pub target_count: usize,
}

/// Candidates tried: all of them when fewer than asked for or when a minimum speed
/// is set, else as many as asked for.
pub open spec fn planned_tests(candidates: usize, test_count: usize, min_speed_positive: bool) -> usize {
    if candidates < test_count || min_speed_positive {
        candidates
    } else {
        test_count
    }
}

/// Plans the download stage for `candidates` ranked addresses.
pub fn plan_downloads(candidates: usize, test_count: usize, min_speed_positive: bool) -> (p: DownloadPlan)
    ensures
        p.test_num == planned_tests(candidates, test_count, min_speed_positive),
        p.target_count == if test_count < p.test_num { test_count } else { p.test_num },
        min_speed_positive ==> p.test_num == candidates,
        !min_speed_positive ==> p.test_num == if candidates < test_count { candidates } else { test_count },
{
    let test_num = if candidates < test_count || min_speed_positive {
        candidates
    } else {
        test_count
    };
    let target_count = if test_count < test_num { test_count } else { test_num };
    DownloadPlan { test_num, target_count }
}

/// The abstract state of a download stage.
pub struct DownloadView {
    /// The candidates, best-ranked first, with what the downloads found so far.
    pub ip_set: Seq<CloudflareIpData>,
    /// The candidates accepted so far, in the order they were accepted.
    pub results: Seq<CloudflareIpData>,
    /// Index of the next candidate to try.
    pub next: int,
    /// Candidates to try.
    pub test_num: int,
    /// Accepted candidates after which the stage stops.
    pub target_count: int,
    /// Whether the target was reached.
    pub stopped: bool,
}

/// A record after a successful download: the measured speed, and the location code
/// reported by the download when the latency stage found none.
pub open spec fn with_download(item: CloudflareIpData, speed: u64, colo: String) -> CloudflareIpData {
    CloudflareIpData {
        ping_data: PingData {
            ip: item.ping_data.ip,
            sent: item.ping_data.sent,
            received: item.ping_data.received,
            delay_ns: item.ping_data.delay_ns,
            colo: if item.ping_data.colo@.len() == 0 { colo } else { item.ping_data.colo },
        },
        download_speed: speed,
    }
}

/// The sort keys of the final ranking: fastest first, ties keeping their order.
pub open spec fn speed_keys(data: Seq<CloudflareIpData>) -> Seq<(u64, u128)> {
    Seq::new(data.len(), |i: int| ((u64::MAX - data[i].download_speed) as u64, 0u128))
}

/// The download stage: tries candidates in rank order, records what each download
/// finds, and stops once enough candidates are accepted.
pub struct DownloadSession {
    ip_set: Vec<CloudflareIpData>,
    results: Vec<CloudflareIpData>,
    next: usize,
    test_num: usize,
    target_count: usize,
    stopped: bool,
}

impl View for DownloadSession {
    type V = DownloadView;

    closed spec fn view(&self) -> DownloadView {
        DownloadView {
            ip_set: self.ip_set@,
            results: self.results@,
            next: self.next as int,
            test_num: self.test_num as int,
            target_count: self.target_count as int,
            stopped: self.stopped,
        }
    }
}

impl DownloadSession {
    /// The session's invariant: it never passes the planned candidates.
    pub closed spec fn wf(&self) -> bool {
        &&& self.next <= self.test_num <= self.ip_set@.len()
        &&& self.results@.len() <= self.next
    }

    /// Whether another candidate is to be tried.
    pub open spec fn active(&self) -> bool {
        !self@.stopped && self@.next < self@.test_num
    }

    /// Starts the stage on the ranked candidates.
    pub fn new(ip_set: Vec<CloudflareIpData>, test_count: usize, min_speed_positive: bool) -> (s: Self)
        ensures
            s.wf(),
            s@.ip_set == ip_set@,
            s@.results == Seq::<CloudflareIpData>::empty(),
            s@.next == 0,
            s@.test_num == planned_tests(ip_set@.len() as usize, test_count, min_speed_positive),
            s@.target_count == if test_count < s@.test_num { test_count as int } else { s@.test_num },
            !s@.stopped,
    {
        let plan = plan_downloads(ip_set.len(), test_count, min_speed_positive);
        DownloadSession {
            ip_set,
            results: Vec::new(),
            next: 0,
            test_num: plan.test_num,
            target_count: plan.target_count,
            stopped: false,
        }
    }

    /// The address to download from next, if the stage goes on.
    pub fn next_ip(&self) -> (r: Option<IpAddress>)
        requires
            self.wf(),
        ensures
            self.active() ==> r == Some(self@.ip_set[self@.next].ping_data.ip),
            !self.active() ==> r is None,
    {
        if self.stopped || self.next >= self.test_num {
            None
        } else {
            Some(self.ip_set[self.next].ping_data.ip)
        }
    }

    /// Records a successful download from the current candidate: its speed (bit
    /// pattern of the bytes per second) and the location code the download reported.
    /// The candidate is accepted when `meets_min` (its speed reaches the minimum);
    /// then the accepted record and the number accepted so far are returned.
    pub fn record_success(&mut self, speed: u64, colo: String, meets_min: bool) -> (r: Option<
        (CloudflareIpData, usize),
    >)
        requires
            old(self).wf(),
            old(self).active(),
        ensures
            final(self).wf(),
            ({
                let o = old(self)@;
                let item = with_download(o.ip_set[o.next], speed, colo);
                &&& final(self)@.ip_set == o.ip_set.update(o.next, item)
                &&& final(self)@.next == o.next + 1
                &&& final(self)@.test_num == o.test_num
                &&& final(self)@.target_count == o.target_count
                &&& meets_min ==> {
                    &&& final(self)@.results == o.results.push(item)
                    &&& r == Some((item, (o.results.len() + 1) as usize))
                    &&& final(self)@.stopped == (o.results.len() + 1 == o.target_count)
                }
                &&& !meets_min ==> final(self)@.results == o.results && r is None
                    && final(self)@.stopped == o.stopped
            }),
    {
        let i = self.next;
        let old_item = self.ip_set[i].clone();
        let new_colo = if old_item.ping_data.colo.as_str().is_empty() {
            colo
        } else {
            old_item.ping_data.colo
        };
        let item = CloudflareIpData {
            ping_data: PingData {
                ip: old_item.ping_data.ip,
                sent: old_item.ping_data.sent,
                received: old_item.ping_data.received,
                delay_ns: old_item.ping_data.delay_ns,
                colo: new_colo,
            },
            download_speed: speed,
        };
        self.ip_set.set(i, item.clone());
        self.next = i + 1;
        if meets_min {
            self.results.push(item.clone());
            let count = self.results.len();
            if count == self.target_count {
                self.stopped = true;
            }
            Some((item, count))
        } else {
            None
        }
    }

    /// Records a failed download from the current candidate.
    pub fn record_failure(&mut self)
        requires
            old(self).wf(),
            old(self).active(),
        ensures
            final(self).wf(),
            final(self)@ == (DownloadView { next: old(self)@.next + 1, ..old(self)@ }),
    {
        self.next = self.next + 1;
    }

    /// Ends the stage: the accepted records, or every candidate (with what the
    /// downloads found) when none was accepted and no minimum speed is set; fastest
    /// first, ties keeping their order.
    pub fn finish(self, min_speed_is_zero: bool) -> (out: Vec<CloudflareIpData>)
        requires
            self.wf(),
        ensures
            ({
                let chosen = if min_speed_is_zero && self@.results.len() == 0 {
                    self@.ip_set
                } else {
                    self@.results
                };
                stably_sorted(chosen, speed_keys(chosen), out@)
            }),
            ({
                let chosen = if min_speed_is_zero && self@.results.len() == 0 {
                    self@.ip_set
                } else {
                    self@.results
                };
                fastest_first(chosen, out@)
            }),
    {
        let chosen = if min_speed_is_zero && self.results.len() == 0 {
            self.ip_set
        } else {
            self.results
        };
        let n = chosen.len();
        let mut keys: Vec<(u64, u128)> = Vec::new();
        let mut i: usize = 0;
        while i < n
            invariant
                n == chosen@.len(),
                i <= n,
                keys@ == speed_keys(chosen@).take(i as int),
            decreases n - i,
        {
            keys.push((u64::MAX - chosen[i].download_speed, 0u128));
            i = i + 1;
            assert(keys@ =~= speed_keys(chosen@).take(i as int));
        }
        assert(keys@ =~= speed_keys(chosen@));
        let ghost c = chosen@;
        let out = sort_by_keys(chosen, &keys);
        proof {
            law_ranking_fastest_first(c, out@);
        }
        out
    }
}

/// `out` holds the records of `chosen`, each once, with no record after a slower one
/// and records of equal speed in their order in `chosen`. Speeds are the bit patterns
/// of non-negative `f64` values, which order as the values do.
pub open spec fn fastest_first(chosen: Seq<CloudflareIpData>, out: Seq<CloudflareIpData>) -> bool {
    exists|p: Seq<int>|
        {
            &&& reorders(chosen, out, p)
            &&& forall|j: int, k: int|
                0 <= j < k < out.len() ==> (#[trigger] out[j]).download_speed >= (#[trigger] out[k]).download_speed
            &&& forall|j: int, k: int|
                0 <= j < k < out.len() && (#[trigger] out[j]).download_speed == (#[trigger] out[k]).download_speed
                    ==> p[j] < p[k]
        }
}

/// The final ranking of the download stage puts the faster records first: it holds
/// each chosen record once, no record follows a slower one, and records of equal
/// speed keep their order.
pub proof fn law_ranking_fastest_first(chosen: Seq<CloudflareIpData>, out: Seq<CloudflareIpData>)
    requires
        stably_sorted(chosen, speed_keys(chosen), out),
    ensures
        fastest_first(chosen, out),
{
    let keys = speed_keys(chosen);
    let p = choose|p: Seq<int>| stable_order(keys, p) && out == Seq::new(p.len(), |j: int| chosen[p[j]]);
    assert(reorders(chosen, out, p));
    assert forall|j: int, k: int| 0 <= j < k < out.len() implies (#[trigger] out[j]).download_speed
        >= (#[trigger] out[k]).download_speed && (out[j].download_speed == out[k].download_speed ==> p[j]
        < p[k]) by {
        assert(out[j] == chosen[p[j]]);
        assert(out[k] == chosen[p[k]]);
        assert(p[j] != p[k]);
    }
}

/// The number of candidates tried: every candidate when a minimum speed is set, else
/// as many as asked for but no more than there are.
pub proof fn law_planned_tests(candidates: usize, test_count: usize, min_speed_positive: bool)
    ensures
        min_speed_positive ==> planned_tests(candidates, test_count, min_speed_positive) == candidates,
        !min_speed_positive ==> planned_tests(candidates, test_count, min_speed_positive) <= candidates,
        !min_speed_positive ==> planned_tests(candidates, test_count, min_speed_positive) <= test_count,
        !min_speed_positive ==> (planned_tests(candidates, test_count, min_speed_positive) == candidates
            || planned_tests(candidates, test_count, min_speed_positive) == test_count),
{
}

} // verus!
