//! Decisions of the latency stage: tallying probes, screening HTTP answers, building,
//! filtering and ordering the per-address results.

use vstd::prelude::*;
use crate::colo::{ColoMatcher, colo_wanted, response_colo};
use crate::ip::IpAddress;
use crate::models::{CloudflareIpData, PingData};
use crate::sort::{reorders, sort_by_keys, stable_order, stably_sorted};
use crate::traits::{HttpingResponse, NetworkError};

verus! {

/// The longest duration a `core::time::Duration` holds, in nanoseconds.
pub open spec fn max_duration_ns() -> int {
    18446744073709551615int * 1000000000int + 999999999int
}

/// Whether a failed probe is reported: `Other` always, `HttpStatus` for HTTP probes.
pub open spec fn is_reported(e: NetworkError, over_http: bool) -> bool {
    match e {
        NetworkError::Other(_) => true,
        NetworkError::HttpStatus(_) => over_http,
        _ => false,
    }
}

/// Whether a failed probe is reported: `Other` always, `HttpStatus` for HTTP probes.
pub fn should_report(e: &NetworkError, over_http: bool) -> (b: bool)
    ensures
        b == is_reported(*e, over_http),
{
    match e {
        NetworkError::Other(_) => true,
        NetworkError::HttpStatus(_) => over_http,
        _ => false,
    }
}

/// Answered probes of one address so far and their total delay.
#[derive(Debug, Clone, Copy)]
pub struct ProbeTally {
    /// Probes answered.
    pub received: usize,
    /// Sum of their delays, in nanoseconds.
    pub total_delay_ns: u128,
}

impl ProbeTally {
    /// No probe answered yet.
    pub fn new() -> (t: Self)
        ensures
            t.received == 0,
            t.total_delay_ns == 0,
    {
        ProbeTally { received: 0, total_delay_ns: 0 }
    }

    /// Counts one probe outcome (its delay in nanoseconds, or its error) and says
    /// whether the error is to be reported.
    pub fn record(&mut self, outcome: &Result<u128, NetworkError>, over_http: bool) -> (report: bool)
        requires
            outcome matches Ok(d) ==> old(self).received < usize::MAX && old(self).total_delay_ns + *d
                <= max_duration_ns(),
        ensures
            match outcome {
                Ok(d) => {
                    &&& final(self).received == old(self).received + 1
                    &&& final(self).total_delay_ns == old(self).total_delay_ns + *d
                    &&& !report
                },
                Err(e) => *final(self) == *old(self) && report == is_reported(*e, over_http),
            },
    {
        match outcome {
            Ok(d) => {
                self.received = self.received + 1;
                self.total_delay_ns = self.total_delay_ns + *d;
                false
            },
            Err(e) => should_report(e, over_http),
        }
    }
}

/// Whether an HTTP status counts as an answer: 200, 301 or 302 unless a valid
/// status code (100 to 599) is expected, else exactly that code.
pub open spec fn status_ok(expected: u16, status: u16) -> bool {
    if expected == 0 || expected < 100 || expected > 599 {
        status == 200 || status == 301 || status == 302
    } else {
        status == expected
    }
}

/// Whether an HTTP status counts as an answer.
pub fn status_accepted(expected: u16, status: u16) -> (b: bool)
    ensures
        b == status_ok(expected, status),
        !(100 <= expected <= 599) ==> (b <==> (status == 200 || status == 301 || status == 302)),
        100 <= expected <= 599 ==> (b <==> status == expected),
{
    if expected == 0 || expected < 100 || expected > 599 {
        status == 200 || status == 301 || status == 302
    } else {
        status == expected
    }
}

/// Screens the first HTTP answer of an address: a rejected status is an error to
/// report, an unwanted location code drops the address silently, else the address
/// goes on with the location code read from the answer.
pub fn screen_response<R: HttpingResponse + ?Sized>(
    resp: &R,
    expected_status: u16,
    cf_colo: &str,
    matcher: &ColoMatcher,
) -> (r: Result<String, Option<NetworkError>>)
    ensures
        R::obeys_response_spec() ==> {
            &&& !status_ok(expected_status, resp.status_spec()) ==> r == Err::<String, Option<NetworkError>>(
                Some(NetworkError::HttpStatus(resp.status_spec())),
            )
            &&& status_ok(expected_status, resp.status_spec()) && (cf_colo@.len() == 0 || colo_wanted(
                matcher@,
                response_colo(resp),
            )) ==> (r matches Ok(c) && c@ == response_colo(resp))
            &&& status_ok(expected_status, resp.status_spec()) && !(cf_colo@.len() == 0 || colo_wanted(
                matcher@,
                response_colo(resp),
            )) ==> r == Err::<String, Option<NetworkError>>(None)
        },
        r matches Err(Some(e)) ==> (e matches NetworkError::HttpStatus(st) && !status_ok(expected_status, st)),
        r matches Ok(c) ==> cf_colo@.len() == 0 || colo_wanted(matcher@, c@),
{
    let status = resp.status();
    if !status_accepted(expected_status, status) {
        return Err(Some(NetworkError::HttpStatus(status)));
    }
    let colo = matcher.extract_colo(resp);
    screen_colo(colo, cf_colo, matcher)
}

/// Keeps the location code of an answer when no codes were asked for or the code
/// is wanted; else drops the address silently.
pub fn screen_colo(colo: String, cf_colo: &str, matcher: &ColoMatcher) -> (r: Result<String, Option<NetworkError>>)
    ensures
        cf_colo@.len() == 0 || colo_wanted(matcher@, colo@) ==> r == Ok::<String, Option<NetworkError>>(colo),
        !(cf_colo@.len() == 0 || colo_wanted(matcher@, colo@)) ==> r == Err::<String, Option<NetworkError>>(None),
{
    if !cf_colo.is_empty() && !matcher.is_match(colo.as_str()) {
        return Err(None);
    }
    Ok(colo)
}

/// The record of an address: none when no probe was answered, else the average
/// delay (total divided by the answered count, rounded down) with the counts and
/// location code.
pub fn ping_result(ip: IpAddress, sent: usize, tally: ProbeTally, colo: String) -> (r: Option<
    CloudflareIpData,
>)
    requires
        tally.received > 0 ==> tally.received as u32 != 0,
    ensures
        tally.received == 0 ==> r is None,
        tally.received > 0 ==> r == Some(
            CloudflareIpData {
                ping_data: PingData {
                    ip,
                    sent,
                    received: tally.received,
                    delay_ns: tally.total_delay_ns / (tally.received as u32 as u128),
                    colo,
                },
                download_speed: 0,
            },
        ),
{
    if tally.received == 0 {
        return None;
    }
    let avg = tally.total_delay_ns / (tally.received as u32 as u128);
    Some(
        CloudflareIpData::new(
            PingData { ip, sent, received: tally.received, delay_ns: avg, colo },
        ),
    )
}

/// Whether a record's average delay lies strictly between `min_ns` and `max_ns`: above
/// the lower limit and below the upper one.
pub open spec fn delay_within(min_ns: u128, max_ns: u128) -> spec_fn(CloudflareIpData) -> bool {
    |d: CloudflareIpData| min_ns < d.ping_data.delay_ns && d.ping_data.delay_ns < max_ns
}

/// Keeps the records whose average delay is above `min_ns` and below `max_ns`, in order.
pub fn filter_delay(data: Vec<CloudflareIpData>, min_ns: u128, max_ns: u128) -> (out: Vec<
    CloudflareIpData,
>)
    ensures
        out@ == data@.filter(delay_within(min_ns, max_ns)),
        kept_between(data@, out@, min_ns, max_ns),
{
    let ghost orig = data@;
    let n = data.len();
    let mut data = data;
    let mut rev: Vec<CloudflareIpData> = Vec::new();
    while data.len() > 0
        invariant
            n == orig.len(),
            data@.len() <= n,
            data@ == orig.take(data@.len() as int),
            rev@ == Seq::new((n - data@.len()) as nat, |j: int| orig[n - 1 - j]),
        decreases data@.len(),
    {
        let x = data.pop().unwrap();
        rev.push(x);
        assert(data@ =~= orig.take(data@.len() as int));
        assert(rev@ =~= Seq::new((n - data@.len()) as nat, |j: int| orig[n - 1 - j]));
    }
    let mut out: Vec<CloudflareIpData> = Vec::new();
    let mut i: usize = 0;
    proof {
        reveal(Seq::filter);
        assert(orig.take(0) =~= Seq::<CloudflareIpData>::empty());
    }
    while i < n
        invariant
            n == orig.len(),
            i <= n,
            rev@ == Seq::new((n - i) as nat, |j: int| orig[n - 1 - j]),
            out@ == orig.take(i as int).filter(delay_within(min_ns, max_ns)),
        decreases n - i,
    {
        let x = rev.pop().unwrap();
        proof {
            reveal(Seq::filter);
            assert(orig.take(i + 1).drop_last() =~= orig.take(i as int));
        }
        if min_ns < x.ping_data.delay_ns && x.ping_data.delay_ns < max_ns {
            out.push(x);
        }
        i = i + 1;
        assert(rev@ =~= Seq::new((n - i) as nat, |j: int| orig[n - 1 - j]));
    }
    assert(orig.take(n as int) =~= orig);
    proof {
        law_delay_filter(orig, out@, min_ns, max_ns);
    }
    out
}

/// The sort keys of latency records: the loss-rate key given for each, then the delay.
pub open spec fn ping_keys(data: Seq<CloudflareIpData>, loss_keys: Seq<u32>) -> Seq<(u64, u128)> {
    Seq::new(data.len(), |i: int| (loss_keys[i] as u64, data[i].ping_data.delay_ns))
}

/// Orders latency records by loss rate, then by delay, both ascending, records that
/// tie keeping their order. `loss_keys[i]` is the bit pattern of the `f32` loss rate of
/// `data[i]`; loss rates are never negative, so their patterns order as they do.
pub fn order_ping_results(data: Vec<CloudflareIpData>, loss_keys: &Vec<u32>) -> (out: Vec<
    CloudflareIpData,
>)
    requires
        loss_keys@.len() == data@.len(),
    ensures
        stably_sorted(data@, ping_keys(data@, loss_keys@), out@),
        loss_then_delay(data@, loss_keys@, out@),
{
    let n = data.len();
    let mut keys: Vec<(u64, u128)> = Vec::new();
    let mut i: usize = 0;
    while i < n
        invariant
            n == data@.len(),
            n == loss_keys@.len(),
            i <= n,
            keys@ == ping_keys(data@, loss_keys@).take(i as int),
        decreases n - i,
    {
        keys.push((loss_keys[i] as u64, data[i].ping_data.delay_ns));
        i = i + 1;
        assert(keys@ =~= ping_keys(data@, loss_keys@).take(i as int));
    }
    assert(keys@ =~= ping_keys(data@, loss_keys@));
    let ghost d = data@;
    let out = sort_by_keys(data, &keys);
    proof {
        law_ping_order(d, loss_keys@, out@);
    }
    out
}

/// Progress of the latency stage: addresses done and addresses found available.
#[derive(Debug, Clone, Copy)]
pub struct PingProgress {
    /// Addresses to probe.
    pub total: usize,
    /// Addresses probed so far.
    pub completed: usize,
    /// Addresses that answered at least once so far.
    pub available: usize,
}

impl PingProgress {
    /// Nothing probed yet out of `total`.
    pub fn new(total: usize) -> (p: Self)
        ensures
            p.total == total,
            p.completed == 0,
            p.available == 0,
    {
        PingProgress { total, completed: 0, available: 0 }
    }

    /// Counts one probed address, available or not.
    pub fn record(&mut self, available: bool)
        requires
            old(self).completed < old(self).total,
            old(self).available <= old(self).completed,
        ensures
            final(self).total == old(self).total,
            final(self).completed == old(self).completed + 1,
            final(self).available == old(self).available + if available { 1int } else { 0int },
            final(self).available <= final(self).completed,
    {
        self.completed = self.completed + 1;
        if available {
            self.available = self.available + 1;
        }
    }
}

/// The statuses that count as an answer: with no valid expected code (0, or outside
/// `100..=599`) exactly 200, 301 and 302, else exactly the expected code.
pub proof fn law_status_accepted(expected: u16, status: u16)
    ensures
        !(100 <= expected <= 599) ==> (status_ok(expected, status) <==> (status == 200 || status == 301
            || status == 302)),
        100 <= expected <= 599 ==> (status_ok(expected, status) <==> status == expected),
{
}

/// `out` is `data` with exactly the records whose delay lies strictly between the
/// limits, in their order: a record of `data` is kept exactly when it is in range,
/// and every kept record is one of `data`.
pub open spec fn kept_between(data: Seq<CloudflareIpData>, out: Seq<CloudflareIpData>, min_ns: u128, max_ns: u128) -> bool {
    &&& forall|x: CloudflareIpData| #[trigger] out.contains(x) <==> (data.contains(x) && min_ns
        < x.ping_data.delay_ns && x.ping_data.delay_ns < max_ns)
    &&& out.len() <= data.len()
    &&& (forall|i: int| 0 <= i < data.len() ==> min_ns < (#[trigger] data[i]).ping_data.delay_ns
        && data[i].ping_data.delay_ns < max_ns) ==> out == data
}

/// Filtering by delay keeps a record exactly when its delay is above the lower limit
/// and below the upper one, and keeps everything when every delay is in range.
pub proof fn law_delay_filter(data: Seq<CloudflareIpData>, out: Seq<CloudflareIpData>, min_ns: u128, max_ns: u128)
    requires
        out == data.filter(delay_within(min_ns, max_ns)),
    ensures
        kept_between(data, out, min_ns, max_ns),
{
    let f = delay_within(min_ns, max_ns);
    assert forall|x: CloudflareIpData| #[trigger] out.contains(x) <==> (data.contains(x) && min_ns
        < x.ping_data.delay_ns && x.ping_data.delay_ns < max_ns) by {
        if out.contains(x) {
            data.lemma_filter_contains_rev(f, x);
            let j = choose|j: int| 0 <= j < out.len() && out[j] == x;
            data.lemma_filter_pred(f, j);
        }
        if data.contains(x) && f(x) {
            let i = choose|i: int| 0 <= i < data.len() && data[i] == x;
            data.lemma_filter_contains(f, i);
        }
    }
    data.lemma_filter_len(f);
    if forall|i: int| 0 <= i < data.len() ==> min_ns < (#[trigger] data[i]).ping_data.delay_ns
        && data[i].ping_data.delay_ns < max_ns {
        lemma_filter_keeps_all(data, f);
    }
}

/// Filtering keeps a sequence whole when every item passes.
proof fn lemma_filter_keeps_all(data: Seq<CloudflareIpData>, f: spec_fn(CloudflareIpData) -> bool)
    requires
        forall|i: int| 0 <= i < data.len() ==> f(#[trigger] data[i]),
    ensures
        data.filter(f) == data,
    decreases data.len(),
{
    reveal(Seq::filter);
    if data.len() > 0 {
        assert forall|i: int| 0 <= i < data.drop_last().len() implies f(#[trigger] data.drop_last()[i]) by {
            assert(data.drop_last()[i] == data[i]);
        }
        lemma_filter_keeps_all(data.drop_last(), f);
        assert(f(data.last()));
        assert(data.drop_last().push(data.last()) =~= data);
    } else {
        assert(data =~= Seq::<CloudflareIpData>::empty());
    }
}

/// `out` is `data` reordered (each record once) by loss rate, then by delay, records
/// that tie on both keeping their order; `loss_keys[i]` is the loss key of `data[i]`.
pub open spec fn loss_then_delay(data: Seq<CloudflareIpData>, loss_keys: Seq<u32>, out: Seq<CloudflareIpData>) -> bool {
    exists|p: Seq<int>|
        {
            &&& reorders(data, out, p)
            &&& forall|j: int, k: int|
                #![trigger p[j], p[k]]
                0 <= j < k < out.len() ==> {
                    ||| loss_keys[p[j]] < loss_keys[p[k]]
                    ||| loss_keys[p[j]] == loss_keys[p[k]] && out[j].ping_data.delay_ns < out[k].ping_data.delay_ns
                    ||| loss_keys[p[j]] == loss_keys[p[k]] && out[j].ping_data.delay_ns == out[k].ping_data.delay_ns
                        && p[j] < p[k]
                }
        }
}

/// The latency ranking puts the lower loss rate first, then the lower delay, records
/// that tie on both keeping their order; it holds each record once.
pub proof fn law_ping_order(data: Seq<CloudflareIpData>, loss_keys: Seq<u32>, out: Seq<CloudflareIpData>)
    requires
        loss_keys.len() == data.len(),
        stably_sorted(data, ping_keys(data, loss_keys), out),
    ensures
        loss_then_delay(data, loss_keys, out),
{
    let keys = ping_keys(data, loss_keys);
    let p = choose|p: Seq<int>| stable_order(keys, p) && out == Seq::new(p.len(), |j: int| data[p[j]]);
    assert(reorders(data, out, p));
    assert forall|j: int, k: int|
        #![trigger p[j], p[k]]
        0 <= j < k < out.len() implies {
            ||| loss_keys[p[j]] < loss_keys[p[k]]
            ||| loss_keys[p[j]] == loss_keys[p[k]] && out[j].ping_data.delay_ns < out[k].ping_data.delay_ns
            ||| loss_keys[p[j]] == loss_keys[p[k]] && out[j].ping_data.delay_ns == out[k].ping_data.delay_ns
                && p[j] < p[k]
        } by {
        assert(out[j] == data[p[j]]);
        assert(out[k] == data[p[k]]);
        assert(p[j] != p[k]);
        assert(keys[p[j]] == (loss_keys[p[j]] as u64, data[p[j]].ping_data.delay_ns));
        assert(keys[p[k]] == (loss_keys[p[k]] as u64, data[p[k]].ping_data.delay_ns));
    }
}

} // verus!
