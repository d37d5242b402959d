use cf_picker::colo::ColoMatcher;
use cf_picker::download::{plan_downloads, DownloadSession};
use cf_picker::hash::FastBuildHasher;
use cf_picker::ip::IpAddress;
use cf_picker::models::{CloudflareIpData, PingData};
use cf_picker::ping::{
    filter_delay, order_ping_results, ping_result, screen_colo, screen_response, should_report,
    status_accepted, PingProgress, ProbeTally,
};
use cf_picker::sort::sort_by_keys;
use cf_picker::traits::{HttpingResponse, NetworkError};
use cf_picker::ui::{AppState, ProgressStage, UiEvent};

fn record(ip: u32, received: usize, delay_ns: u128, colo: &str) -> CloudflareIpData {
    CloudflareIpData::new(PingData {
        ip: IpAddress::V4(ip),
        sent: 4,
        received,
        delay_ns,
        colo: colo.to_string(),
    })
}

fn ips(v: &[CloudflareIpData]) -> Vec<IpAddress> {
    v.iter().map(|d| d.ping_data.ip).collect()
}

#[test]
fn tally_counts_answers_and_reports_failures() {
    let mut t = ProbeTally::new();
    assert!(!t.record(&Ok(10), false));
    assert!(!t.record(&Ok(25), true));
    assert!(!t.record(&Err(NetworkError::Timeout), false));
    assert!(t.record(&Err(NetworkError::Other("x".to_string())), false));
    assert!(!t.record(&Err(NetworkError::HttpStatus(500)), false));
    assert!(t.record(&Err(NetworkError::HttpStatus(500)), true));
    assert!(!t.record(&Err(NetworkError::ConnectionFailed("c".to_string())), true));
    assert_eq!(t.received, 2);
    assert_eq!(t.total_delay_ns, 35);
    assert!(should_report(&NetworkError::Other(String::new()), false));
    assert!(!should_report(&NetworkError::Timeout, true));
}

#[test]
fn default_statuses_and_explicit_status() {
    for code in [0u16, 50, 600, 65535] {
        assert!(status_accepted(code, 200));
        assert!(status_accepted(code, 301));
        assert!(status_accepted(code, 302));
        assert!(!status_accepted(code, 404));
    }
    assert!(status_accepted(404, 404));
    assert!(!status_accepted(404, 200));
    assert!(status_accepted(100, 100));
    assert!(status_accepted(599, 599));
}

struct Answer(u16, &'static str);

impl HttpingResponse for Answer {
    fn status(&self) -> u16 {
        self.0
    }

    fn header(&self, name: &str) -> Option<&str> {
        match name {
            "server" => Some("cloudflare"),
            "cf-ray" => Some(self.1),
            _ => None,
        }
    }
}

#[test]
fn screening_answers() {
    let m = ColoMatcher::new_with_hasher("HKG", FastBuildHasher::new());
    match screen_response(&Answer(404, "x-HKG"), 0, "HKG", &m) {
        Err(Some(NetworkError::HttpStatus(404))) => {}
        other => panic!("unexpected {other:?}"),
    }
    assert!(matches!(screen_response(&Answer(200, "x-LAX"), 0, "HKG", &m), Err(None)));
    assert_eq!(screen_response(&Answer(200, "x-HKG"), 0, "HKG", &m).unwrap(), "HKG");
    assert_eq!(screen_response(&Answer(301, "x-LAX"), 0, "", &m).unwrap(), "LAX");
    assert!(matches!(screen_colo(String::new(), "HKG", &m), Err(None)));
    assert_eq!(screen_colo("lax".to_string(), "", &m).unwrap(), "lax");
}

#[test]
fn results_average_the_delay() {
    let t = ProbeTally { received: 3, total_delay_ns: 100 };
    let r = ping_result(IpAddress::V4(9), 4, t, "SJC".to_string()).unwrap();
    assert_eq!(r.ping_data.delay_ns, 33);
    assert_eq!(r.ping_data.received, 3);
    assert_eq!(r.ping_data.sent, 4);
    assert_eq!(r.ping_data.colo, "SJC");
    assert_eq!(r.download_speed, 0);
    assert!(ping_result(IpAddress::V4(9), 4, ProbeTally::new(), String::new()).is_none());
}

#[test]
fn delay_filter_keeps_strictly_inside_and_order() {
    let data = vec![
        record(1, 4, 5, ""),
        record(2, 4, 10, ""),
        record(3, 4, 15, ""),
        record(4, 4, 20, ""),
        record(5, 4, 11, ""),
        record(6, 4, 21, ""),
    ];
    let kept = filter_delay(data, 10, 20);
    assert_eq!(ips(&kept), vec![IpAddress::V4(3), IpAddress::V4(5)]);
}

#[test]
fn ping_order_is_loss_then_delay_then_arrival() {
    let data = vec![
        record(1, 3, 50, ""),
        record(2, 4, 70, ""),
        record(3, 4, 10, ""),
        record(4, 3, 50, ""),
        record(5, 2, 1, ""),
    ];
    let keys: Vec<u32> = data
        .iter()
        .map(|d| ((d.ping_data.sent - d.ping_data.received) as f32 / d.ping_data.sent as f32).to_bits())
        .collect();
    let ordered = order_ping_results(data, &keys);
    assert_eq!(
        ips(&ordered),
        vec![IpAddress::V4(3), IpAddress::V4(2), IpAddress::V4(1), IpAddress::V4(4), IpAddress::V4(5)]
    );
}

#[test]
fn stable_sort_by_keys() {
    let items = vec!['a', 'b', 'c', 'd', 'e', 'f'];
    let keys = vec![(2, 0), (1, 5), (2, 0), (1, 1), (0, 9), (2, 0)];
    assert_eq!(sort_by_keys(items, &keys), vec!['e', 'd', 'b', 'a', 'c', 'f']);
    let empty: Vec<u8> = Vec::new();
    assert!(sort_by_keys(empty, &Vec::new()).is_empty());
}

#[test]
fn progress_counts() {
    let mut p = PingProgress::new(3);
    p.record(true);
    p.record(false);
    assert_eq!((p.total, p.completed, p.available), (3, 2, 1));
}

#[test]
fn download_plans() {
    let p = plan_downloads(5, 10, false);
    assert_eq!((p.test_num, p.target_count), (5, 5));
    let p = plan_downloads(20, 10, false);
    assert_eq!((p.test_num, p.target_count), (10, 10));
    let p = plan_downloads(20, 10, true);
    assert_eq!((p.test_num, p.target_count), (20, 10));
    let p = plan_downloads(20, 0, false);
    assert_eq!((p.test_num, p.target_count), (0, 0));
}

fn speed(v: f64) -> u64 {
    v.to_bits()
}

#[test]
fn download_session_stops_at_target_and_ranks_by_speed() {
    let set = vec![record(1, 4, 1, ""), record(2, 4, 2, "HKG"), record(3, 4, 3, ""), record(4, 4, 4, "")];
    let mut s = DownloadSession::new(set, 2, true);
    assert_eq!(s.next_ip(), Some(IpAddress::V4(1)));
    let (item, count) = s.record_success(speed(10.0), "LAX".to_string(), true).unwrap();
    assert_eq!(item.ping_data.colo, "LAX");
    assert_eq!(count, 1);
    assert_eq!(s.next_ip(), Some(IpAddress::V4(2)));
    s.record_failure();
    assert_eq!(s.next_ip(), Some(IpAddress::V4(3)));
    let (item, count) = s.record_success(speed(30.0), "SJC".to_string(), true).unwrap();
    assert_eq!(item.download_speed, speed(30.0));
    assert_eq!(count, 2);
    assert_eq!(s.next_ip(), None);
    let out = s.finish(false);
    assert_eq!(ips(&out), vec![IpAddress::V4(3), IpAddress::V4(1)]);
}

#[test]
fn download_keeps_known_location_and_skips_slow() {
    let set = vec![record(1, 4, 1, "HKG"), record(2, 4, 2, "")];
    let mut s = DownloadSession::new(set, 5, true);
    assert!(s.record_success(speed(1.0), "LAX".to_string(), false).is_none());
    let (item, _) = s.record_success(speed(9.0), "NRT".to_string(), true).unwrap();
    assert_eq!(item.ping_data.colo, "NRT");
    assert_eq!(s.next_ip(), None);
    let out = s.finish(false);
    assert_eq!(ips(&out), vec![IpAddress::V4(2)]);
}

#[test]
fn download_falls_back_to_every_candidate() {
    let set = vec![record(1, 4, 1, "HKG"), record(2, 4, 2, ""), record(3, 4, 3, "")];
    let mut s = DownloadSession::new(set, 2, false);
    assert!(s.record_success(speed(5.0), "LAX".to_string(), false).is_none());
    assert!(s.record_success(speed(8.0), "SJC".to_string(), false).is_none());
    assert_eq!(s.next_ip(), None);
    let out = s.finish(true);
    assert_eq!(ips(&out), vec![IpAddress::V4(2), IpAddress::V4(1), IpAddress::V4(3)]);
    assert_eq!(out[0].ping_data.colo, "SJC");
    assert_eq!(out[1].ping_data.colo, "HKG");
}

#[test]
fn download_tries_only_the_planned_candidates() {
    let set = vec![record(1, 4, 1, ""), record(2, 4, 2, ""), record(3, 4, 3, "")];
    let mut s = DownloadSession::new(set, 2, false);
    s.record_failure();
    s.record_failure();
    assert_eq!(s.next_ip(), None);
}

#[test]
fn download_without_fallback_when_minimum_set() {
    let set = vec![record(1, 4, 1, "")];
    let mut s = DownloadSession::new(set, 2, true);
    s.record_failure();
    assert!(s.finish(false).is_empty());
}

#[test]
fn display_state_follows_events() {
    let mut s = AppState::new("VERSION: 0.1.0".to_string());
    assert_eq!(s.stage, ProgressStage::Ping);
    s.handle_event(UiEvent::SetStage { stage: ProgressStage::Ping, sub_header: Some("ping".to_string()), total: 10 });
    s.handle_event(UiEvent::UpdateProgress { pos: 4, available: Some(2) });
    s.handle_event(UiEvent::AddLog("log".to_string()));
    s.handle_event(UiEvent::AddError("err".to_string()));
    assert_eq!((s.progress_pos, s.progress_len, s.available_count), (4, 10, 2));
    s.handle_event(UiEvent::SetStage { stage: ProgressStage::Download, sub_header: None, total: 3 });
    assert_eq!(s.sub_header_info.as_deref(), Some("ping"));
    assert!(s.logs.is_empty());
    assert_eq!(s.errors, vec!["err".to_string()]);
    s.handle_event(UiEvent::UpdateProgress { pos: 1, available: None });
    assert_eq!(s.available_count, 2);
    s.handle_event(UiEvent::Finished);
    assert_eq!(s.stage, ProgressStage::Finished);
    assert_eq!(s.progress_pos, 3);
    assert_eq!(s.take_errors(), vec!["err".to_string()]);
    assert!(s.errors.is_empty());
    assert_eq!(s.header_info, "VERSION: 0.1.0");
}
