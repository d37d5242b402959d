use cf_picker::colo::ColoMatcher;
use cf_picker::hash::FastBuildHasher;
use cf_picker::traits::HttpingResponse;

struct Headers(Vec<(&'static str, &'static str)>);

impl HttpingResponse for Headers {
    fn status(&self) -> u16 {
        200
    }

    fn header(&self, name: &str) -> Option<&str> {
        self.0.iter().find(|(k, _)| *k == name).map(|(_, v)| *v)
    }
}

fn matcher(targets: &str) -> ColoMatcher {
    ColoMatcher::new_with_hasher(targets, FastBuildHasher::with_seed(3))
}

fn colo(headers: Vec<(&'static str, &'static str)>) -> String {
    matcher("").extract_colo(&Headers(headers))
}

#[test]
fn cloudflare_ray_gives_the_airport() {
    assert_eq!(colo(vec![("server", "cloudflare"), ("cf-ray", "8a1b2c3d4e5f6a7b-NRT")]), "NRT");
}

#[test]
fn cloudflare_ray_without_code_falls_through() {
    assert_eq!(
        colo(vec![("server", "cloudflare"), ("cf-ray", "8a1b2c3d"), ("x-amz-cf-pop", "FRA56-P3")]),
        "FRA"
    );
}

#[test]
fn cdn77_pop_gives_the_country() {
    assert_eq!(colo(vec![("server", "CDN77-Turbo"), ("x-77-pop", "frankfurtDE")]), "DE");
}

#[test]
fn bunny_server_gives_the_country() {
    assert_eq!(colo(vec![("server", "BunnyCDN-DE1-1048")]), "DE");
    assert_eq!(colo(vec![("server", "BunnyCDN-BunnyCDN-uk-GB9")]), "GB");
    assert_eq!(colo(vec![("server", "edge BunnyCDN-SG1")]), "CD");
}

#[test]
fn cloudfront_pop_gives_the_airport() {
    assert_eq!(colo(vec![("x-amz-cf-pop", "HKG62-C2")]), "HKG");
}

#[test]
fn fastly_takes_the_last_airport() {
    assert_eq!(colo(vec![("x-served-by", "cache-lax1234-LAX, cache-hkg17920-HKG")]), "HKG");
}

#[test]
fn gcore_prefix_is_upper_cased() {
    assert_eq!(colo(vec![("x-id-fe", "ed-gc12")]), "ED");
    assert_eq!(colo(vec![("x-id-fe", "1ed")]), "");
}

#[test]
fn no_header_no_code() {
    assert_eq!(colo(vec![]), "");
    assert_eq!(colo(vec![("server", "nginx")]), "");
}

#[test]
fn headers_can_be_given_directly() {
    let m = matcher("");
    assert_eq!(
        m.colo_from_headers(Some("cloudflare"), Some("abc-SJC"), None, None, None, None),
        "SJC"
    );
    assert_eq!(m.colo_from_headers(None, Some("abc-SJC"), None, None, None, None), "");
}

#[test]
fn blank_targets_want_every_code() {
    let m = matcher("  ");
    assert!(m.is_match("LAX"));
    assert!(m.is_match("x"));
    assert!(!m.is_match(""));
}

#[test]
fn targets_are_trimmed_and_case_insensitive() {
    let m = matcher(" hkg , sjc,,");
    assert!(m.is_match("HKG"));
    assert!(m.is_match("hkg"));
    assert!(m.is_match("Sjc"));
    assert!(!m.is_match("LAX"));
    assert!(!m.is_match(""));
}

#[test]
fn upper_casing_is_unicode_aware() {
    let m = matcher("ß");
    assert!(m.is_match("SS"));
    assert!(m.is_match("ss"));
}

#[test]
fn seeded_and_drawn_matchers_agree() {
    struct Draw;
    impl cf_picker::traits::Rand for Draw {
        fn next_u64(&mut self) -> u64 {
            77
        }
    }
    let a = ColoMatcher::new("HKG", &mut Draw);
    let b = matcher("HKG");
    assert_eq!(a.is_match("hkg"), b.is_match("hkg"));
    assert_eq!(a.is_match("SJC"), b.is_match("SJC"));
}
