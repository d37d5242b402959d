use cf_picker::colo::ColoMatcher;
use cf_picker::ip::{parse_and_append_cidr, parse_ip_ranges_from_str, IpAddress};
use cf_picker::traits::{HttpingResponse, Rand};

struct DummyRand;

impl Rand for DummyRand {
    fn next_u64(&mut self) -> u64 {
        u64::MAX
    }
}

#[test]
fn test_random_range_max_bounds() {
    let mut rng = DummyRand;
    assert_eq!(rng.random_range_u8(0, 255), 255);
    assert_eq!(rng.random_range_usize(0, usize::MAX), usize::MAX);
}

struct MockRand;

impl Rand for MockRand {
    fn next_u64(&mut self) -> u64 {
        42
    }

    fn random_range_usize(&mut self, _min: usize, max: usize) -> usize {
        max / 2
    }

    fn random_range_u8(&mut self, _min: u8, max: u8) -> u8 {
        max / 2
    }
}

fn v4(a: u8, b: u8, c: u8, d: u8) -> IpAddress {
    IpAddress::V4(u32::from_be_bytes([a, b, c, d]))
}

#[test]
fn test_parse_single_ip() {
    let mut ips = Vec::new();
    let mut rng = MockRand;
    parse_and_append_cidr("1.1.1.1", false, &mut ips, &mut rng, None::<&mut fn(&str)>);
    assert_eq!(ips.len(), 1);
    assert_eq!(ips[0], v4(1, 1, 1, 1));
}

#[test]
fn test_parse_cidr_ipv4() {
    let mut ips = Vec::new();
    let mut rng = MockRand;
    parse_and_append_cidr("192.168.1.0/24", true, &mut ips, &mut rng, None::<&mut fn(&str)>);
    assert_eq!(ips.len(), 256);
}

#[test]
fn test_parse_invalid_cidr_warning() {
    let mut rng = MockRand;
    let mut warned = Vec::new();
    let ips = parse_ip_ranges_from_str(
        "1.1.1.1, invalid_ip_format, 1.0.0.1",
        false,
        &mut rng,
        Some(|line: &str| warned.push(line.to_string())),
    );
    assert_eq!(ips.len(), 2);
    assert_eq!(warned, vec!["invalid_ip_format".to_string()]);
}

struct DummyResponse {
    server: String,
    cf_ray: String,
}

impl HttpingResponse for DummyResponse {
    fn status(&self) -> u16 {
        200
    }

    fn header(&self, name: &str) -> Option<&str> {
        match name {
            "server" => Some(&self.server),
            "cf-ray" => Some(&self.cf_ray),
            _ => None,
        }
    }
}

struct FixedRand;

impl Rand for FixedRand {
    fn next_u64(&mut self) -> u64 {
        12345
    }
}

#[test]
fn test_extract_cloudflare_colo() {
    let mut rng = FixedRand;
    let matcher = ColoMatcher::new("HKG,SJC", &mut rng);
    let resp = DummyResponse {
        server: "cloudflare".to_string(),
        cf_ray: "7bd32409eda7b020-SJC".to_string(),
    };

    let colo = matcher.extract_colo(&resp);
    assert_eq!(colo, "SJC");
    assert!(matcher.is_match(&colo));
}
