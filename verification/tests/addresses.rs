use cf_picker::ip::{
    parse_and_append_cidr, parse_ip_line, parse_ip_ranges_from_str, parse_ip_ranges_step, parse_ip_text_with_sink,
    IpAddress,
};
use cf_picker::traits::{Rand, WarningLog};

struct HalfRand;

impl Rand for HalfRand {
    fn next_u64(&mut self) -> u64 {
        42
    }

    fn random_range_usize(&mut self, _min: usize, max: usize) -> usize {
        max / 2
    }

    fn random_range_u8(&mut self, _min: u8, max: u8) -> u8 {
        max / 2
    }
}

fn ip4(a: u8, b: u8, c: u8, d: u8) -> u32 {
    u32::from_be_bytes([a, b, c, d])
}

fn addrs(text: &str, test_all: bool) -> Vec<IpAddress> {
    let mut out = Vec::new();
    let mut rng = HalfRand;
    parse_and_append_cidr(text, test_all, &mut out, &mut rng, None::<&mut fn(&str)>);
    out
}

fn v4s(v: &[IpAddress]) -> Vec<u32> {
    v.iter()
        .map(|a| match a {
            IpAddress::V4(x) => *x,
            IpAddress::V6(_) => panic!("unexpected IPv6 address"),
        })
        .collect()
}

#[test]
fn whole_slash_24_in_order() {
    let got = v4s(&addrs("192.168.1.0/24", true));
    let want: Vec<u32> = (0..256).map(|i| ip4(192, 168, 1, 0) + i).collect();
    assert_eq!(got, want);
}

#[test]
fn small_network_from_any_member() {
    let want: Vec<u32> = (4..8).map(|d| ip4(10, 0, 0, d)).collect();
    assert_eq!(v4s(&addrs("10.0.0.4/30", true)), want);
    assert_eq!(v4s(&addrs("10.0.0.6/30", true)), want);
}

#[test]
fn sampled_small_network_stays_inside() {
    let got = v4s(&addrs("10.0.0.6/30", false));
    assert_eq!(got, vec![ip4(10, 0, 0, 5)]);
}

#[test]
fn whole_slash_22_is_every_address() {
    let got = v4s(&addrs("10.0.0.0/22", true));
    let want: Vec<u32> = (0..1024).map(|i| ip4(10, 0, 0, 0) + i).collect();
    assert_eq!(got, want);
}

#[test]
fn sampling_takes_one_per_slash_24() {
    let got = v4s(&addrs("10.0.0.0/22", false));
    assert_eq!(
        got,
        vec![ip4(10, 0, 0, 127), ip4(10, 0, 1, 127), ip4(10, 0, 2, 127), ip4(10, 0, 3, 127)]
    );
}

#[test]
fn unaligned_block_covers_the_whole_network() {
    let got = v4s(&addrs("10.0.1.5/23", true));
    let want: Vec<u32> = (0..512).map(|d| ip4(10, 0, 0, 0) + d).collect();
    assert_eq!(got, want);
    assert_eq!(
        v4s(&addrs("10.0.1.5/23", false)),
        vec![ip4(10, 0, 0, 127), ip4(10, 0, 1, 127)]
    );
}

#[test]
fn block_at_the_top_visits_each_slash_24_once() {
    let got = v4s(&addrs("255.255.254.0/23", true));
    let want: Vec<u32> = (0..512).map(|d| ip4(255, 255, 254, 0) + d).collect();
    assert_eq!(got, want);
    assert_eq!(got[511], u32::MAX);
    assert_eq!(
        v4s(&addrs("255.255.254.0/23", false)),
        vec![ip4(255, 255, 254, 127), ip4(255, 255, 255, 127)]
    );
}

#[test]
fn slash_8_sampled_once_per_slash_24() {
    let got = v4s(&addrs("10.20.30.40/8", false));
    assert_eq!(got.len(), 1 << 16);
    for (i, a) in got.iter().enumerate() {
        assert_eq!(*a, ip4(10, 0, 0, 127) + 256 * i as u32);
    }
}

#[test]
fn bare_addresses_are_single_hosts() {
    assert_eq!(addrs("1.1.1.1", false), vec![IpAddress::V4(ip4(1, 1, 1, 1))]);
    assert_eq!(addrs("1.1.1.1/32", true), vec![IpAddress::V4(ip4(1, 1, 1, 1))]);
    assert_eq!(addrs("2606:4700::1", true), vec![IpAddress::V6(0x2606_4700_0000_0000_0000_0000_0000_0001)]);
}

#[test]
fn ipv6_networks_get_random_last_bytes() {
    let got = addrs("2606:4700::1234:5678/32", true);
    assert_eq!(got, vec![IpAddress::V6(0x2606_4700_0000_0000_0000_0000_1234_7f7f)]);
}

#[test]
fn ipv6_samples_stay_inside_small_networks() {
    assert_eq!(
        addrs("2001:db8::/120", false),
        vec![IpAddress::V6(0x2001_0db8_0000_0000_0000_0000_0000_007f)]
    );
    assert_eq!(
        addrs("2001:db8::1:0/127", true),
        vec![IpAddress::V6(0x2001_0db8_0000_0000_0000_0000_0001_0001)]
    );
    assert_eq!(
        addrs("2001:db8::ab00/112", false),
        vec![IpAddress::V6(0x2001_0db8_0000_0000_0000_0000_0000_7f7f)]
    );
}

#[test]
fn invalid_text_adds_nothing_and_warns() {
    for text in ["abc", "1.2.3.4/33", "1.2.3.4/24/1", "300.1.1.1", ""] {
        let mut out = Vec::new();
        let mut rng = HalfRand;
        let mut warned: Vec<String> = Vec::new();
        let mut cb = |t: &str| warned.push(t.to_string());
        parse_and_append_cidr(text, false, &mut out, &mut rng, Some(&mut cb));
        assert!(out.is_empty());
        assert_eq!(warned, vec![text.to_string()]);
    }
}

#[test]
fn appending_keeps_earlier_addresses() {
    let mut out = vec![IpAddress::V4(7)];
    let mut rng = HalfRand;
    parse_and_append_cidr("1.0.0.1", false, &mut out, &mut rng, None::<&mut fn(&str)>);
    assert_eq!(out, vec![IpAddress::V4(7), IpAddress::V4(ip4(1, 0, 0, 1))]);
}

#[test]
fn lines_are_trimmed_before_parsing() {
    let mut out = Vec::new();
    let mut rng = HalfRand;
    parse_ip_line("  1.1.1.1 \r\n", false, &mut out, &mut rng, None::<&mut fn(&str)>);
    parse_ip_line("\u{3000}2.2.2.2\t", false, &mut out, &mut rng, None::<&mut fn(&str)>);
    parse_ip_line("   \n", false, &mut out, &mut rng, None::<&mut fn(&str)>);
    assert_eq!(out, vec![IpAddress::V4(ip4(1, 1, 1, 1)), IpAddress::V4(ip4(2, 2, 2, 2))]);
}

#[test]
fn a_line_is_one_piece_even_with_commas() {
    let mut out = Vec::new();
    let mut rng = HalfRand;
    let mut warned: Vec<String> = Vec::new();
    let mut cb = |t: &str| warned.push(t.to_string());
    parse_ip_line("1.1.1.1, 2.2.2.2\n", false, &mut out, &mut rng, Some(&mut cb));
    assert!(out.is_empty());
    assert_eq!(warned, vec!["1.1.1.1, 2.2.2.2".to_string()]);
}

#[test]
fn text_splits_at_lines_and_commas() {
    let mut rng = HalfRand;
    let ips = parse_ip_ranges_from_str(
        "1.1.1.1\n2.2.2.2, 3.3.3.3\r\n\n ,\n",
        false,
        &mut rng,
        None::<fn(&str)>,
    );
    assert_eq!(
        ips,
        vec![
            IpAddress::V4(ip4(1, 1, 1, 1)),
            IpAddress::V4(ip4(2, 2, 2, 2)),
            IpAddress::V4(ip4(3, 3, 3, 3))
        ]
    );
}

#[test]
fn text_with_every_address() {
    let mut rng = HalfRand;
    let ips = parse_ip_ranges_from_str("10.0.0.0/31,10.0.0.8/31", true, &mut rng, None::<fn(&str)>);
    assert_eq!(
        v4s(&ips),
        vec![ip4(10, 0, 0, 0), ip4(10, 0, 0, 1), ip4(10, 0, 0, 8), ip4(10, 0, 0, 9)]
    );
}

#[test]
fn empty_text_gives_nothing() {
    let mut rng = HalfRand;
    assert!(parse_ip_ranges_from_str("", true, &mut rng, None::<fn(&str)>).is_empty());
    assert!(parse_ip_ranges_from_str(" \n , ", true, &mut rng, None::<fn(&str)>).is_empty());
}

#[test]
fn each_bad_piece_is_reported_once_in_order() {
    let mut rng = HalfRand;
    let mut warned: Vec<String> = Vec::new();
    let ips = parse_ip_ranges_from_str(
        " bad1 ,1.1.1.1\n  \n300.0.0.1/8, 2.2.2.2,bad1",
        false,
        &mut rng,
        Some(|t: &str| warned.push(t.to_string())),
    );
    assert_eq!(ips, vec![IpAddress::V4(ip4(1, 1, 1, 1)), IpAddress::V4(ip4(2, 2, 2, 2))]);
    assert_eq!(warned, vec!["bad1".to_string(), "300.0.0.1/8".to_string(), "bad1".to_string()]);
}

#[test]
fn warnings_do_not_change_the_result() {
    let text = "x, 10.0.0.0/30, y\n2606:4700::/126";
    let mut rng1 = HalfRand;
    let with = parse_ip_ranges_from_str(text, false, &mut rng1, Some(|_: &str| {}));
    let mut rng2 = HalfRand;
    let without = parse_ip_ranges_from_str(text, false, &mut rng2, None::<fn(&str)>);
    assert_eq!(with, without);
}

struct Lines(Vec<&'static str>, bool);

impl cf_picker::traits::LineReader for Lines {
    type Error = String;

    fn read_line(&mut self, buf: &mut String) -> Result<usize, String> {
        if self.0.is_empty() {
            if self.1 {
                return Err("broken".to_string());
            }
            return Ok(0);
        }
        let line = self.0.remove(0);
        buf.push_str(line);
        Ok(line.len())
    }
}

#[test]
fn reading_steps_parse_each_line_until_the_end() {
    let mut reader = Lines(vec!["1.1.1.1\n", "   \n", "nope\n", "10.0.0.0/31"], false);
    let mut buf = String::from("left over");
    let mut ips = Vec::new();
    let mut rng = HalfRand;
    let mut warned: Vec<String> = Vec::new();
    let mut cb = |t: &str| warned.push(t.to_string());
    let mut steps = 0;
    while parse_ip_ranges_step(&mut reader, &mut buf, true, &mut ips, &mut rng, Some(&mut cb)).unwrap() {
        steps += 1;
    }
    assert_eq!(steps, 4);
    assert_eq!(
        ips,
        vec![IpAddress::V4(ip4(1, 1, 1, 1)), IpAddress::V4(ip4(10, 0, 0, 0)), IpAddress::V4(ip4(10, 0, 0, 1))]
    );
    assert_eq!(warned, vec!["nope".to_string()]);
}

#[test]
fn reading_step_hands_back_read_errors() {
    let mut reader = Lines(vec![], true);
    let mut buf = String::new();
    let mut ips = Vec::new();
    let mut rng = HalfRand;
    let r = parse_ip_ranges_step(&mut reader, &mut buf, false, &mut ips, &mut rng, None::<&mut fn(&str)>);
    assert_eq!(r, Err("broken".to_string()));
    assert!(ips.is_empty());
}

#[test]
fn a_warning_log_gets_exactly_the_bad_pieces() {
    let mut rng = HalfRand;
    let mut sink = Some(WarningLog::new());
    let ips = parse_ip_text_with_sink(
        "1.1.1.1, invalid_ip_format, 1.0.0.1\n ,\tbad \n10.0.0.0/31",
        true,
        &mut rng,
        &mut sink,
    );
    assert_eq!(
        ips,
        vec![
            IpAddress::V4(ip4(1, 1, 1, 1)),
            IpAddress::V4(ip4(1, 0, 0, 1)),
            IpAddress::V4(ip4(10, 0, 0, 0)),
            IpAddress::V4(ip4(10, 0, 0, 1))
        ]
    );
    assert_eq!(sink.unwrap().lines, vec!["invalid_ip_format".to_string(), "bad".to_string()]);
}
