//! The scan engine's planning, expansion, formatting, and aggregation.

use notion_agent::args::CommandArgs;
use notion_agent::scan::{
    collect_scan_results, eval_target, expand_target, format_addr, format_hit, get_ports,
    parse_ipv4, plan_portscan, CidrRange, IpAddress, ScanDecision, ScanTarget,
};
use notion_agent::strutil::{parse_bool_or_false, parse_u64_or, parse_usize_or, u64_to_string};

#[test]
fn slash_thirty_expands_to_exactly_four_addresses() {
    let target = eval_target("10.0.0.0/30".to_string());
    match &target {
        ScanTarget::Cidr(CidrRange::V4 { first, last }) => {
            assert_eq!(*first, 0x0a000000);
            assert_eq!(*last, 0x0a000003);
        },
        _ => panic!("10.0.0.0/30 should be a four-octet range"),
    }
    let addrs = expand_target(&target);
    assert_eq!(addrs.len(), 4);
    assert_eq!(addrs[0], IpAddress::V4(0x0a000000));
    assert_eq!(addrs[1], IpAddress::V4(0x0a000001));
    assert_eq!(addrs[2], IpAddress::V4(0x0a000002));
    assert_eq!(addrs[3], IpAddress::V4(0x0a000003));
}

#[test]
fn bare_address_covers_exactly_itself() {
    let target = eval_target("127.0.0.1".to_string());
    let addrs = expand_target(&target);
    assert_eq!(addrs.len(), 1);
    assert_eq!(addrs[0], IpAddress::V4(0x7f000001));
}

#[test]
fn unrecognized_target_covers_nothing() {
    let target = eval_target("banana".to_string());
    assert!(matches!(target, ScanTarget::Unknown(_)));
    assert_eq!(expand_target(&target).len(), 0);
}

#[test]
fn dotted_quad_parser_follows_strict_octets() {
    assert_eq!(parse_ipv4("192.168.35.5"), Some(0xc0a82305));
    assert_eq!(parse_ipv4("0.0.0.0"), Some(0));
    assert_eq!(parse_ipv4("255.255.255.255"), Some(u32::MAX));
    assert_eq!(parse_ipv4("256.0.0.1"), None);
    assert_eq!(parse_ipv4("01.2.3.4"), None);
    assert_eq!(parse_ipv4("1.2.3"), None);
    assert_eq!(parse_ipv4("1.2.3.4.5"), None);
    assert_eq!(parse_ipv4("a.b.c.d"), None);
}

#[test]
fn port_sets_are_the_curated_list_or_the_full_range() {
    let common = get_ports(false);
    assert_eq!(common.len(), 119);
    assert_eq!(common[0], 5601);
    assert_eq!(common[common.len() - 1], 255);
    assert!(common.contains(&22));
    let full = get_ports(true);
    assert_eq!(full.len(), 65535);
    assert_eq!(full[0], 1);
    assert_eq!(full[65534], 65535);
}

#[test]
fn hit_line_matches_the_operator_format() {
    let line = format_hit(IpAddress::V4(0x7f000001), 22);
    assert_eq!(line.as_str(), "22 is open on host 127.0.0.1");
}

#[test]
fn addresses_render_as_text() {
    assert_eq!(format_addr(IpAddress::V4(0xc0a82305)).as_str(), "192.168.35.5");
    assert_eq!(format_addr(IpAddress::V6(1)).as_str(), "0:0:0:0:0:0:0:1");
    assert_eq!(u64_to_string(65535).as_str(), "65535");
}

#[test]
fn short_argument_lists_earn_the_usage_reminder() {
    let mut args = CommandArgs::from_string("127.0.0.1 false 10 50".to_string());
    match plan_portscan(&mut args) {
        ScanDecision::Reject(m) => assert!(m.starts_with("[-] Improper args.")),
        ScanDecision::Run(_) => panic!("four tokens should not plan a scan"),
    }
}

#[test]
fn zero_concurrency_is_refused_before_any_work() {
    let mut args =
        CommandArgs::from_string("127.0.0.1 false 0 50 \u{1f3af}".to_string());
    match plan_portscan(&mut args) {
        ScanDecision::Reject(m) => {
            assert_eq!(m.as_str(), "Concurrency value must be greater than 0!")
        },
        ScanDecision::Run(_) => panic!("zero concurrency should be refused"),
    }
}

#[test]
fn unknown_target_plans_zero_probes() {
    let mut args = CommandArgs::from_string("banana false 10 50 \u{1f3af}".to_string());
    match plan_portscan(&mut args) {
        ScanDecision::Run(plan) => {
            assert_eq!(plan.probes.len(), 0);
            assert_eq!(plan.concurrency, 10);
            assert_eq!(plan.timeout_ms, 50);
        },
        ScanDecision::Reject(m) => panic!("unknown target is a quiet no-op, got: {m}"),
    }
}

#[test]
fn plan_crosses_addresses_with_ports_and_keeps_arguments() {
    let mut args = CommandArgs::from_string("10.0.0.0/30 false 10 50 \u{1f3af}".to_string());
    match plan_portscan(&mut args) {
        ScanDecision::Run(plan) => {
            assert_eq!(plan.probes.len(), 4 * 119);
            assert_eq!(plan.probes[0], (IpAddress::V4(0x0a000000), 5601));
            assert_eq!(plan.probes[119], (IpAddress::V4(0x0a000001), 5601));
            assert!(plan.probes.contains(&(IpAddress::V4(0x0a000003), 22)));
            assert_eq!(plan.concurrency, 10);
            assert_eq!(plan.timeout_ms, 50);
        },
        ScanDecision::Reject(m) => panic!("a narrow range should plan, got: {m}"),
    }
}

#[test]
fn unparseable_numbers_fall_back_to_defaults() {
    let mut args =
        CommandArgs::from_string("127.0.0.1 notabool abc xyz \u{1f3af}".to_string());
    match plan_portscan(&mut args) {
        ScanDecision::Run(plan) => {
            assert_eq!(plan.probes.len(), 119);
            assert_eq!(plan.concurrency, 5);
            assert_eq!(plan.timeout_ms, 1000);
        },
        ScanDecision::Reject(m) => panic!("defaults should apply, got: {m}"),
    }
}

#[test]
fn full_flag_only_reads_the_word_true() {
    assert!(parse_bool_or_false("true"));
    assert!(!parse_bool_or_false("false"));
    assert!(!parse_bool_or_false("True"));
    assert!(!parse_bool_or_false("yes"));
}

#[test]
fn numeric_parsing_accepts_plus_and_rejects_junk() {
    assert_eq!(parse_u64_or("123", 1000), 123);
    assert_eq!(parse_u64_or("+42", 1000), 42);
    assert_eq!(parse_u64_or("", 1000), 1000);
    assert_eq!(parse_u64_or("12a", 1000), 1000);
    assert_eq!(parse_u64_or("99999999999999999999999", 1000), 1000);
    assert_eq!(parse_usize_or("7", 5), 7);
    assert_eq!(parse_usize_or("-7", 5), 5);
}

#[test]
fn no_hits_report_the_no_result_line() {
    let hits: Vec<String> = Vec::new();
    assert_eq!(collect_scan_results(&hits).as_str(), "[*] No scan results");
}

#[test]
fn hits_join_into_one_report() {
    let hits = vec!["22 is open on host 10.0.0.1".to_string(), "80 is open on host 10.0.0.1"
        .to_string()];
    assert_eq!(
        collect_scan_results(&hits).as_str(),
        "22 is open on host 10.0.0.1\n80 is open on host 10.0.0.1"
    );
}

#[test]
fn report_set_does_not_depend_on_arrival_order() {
    let a = "22 is open on host 127.0.0.1".to_string();
    let b = "80 is open on host 127.0.0.1".to_string();
    let run1 = collect_scan_results(&vec![a.clone(), b.clone()]);
    let run2 = collect_scan_results(&vec![b, a]);
    let mut set1: Vec<&str> = run1.split('\n').collect();
    let mut set2: Vec<&str> = run2.split('\n').collect();
    set1.sort();
    set2.sort();
    assert_eq!(set1, set2);
}

#[test]
fn bare_ipv6_literal_is_a_one_address_range() {
    let target = eval_target("::1".to_string());
    match &target {
        ScanTarget::Cidr(CidrRange::V6 { first, last }) => {
            assert_eq!(*first, 1);
            assert_eq!(*last, 1);
        },
        _ => panic!("::1 should be a one-address range"),
    }
    let addrs = expand_target(&target);
    assert_eq!(addrs, vec![IpAddress::V6(1)]);
}

#[test]
fn ipv6_range_enumerates_like_ipv4() {
    let target = eval_target("2001:db8::/126".to_string());
    let addrs = expand_target(&target);
    assert_eq!(addrs.len(), 4);
    assert_eq!(addrs[0], IpAddress::V6(0x20010db8000000000000000000000000));
    assert_eq!(addrs[3], IpAddress::V6(0x20010db8000000000000000000000003));
}

#[test]
fn a_plain_address_target_expands_to_itself() {
    let target = ScanTarget::Address(IpAddress::V6(1));
    assert_eq!(expand_target(&target), vec![IpAddress::V6(1)]);
    let hit = format_hit(IpAddress::V6(1), 80);
    assert_eq!(hit.as_str(), "80 is open on host 0:0:0:0:0:0:0:1");
}
