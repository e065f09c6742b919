//! The process-listing filter and its substring match.

use notion_agent::procs::{get_processes, str_contains};

#[test]
fn filter_matches_case_insensitively_on_the_listing_side() {
    let procs = vec![
        (101u32, "WinLogon.exe".to_string()),
        (202u32, "explorer.exe".to_string()),
        (303u32, "winlogon-helper".to_string()),
    ];
    let hits = get_processes(&procs, "winlogon");
    assert_eq!(hits.len(), 2);
    assert_eq!(hits[0], (101, "WinLogon.exe".to_string()));
    assert_eq!(hits[1], (303, "winlogon-helper".to_string()));
}

#[test]
fn filter_with_no_match_is_empty() {
    let procs = vec![(1u32, "init".to_string())];
    assert_eq!(get_processes(&procs, "winlogon").len(), 0);
}

#[test]
fn empty_query_keeps_every_entry() {
    let procs = vec![(1u32, "a".to_string()), (2u32, "b".to_string())];
    assert_eq!(get_processes(&procs, "").len(), 2);
}

#[test]
fn substring_search_finds_inner_needles() {
    assert!(str_contains("winlogon.exe", "logon"));
    assert!(str_contains("abc", ""));
    assert!(!str_contains("abc", "abcd"));
    assert!(!str_contains("abc", "ac"));
    assert!(str_contains("aaab", "aab"));
}
