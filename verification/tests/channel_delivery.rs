//! Chunked result delivery, endpoint URLs, the privilege icon, and the
//! pending-task filter.

use notion_agent::channel::{
    block_url, check_in_emoji, children_url, chunk_output, pages_url, pending_tasks, Task,
};

fn concat(chunks: &Vec<Vec<u8>>) -> Vec<u8> {
    let mut all: Vec<u8> = Vec::new();
    for c in chunks {
        all.extend_from_slice(c);
    }
    all
}

#[test]
fn empty_result_yields_no_chunks() {
    let chunks = chunk_output(&Vec::new());
    assert_eq!(chunks.len(), 0);
}

#[test]
fn short_result_is_one_chunk() {
    let data = vec![7u8; 123];
    let chunks = chunk_output(&data);
    assert_eq!(chunks.len(), 1);
    assert_eq!(concat(&chunks), data);
}

#[test]
fn exact_ceiling_is_one_full_chunk() {
    let data = vec![1u8; 2000];
    let chunks = chunk_output(&data);
    assert_eq!(chunks.len(), 1);
    assert_eq!(chunks[0].len(), 2000);
    assert_eq!(concat(&chunks), data);
}

#[test]
fn one_byte_over_the_ceiling_splits() {
    let data = vec![2u8; 2001];
    let chunks = chunk_output(&data);
    assert_eq!(chunks.len(), 2);
    assert_eq!(chunks[0].len(), 2000);
    assert_eq!(chunks[1].len(), 1);
    assert_eq!(concat(&chunks), data);
}

#[test]
fn chunking_round_trips_byte_for_byte() {
    for n in [0usize, 1, 500, 1999, 2000, 2001, 4000, 4001, 6000, 6001] {
        let data: Vec<u8> = (0..n).map(|i| (i % 251) as u8).collect();
        let chunks = chunk_output(&data);
        assert_eq!(concat(&chunks), data);
        for (k, c) in chunks.iter().enumerate() {
            assert!(!c.is_empty());
            if k + 1 < chunks.len() {
                assert_eq!(c.len(), 2000);
            } else {
                assert!(c.len() <= 2000);
            }
        }
    }
}

#[test]
fn endpoint_urls_are_assembled_exactly() {
    let base = "https://api.notion.com/v1";
    assert_eq!(
        children_url(base, "abc-123").as_str(),
        "https://api.notion.com/v1/blocks/abc-123/children"
    );
    assert_eq!(block_url(base, "abc-123").as_str(), "https://api.notion.com/v1/blocks/abc-123");
    assert_eq!(pages_url(base).as_str(), "https://api.notion.com/v1/pages/");
}

#[test]
fn privilege_icon_tells_admin_from_plain() {
    assert_eq!(check_in_emoji(true).as_str(), "#\u{fe0f}\u{20e3}");
    assert_eq!(check_in_emoji(false).as_str(), "\u{1f4b2}");
}

#[test]
fn pending_tasks_keeps_only_unchecked_in_order() {
    let tasks = vec![
        Task { id: "a".to_string(), instruction: "whoami".to_string(), completed: true },
        Task { id: "b".to_string(), instruction: "pwd".to_string(), completed: false },
        Task { id: "c".to_string(), instruction: "ls".to_string(), completed: false },
    ];
    let pending = pending_tasks(&tasks);
    assert_eq!(pending.len(), 2);
    assert_eq!(pending[0].id.as_str(), "b");
    assert_eq!(pending[1].id.as_str(), "c");
}

#[test]
fn pending_tasks_of_all_done_is_empty() {
    let tasks = vec![Task {
        id: "a".to_string(),
        instruction: "whoami".to_string(),
        completed: true,
    }];
    assert_eq!(pending_tasks(&tasks).len(), 0);
}
