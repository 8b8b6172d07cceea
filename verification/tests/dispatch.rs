use webinfo::model::OriginRecord;
use webinfo::pipeline::parse_all;
use webinfo::utils::chunked;

#[test]
fn test_chunked() {
    let data = vec![1, 2, 3, 4, 5, 6, 7];
    let chunk_size = 3;
    let chunks: Vec<Vec<i32>> = chunked(data, chunk_size);
    assert_eq!(chunks, vec![vec![1, 2, 3], vec![4, 5, 6], vec![7]]);
}

#[test]
fn chunked_keeps_every_record_once() {
    let data: Vec<u32> = (0..23).collect();
    for cap in 1..25 {
        let chunks = chunked(data.clone(), cap);
        let flat: Vec<u32> = chunks.iter().flatten().copied().collect();
        assert_eq!(flat, data);
        for (i, c) in chunks.iter().enumerate() {
            if i + 1 < chunks.len() {
                assert_eq!(c.len(), cap);
            } else {
                assert!(c.len() >= 1 && c.len() <= cap);
            }
        }
    }
}

#[test]
fn chunked_edge_cases() {
    let none: Vec<Vec<u8>> = chunked(Vec::new(), 4);
    assert!(none.is_empty());
    let one = chunked(vec![5u8, 6], 10);
    assert_eq!(one, vec![vec![5u8, 6]]);
    let zero_cap = chunked(vec![1u8, 2, 3], 0);
    assert!(zero_cap.is_empty());
}

fn row(origin: &str) -> OriginRecord {
    OriginRecord {
        origin: origin.to_string(),
        popularity: 1000,
        date: "2025-08-28".to_string(),
        country: "FR".to_string(),
    }
}

#[test]
fn parse_all_emits_one_outcome_per_record() {
    let records = vec![
        row("https://www.example.com"),
        row("https://www.example.toto"),
        row("https://www.example.co.uk"),
    ];
    let outcomes = parse_all(records);
    assert_eq!(outcomes.len(), 3);
    assert!(outcomes[0].is_ok());
    assert!(outcomes[1].is_err());
    assert!(outcomes[2].is_ok());
}

#[test]
fn failed_record_leaves_siblings_untouched() {
    // One record that cannot even parse stands between two healthy ones;
    // both siblings still come out with their own hostnames.
    let records = vec![
        row("https://www.free.fr"),
        row("https://www.example.toto"),
        row("https://www.example.com"),
    ];
    let outcomes = parse_all(records);
    assert_eq!(outcomes.len(), 3);
    let first = outcomes[0].as_ref().unwrap();
    assert_eq!(first.hostname, "www.free.fr");
    assert!(outcomes[1].is_err());
    let third = outcomes[2].as_ref().unwrap();
    assert_eq!(third.hostname, "www.example.com");
}
