use rdm_core::planner::{create_pieces, plan_spans, Span, MAX_CONNECTIONS, MIN_PIECE_SIZE};
use rdm_core::types::{SegmentState, StreamType};

fn check_tiling(spans: &[Span], size: i64) {
    let mut sorted = spans.to_vec();
    sorted.sort_by_key(|s| s.offset);
    let mut next = 0;
    for s in &sorted {
        assert_eq!(s.offset, next);
        next += s.length;
    }
    assert_eq!(next, size);
}

#[test]
fn test_create_pieces_small_file() {
    let pieces = create_pieces(256 * 1024, 8);
    assert_eq!(pieces.len(), 1);
    assert_eq!(pieces[0].offset, 0);
    assert_eq!(pieces[0].length, 256 * 1024);
}

#[test]
fn test_create_pieces_splits_evenly() {
    let file_size = 8 * 1024 * 1024;
    let pieces = create_pieces(file_size, 8);
    assert_eq!(pieces.len(), 8);

    let mut sorted = pieces.clone();
    sorted.sort_by_key(|p| p.offset);
    let total: i64 = sorted.iter().map(|p| p.length).sum();
    assert_eq!(total, file_size as i64);

    for i in 1..sorted.len() {
        assert_eq!(sorted[i].offset, sorted[i - 1].offset + sorted[i - 1].length);
    }
}

#[test]
fn test_create_pieces_respects_min_size() {
    let file_size = 1024 * 1024;
    let pieces = create_pieces(file_size, 8);
    assert!(pieces.len() <= 4);

    let mut sorted = pieces.clone();
    sorted.sort_by_key(|p| p.offset);
    let total: i64 = sorted.iter().map(|p| p.length).sum();
    assert_eq!(total, file_size as i64);
}

#[test]
fn test_create_pieces_single_connection() {
    let file_size = 10 * 1024 * 1024;
    let pieces = create_pieces(file_size, 1);
    assert_eq!(pieces.len(), 1);
    assert_eq!(pieces[0].length, file_size as i64);
}

#[test]
fn test_create_pieces_odd_size() {
    let file_size: u64 = 1_000_001;
    let pieces = create_pieces(file_size, 4);

    let mut sorted = pieces.clone();
    sorted.sort_by_key(|p| p.offset);
    let total: i64 = sorted.iter().map(|p| p.length).sum();
    assert_eq!(total, file_size as i64, "total bytes must equal file size");

    for i in 1..sorted.len() {
        assert_eq!(
            sorted[i].offset,
            sorted[i - 1].offset + sorted[i - 1].length,
            "gap or overlap at piece {}",
            i
        );
    }
}

#[test]
fn test_create_pieces_all_unique_ids() {
    let pieces = create_pieces(8 * 1024 * 1024, 8);
    let ids: Vec<&str> = pieces.iter().map(|p| p.id.as_str()).collect();
    let mut unique = ids.clone();
    unique.sort();
    unique.dedup();
    assert_eq!(ids.len(), unique.len(), "all piece IDs must be unique");
}

#[test]
fn constants_of_the_planner() {
    assert_eq!(MIN_PIECE_SIZE, 262_144);
    assert_eq!(MAX_CONNECTIONS, 8);
}

#[test]
fn ids_are_hyphenated_lower_case_hex() {
    let pieces = create_pieces(4 * 1024 * 1024, 4);
    for p in &pieces {
        assert_eq!(p.id.len(), 36);
        for (i, c) in p.id.chars().enumerate() {
            if i == 8 || i == 13 || i == 18 || i == 23 {
                assert_eq!(c, '-');
            } else {
                assert!(c.is_ascii_digit() || ('a'..='f').contains(&c), "{c}");
            }
        }
    }
}

#[test]
fn new_pieces_are_not_started() {
    for p in create_pieces(3 * 1024 * 1024, 8) {
        assert_eq!(p.downloaded, 0);
        assert_eq!(p.state, SegmentState::NotStarted);
        assert_eq!(p.stream_type, StreamType::Primary);
    }
}

#[test]
fn below_twice_the_minimum_there_is_one_range() {
    for size in [0u64, 1, 262_143, 262_144, 524_287] {
        for limit in [0usize, 1, 2, 8, 64] {
            let spans = plan_spans(size, limit);
            assert_eq!(spans, vec![Span { offset: 0, length: size as i64 }]);
        }
    }
}

#[test]
fn exactly_twice_the_minimum_is_split_once() {
    let spans = plan_spans(524_288, 8);
    assert_eq!(
        spans,
        vec![
            Span { offset: 0, length: 262_144 },
            Span { offset: 262_144, length: 262_144 }
        ]
    );
}

#[test]
fn a_power_of_two_of_minimum_pieces_splits_evenly() {
    for k in 0..7u32 {
        let n = 1usize << k;
        let size = (n as u64) * 262_144;
        let spans = plan_spans(size, n);
        assert_eq!(spans.len(), n);
        for s in &spans {
            assert_eq!(s.length, 262_144);
        }
        check_tiling(&spans, size as i64);
    }
}

#[test]
fn three_minimum_pieces_give_two_ranges() {
    let spans = plan_spans(3 * 262_144, 3);
    assert_eq!(
        spans,
        vec![
            Span { offset: 0, length: 393_216 },
            Span { offset: 393_216, length: 393_216 }
        ]
    );
}

#[test]
fn one_byte_short_of_four_minimum_pieces_gives_three_ranges() {
    let spans = plan_spans(4 * 262_144 - 1, 8);
    assert_eq!(spans.len(), 3);
    check_tiling(&spans, 4 * 262_144 - 1);
    let mut lengths: Vec<i64> = spans.iter().map(|s| s.length).collect();
    lengths.sort();
    assert_eq!(lengths, vec![262_144, 262_144, 524_287]);
}

#[test]
fn the_limit_caps_the_number_of_ranges() {
    let size = 1u64 << 30;
    for limit in 1..=20usize {
        let spans = plan_spans(size, limit);
        assert_eq!(spans.len(), limit);
        check_tiling(&spans, size as i64);
        let max = spans.iter().map(|s| s.length).max().unwrap();
        let min = spans.iter().map(|s| s.length).min().unwrap();
        assert!(max <= 2 * min + 1);
    }
}

#[test]
fn halving_order_of_a_plan_for_four() {
    let spans = plan_spans(4_000_000, 4);
    assert_eq!(
        spans,
        vec![
            Span { offset: 0, length: 1_000_000 },
            Span { offset: 2_000_000, length: 1_000_000 },
            Span { offset: 3_000_000, length: 1_000_000 },
            Span { offset: 1_000_000, length: 1_000_000 },
        ]
    );
}

#[test]
fn odd_sizes_lose_no_byte() {
    for size in [1_000_001u64, 999_999, 7_777_777, 1_048_577, 33_554_431] {
        let spans = plan_spans(size, 8);
        check_tiling(&spans, size as i64);
        for s in &spans {
            assert!(s.length >= 262_144);
        }
    }
}

#[test]
fn a_size_beyond_i64_is_one_unbounded_range() {
    assert_eq!(plan_spans(u64::MAX, 8), vec![Span { offset: 0, length: -1 }]);
    assert_eq!(plan_spans(1u64 << 63, 8), vec![Span { offset: 0, length: -1 }]);
    let spans = plan_spans(i64::MAX as u64, 4);
    assert_eq!(spans.len(), 4);
    check_tiling(&spans, i64::MAX);
    let pieces = create_pieces(u64::MAX, 8);
    assert_eq!(pieces.len(), 1);
    assert_eq!((pieces[0].offset, pieces[0].length), (0, -1));
}

#[test]
fn one_mebibyte_for_eight_connections() {
    let spans = plan_spans(1_048_576, 8);
    assert_eq!(spans.len(), 4);
    for s in &spans {
        assert_eq!(s.length, 262_144);
    }
    check_tiling(&spans, 1_048_576);
}
