use orbital_files::content_range_value;
use orbital_files::plan_chunks;
use orbital_files::u64_to_decimal;

#[test]
fn chunk_plan_counts_and_reassembles() {
    let content: Vec<u8> = (0u8..10).collect();
    let plan = plan_chunks(&content, 4);
    assert_eq!(plan.len(), 3);
    assert_eq!(plan[0].start, 0);
    assert_eq!(plan[1].start, 4);
    assert_eq!(plan[2].start, 8);
    assert_eq!(plan[0].data.len(), 4);
    assert_eq!(plan[1].data.len(), 4);
    assert_eq!(plan[2].data.len(), 2);
    let mut joined: Vec<u8> = Vec::new();
    for chunk in &plan {
        joined.extend_from_slice(&chunk.data);
    }
    assert_eq!(joined, content);
    assert_eq!(plan[2].range_end(), 9);
}

#[test]
fn chunk_plan_exact_multiple_has_no_empty_tail() {
    let content: Vec<u8> = vec![7; 8];
    let plan = plan_chunks(&content, 4);
    assert_eq!(plan.len(), 2);
    assert_eq!(plan[1].data.len(), 4);
    assert_eq!(plan[1].range_end(), 7);
}

#[test]
fn chunk_plan_of_empty_buffer_is_empty() {
    let content: Vec<u8> = Vec::new();
    let plan = plan_chunks(&content, 4);
    assert_eq!(plan.len(), 0);
}

#[test]
fn chunk_plan_smaller_than_chunk_size_is_one_chunk() {
    let content = b"hello".to_vec();
    let plan = plan_chunks(&content, orbital_files::UPLOAD_CHUNK_ALIGNMENT);
    assert_eq!(plan.len(), 1);
    assert_eq!(plan[0].start, 0);
    assert_eq!(plan[0].data, content);
    assert_eq!(plan[0].range_end(), 4);
}

#[test]
fn upload_alignment_is_the_documented_constant() {
    assert_eq!(orbital_files::UPLOAD_CHUNK_ALIGNMENT, 327_680);
}

#[test]
fn content_range_renders_inclusive_offsets() {
    assert_eq!(
        content_range_value(0, 327_679, 1_000_000),
        "bytes 0-327679/1000000"
    );
    assert_eq!(content_range_value(327_680, 499_999, 500_000), "bytes 327680-499999/500000");
}

#[test]
fn decimal_rendering_matches_expected_values() {
    assert_eq!(u64_to_decimal(0), "0");
    assert_eq!(u64_to_decimal(7), "7");
    assert_eq!(u64_to_decimal(10), "10");
    assert_eq!(u64_to_decimal(9007), "9007");
    assert_eq!(u64_to_decimal(u64::MAX), "18446744073709551615");
}
