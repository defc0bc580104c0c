use grid_step::{buffers_overlap, validate_raw_call, StepError, CELL_BYTES};

#[test]
fn same_buffer_is_refused() {
    assert_eq!(validate_raw_call(4096, 4096, 3), Err(StepError::AliasedBuffers));
    assert_eq!(validate_raw_call(4096, 4096, 0), Err(StepError::AliasedBuffers));
}

#[test]
fn overlapping_buffers_are_refused() {
    // 3 x 3 cells of 4 bytes: 36 bytes each
    assert_eq!(validate_raw_call(4096, 4096 + 32, 3), Err(StepError::AliasedBuffers));
    assert_eq!(validate_raw_call(4096 + 32, 4096, 3), Err(StepError::AliasedBuffers));
    assert_eq!(validate_raw_call(4096, 4096 + 36, 3), Ok(9));
    assert_eq!(validate_raw_call(4096 + 36, 4096, 3), Ok(9));
}

#[test]
fn distinct_buffers_give_the_cell_count() {
    assert_eq!(validate_raw_call(8, 4096, 0), Ok(0));
    assert_eq!(validate_raw_call(1 << 20, 1 << 21, 100), Ok(10000));
}

#[test]
fn negative_side_is_refused() {
    assert_eq!(validate_raw_call(8, 4096, -1), Err(StepError::NegativeDimension));
    assert_eq!(validate_raw_call(0, 0, i32::MIN), Err(StepError::NegativeDimension));
}

#[test]
fn null_buffer_is_refused() {
    assert_eq!(validate_raw_call(0, 4096, 2), Err(StepError::NullBuffer));
    assert_eq!(validate_raw_call(4096, 0, 2), Err(StepError::NullBuffer));
}

#[test]
fn misaligned_buffer_is_refused() {
    assert_eq!(validate_raw_call(4098, 8192, 2), Err(StepError::MisalignedBuffer));
    assert_eq!(validate_raw_call(4096, 8193, 2), Err(StepError::MisalignedBuffer));
}

#[test]
fn grid_beyond_the_address_space_is_refused() {
    assert_eq!(validate_raw_call(4096, 8192, i32::MAX), Err(StepError::GridTooLarge));
    let top = usize::MAX - usize::MAX % CELL_BYTES - 12;
    assert_eq!(validate_raw_call(top, 4096, 2), Err(StepError::GridTooLarge));
    assert_eq!(validate_raw_call(4096, top, 2), Err(StepError::GridTooLarge));
    assert_eq!(validate_raw_call(top - 4, 4096, 2), Ok(4));
}

#[test]
fn overlap_of_byte_ranges() {
    assert!(buffers_overlap(0, 0, 0) == false);
    assert!(buffers_overlap(10, 10, 1));
    assert!(buffers_overlap(10, 13, 4));
    assert!(!buffers_overlap(10, 14, 4));
    assert!(!buffers_overlap(14, 10, 4));
}

#[test]
fn error_codes_are_distinct_and_nonzero() {
    let all = [
        StepError::NegativeDimension,
        StepError::GridTooLarge,
        StepError::NullBuffer,
        StepError::MisalignedBuffer,
        StepError::AliasedBuffers,
        StepError::OutputTooShort,
        StepError::InputTooShort,
    ];
    let codes: Vec<i32> = all.iter().map(|e| e.code()).collect();
    assert_eq!(codes, vec![1, 2, 3, 4, 5, 6, 7]);
}
