use frameflow::range::{resolve_range, RangeResolution};

#[test]
fn no_header_serves_whole_file() {
    assert_eq!(resolve_range(None, 100), RangeResolution::Whole);
}

#[test]
fn simple_bounded_range() {
    assert_eq!(
        resolve_range(Some("bytes=0-49"), 100),
        RangeResolution::Partial { start: 0, end: 49 }
    );
}

#[test]
fn open_ended_range_runs_to_eof() {
    assert_eq!(
        resolve_range(Some("bytes=0-"), 100),
        RangeResolution::Partial { start: 0, end: 99 }
    );
}

#[test]
fn reversed_range_is_not_satisfiable() {
    assert_eq!(resolve_range(Some("bytes=10-5"), 100), RangeResolution::NotSatisfiable);
}

#[test]
fn start_beyond_eof_clamps_to_final_byte() {
    assert_eq!(
        resolve_range(Some("bytes=500-"), 100),
        RangeResolution::Partial { start: 99, end: 99 }
    );
}

#[test]
fn both_bounds_beyond_eof_clamp_to_final_byte() {
    assert_eq!(
        resolve_range(Some("bytes=500-600"), 100),
        RangeResolution::Partial { start: 99, end: 99 }
    );
}

#[test]
fn wrong_unit_falls_back_to_whole_file() {
    assert_eq!(resolve_range(Some("chunks=1-2"), 100), RangeResolution::Whole);
}

#[test]
fn missing_prefix_falls_back_to_whole_file() {
    assert_eq!(resolve_range(Some("0-49"), 100), RangeResolution::Whole);
}

#[test]
fn empty_fields_default_to_full_interval() {
    assert_eq!(
        resolve_range(Some("bytes="), 100),
        RangeResolution::Partial { start: 0, end: 99 }
    );
}

#[test]
fn unreadable_fields_default_to_full_interval() {
    assert_eq!(
        resolve_range(Some("bytes=abc-def"), 100),
        RangeResolution::Partial { start: 0, end: 99 }
    );
}

#[test]
fn missing_dash_defaults_end_to_eof() {
    assert_eq!(
        resolve_range(Some("bytes=5"), 100),
        RangeResolution::Partial { start: 5, end: 99 }
    );
}

#[test]
fn extra_dashes_are_ignored_past_the_second_field() {
    assert_eq!(
        resolve_range(Some("bytes=1-2-3"), 100),
        RangeResolution::Partial { start: 1, end: 2 }
    );
}

#[test]
fn empty_start_defaults_to_zero() {
    assert_eq!(
        resolve_range(Some("bytes=-5"), 100),
        RangeResolution::Partial { start: 0, end: 5 }
    );
}

#[test]
fn plus_signed_field_is_accepted() {
    assert_eq!(
        resolve_range(Some("bytes=+3-+7"), 100),
        RangeResolution::Partial { start: 3, end: 7 }
    );
}

#[test]
fn overflowing_number_falls_back_to_default() {
    assert_eq!(
        resolve_range(Some("bytes=18446744073709551616-5"), 100),
        RangeResolution::Partial { start: 0, end: 5 }
    );
}

#[test]
fn single_byte_file_whole_range() {
    assert_eq!(
        resolve_range(Some("bytes=0-0"), 1),
        RangeResolution::Partial { start: 0, end: 0 }
    );
}
