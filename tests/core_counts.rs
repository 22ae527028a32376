use gpu_select::text::{parse_count_str, split_str, trim_str};
use gpu_select::{get_core_count, parse_custom_gpus, CoreCounts, GpuError, DEFAULT_CORE_COUNT};

#[test]
fn builtin_counts_are_returned_exactly() {
    let table = CoreCounts::builtin();
    assert_eq!(table.core_count("Tesla V100"), 5120);
    assert_eq!(table.core_count("GeForce RTX 2080 Ti"), 4352);
    assert_eq!(table.core_count("GeForce RTX 2080"), 2944);
    assert_eq!(table.core_count("GeForce GTX 1650"), 896);
    assert_eq!(table.core_count("gfx1010"), 2560);
    assert_eq!(table.lookup("Quadro M5000"), Some(2048));
}

#[test]
fn unknown_device_gets_default_count() {
    let table = CoreCounts::builtin();
    assert_eq!(DEFAULT_CORE_COUNT, 2560);
    assert_eq!(table.lookup("Radeon Mystery 9000"), None);
    assert_eq!(table.core_count("Radeon Mystery 9000"), 2560);
    assert_eq!(get_core_count(&table, Ok("Radeon Mystery 9000".to_string())), Ok(2560));
}

#[test]
fn names_match_exactly_and_case_sensitively() {
    let table = CoreCounts::builtin();
    assert_eq!(table.lookup("tesla v100"), None);
    assert_eq!(table.lookup("Tesla V100 "), None);
    assert_eq!(table.core_count("TESLA T4"), DEFAULT_CORE_COUNT);
}

#[test]
fn get_core_count_reads_the_table() {
    let table = CoreCounts::builtin();
    assert_eq!(get_core_count(&table, Ok("TITAN RTX".to_string())), Ok(4608));
}

#[test]
fn get_core_count_hands_on_a_failed_name_query() {
    let table = CoreCounts::builtin();
    let r = get_core_count(&table, Err(GpuError::Driver("no name".to_string())));
    assert_eq!(r, Err(GpuError::Driver("no name".to_string())));
}

#[test]
fn overrides_add_entries() {
    let table = CoreCounts::new(Some("Foo:100, Bar:200")).unwrap();
    assert_eq!(table.lookup("Foo"), Some(100));
    assert_eq!(table.lookup("Bar"), Some(200));
    assert_eq!(table.core_count("Tesla P100"), 3584);
}

#[test]
fn overrides_replace_builtin_entries() {
    let table = CoreCounts::new(Some("Tesla V100:1,GeForce GTX 1080:7")).unwrap();
    assert_eq!(table.core_count("Tesla V100"), 1);
    assert_eq!(table.core_count("GeForce GTX 1080"), 7);
    assert_eq!(table.core_count("GeForce GTX 1080 Ti"), 3584);
}

#[test]
fn later_override_of_a_name_wins() {
    let table = CoreCounts::new(Some("Foo:1, Foo:2,Foo : 3")).unwrap();
    assert_eq!(table.lookup("Foo"), Some(3));
}

#[test]
fn no_override_list_keeps_the_builtin_table() {
    let table = CoreCounts::new(None).unwrap();
    assert_eq!(table.core_count("Tesla T4"), 2560);
    assert_eq!(table.lookup("Foo"), None);
}

#[test]
fn override_with_non_numeric_count_is_refused() {
    assert!(matches!(CoreCounts::new(Some("Foo:bar")), Err(GpuError::InvalidCustomGpu)));
}

#[test]
fn override_without_separator_is_refused() {
    assert!(matches!(CoreCounts::new(Some("Foo-100")), Err(GpuError::InvalidCustomGpu)));
}

#[test]
fn override_with_two_separators_is_refused() {
    assert_eq!(parse_custom_gpus("Foo:1:2"), Err(GpuError::InvalidCustomGpu));
}

#[test]
fn empty_override_list_is_refused() {
    assert_eq!(parse_custom_gpus(""), Err(GpuError::InvalidCustomGpu));
    assert_eq!(parse_custom_gpus("Foo:1,"), Err(GpuError::InvalidCustomGpu));
}

#[test]
fn override_count_must_fit() {
    assert_eq!(parse_custom_gpus("Foo:18446744073709551616"), Err(GpuError::InvalidCustomGpu));
    assert_eq!(parse_custom_gpus("Foo:-1"), Err(GpuError::InvalidCustomGpu));
    assert_eq!(
        parse_custom_gpus("Foo:18446744073709551615"),
        Ok(vec![("Foo".to_string(), 18446744073709551615usize)])
    );
}

#[test]
fn override_entries_are_trimmed_and_kept_in_order() {
    let r = parse_custom_gpus(" Big Card : +12 ,\tSmall:007\n");
    assert_eq!(r, Ok(vec![("Big Card".to_string(), 12), ("Small".to_string(), 7)]));
}

#[test]
fn parse_count_reads_decimal() {
    assert_eq!(parse_count_str("0"), Some(0));
    assert_eq!(parse_count_str("4608"), Some(4608));
    assert_eq!(parse_count_str("+5"), Some(5));
    assert_eq!(parse_count_str("+"), None);
    assert_eq!(parse_count_str(""), None);
    assert_eq!(parse_count_str("12a"), None);
    assert_eq!(parse_count_str(" 1"), None);
}

#[test]
fn trim_removes_unicode_white_space() {
    assert_eq!(trim_str("\u{3000} x y \t\n"), "x y");
    assert_eq!(trim_str("   "), "");
    assert_eq!(trim_str("a"), "a");
}

#[test]
fn split_keeps_empty_fields() {
    assert_eq!(split_str("a,,b", ','), vec!["a".to_string(), String::new(), "b".to_string()]);
    assert_eq!(split_str("", ','), vec![String::new()]);
    assert_eq!(split_str("é:ü", ':'), vec!["é".to_string(), "ü".to_string()]);
}
