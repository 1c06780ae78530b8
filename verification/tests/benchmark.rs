use pliego::benchmark::check_benchmark_arguments;

#[test]
fn benchmark_arguments_are_bounded() {
    assert_eq!(check_benchmark_arguments(10, 1000, 3, 100), Ok(300));
    assert_eq!(check_benchmark_arguments(0, 1, 3, 1).unwrap_err(), "samples must be between 1 and 100");
    assert_eq!(check_benchmark_arguments(101, 1, 3, 1).unwrap_err(), "samples must be between 1 and 100");
    assert_eq!(
        check_benchmark_arguments(1, 100_001, 3, 1).unwrap_err(),
        "updates_per_sample must be between 1 and 100000"
    );
    assert_eq!(check_benchmark_arguments(1, 1, u32::MAX, 2).unwrap_err(), "plateau cycle count overflow");
    let plateau = "plateau requires at least three non-empty batches and at most 100000 cycles";
    assert_eq!(check_benchmark_arguments(1, 1, 2, 10).unwrap_err(), plateau);
    assert_eq!(check_benchmark_arguments(1, 1, 3, 0).unwrap_err(), plateau);
    assert_eq!(check_benchmark_arguments(1, 1, 4, 25_001).unwrap_err(), plateau);
}
