use wboit_splats::benchmark::BenchmarkConfig;
use wboit_splats::cli::{parse_args, parse_number, CliError, Options};

fn parse(args: &[&str]) -> Result<Options, CliError> {
    let args: Vec<String> = args.iter().map(|a| a.to_string()).collect();
    parse_args(&args)
}

fn accepted(path: Option<&str>, benchmark: Option<(usize, u64)>) -> Result<Options, CliError> {
    Ok(Options {
        path: path.map(|p| p.to_string()),
        benchmark: benchmark.map(|(views, seed)| BenchmarkConfig { views, seed }),
    })
}

#[test]
fn the_built_in_scene_needs_no_arguments() {
    assert_eq!(parse(&[]), accepted(None, None));
}

#[test]
fn a_path_is_a_scene() {
    assert_eq!(parse(&["scene.ply"]), accepted(Some("scene.ply"), None));
    assert_eq!(parse(&[""]), accepted(Some(""), None));
}

#[test]
fn a_benchmark_has_defaults() {
    assert_eq!(parse(&["a.ply", "--benchmark"]), accepted(Some("a.ply"), Some((16, 1))));
    assert_eq!(parse(&["a.ply", "--benchmark", "4"]), accepted(Some("a.ply"), Some((4, 1))));
    assert_eq!(
        parse(&["--benchmark", "4", "--seed", "9", "a.ply"]),
        accepted(Some("a.ply"), Some((4, 9)))
    );
    assert_eq!(
        parse(&["--benchmark", "--seed", "9", "a.ply"]),
        accepted(Some("a.ply"), Some((16, 9)))
    );
}

#[test]
fn what_follows_benchmark_is_taken_even_where_it_is_no_number() {
    assert_eq!(
        parse(&["--benchmark", "x.ply", "a.ply"]),
        accepted(Some("a.ply"), Some((16, 1)))
    );
    assert_eq!(
        parse(&["--benchmark", "a.ply"]),
        Err(CliError::BenchmarkWithoutPath)
    );
    assert_eq!(
        parse(&["--benchmark", "99999999999999999999999", "a.ply"]),
        accepted(Some("a.ply"), Some((16, 1)))
    );
}

#[test]
fn the_last_of_two_settings_holds() {
    assert_eq!(
        parse(&["a.ply", "--benchmark", "2", "--seed", "1", "--benchmark", "3", "--seed", "2"]),
        accepted(Some("a.ply"), Some((3, 2)))
    );
}

#[test]
fn a_seed_without_a_benchmark_is_ignored() {
    assert_eq!(parse(&["--seed", "7"]), accepted(None, None));
}

#[test]
fn a_seed_is_a_number() {
    for args in [&["--seed"][..], &["--seed", "x"], &["--seed", "-1"], &["--seed", ""]] {
        assert_eq!(parse(args), Err(CliError::SeedNotANumber));
    }
    assert_eq!(
        CliError::SeedNotANumber.message(),
        "--seed requires an unsigned integer"
    );
}

#[test]
fn options_are_known() {
    let refused = parse(&["--bench"]);
    assert_eq!(refused, Err(CliError::UnknownOption("--bench".to_string())));
    assert_eq!(refused.unwrap_err().message(), "Unknown option: --bench");
    assert_eq!(parse(&["-"]), Err(CliError::UnknownOption("-".to_string())));
    assert_eq!(
        parse(&["a.ply", "--benchmark", "-3"]),
        Err(CliError::UnknownOption("-3".to_string()))
    );
}

#[test]
fn there_is_one_path() {
    assert_eq!(parse(&["a.ply", "b.ply"]), Err(CliError::SecondPath));
    assert_eq!(CliError::SecondPath.message(), "Only one PLY path may be supplied");
}

#[test]
fn a_benchmark_needs_a_path() {
    assert_eq!(parse(&["--benchmark"]), Err(CliError::BenchmarkWithoutPath));
    assert_eq!(
        CliError::BenchmarkWithoutPath.message(),
        "--benchmark requires a splat PLY path"
    );
}

#[test]
fn the_first_fault_is_told() {
    assert_eq!(
        parse(&["--seed", "x", "--bench"]),
        Err(CliError::SeedNotANumber)
    );
    assert_eq!(
        parse(&["--benchmark", "--bench"]),
        Err(CliError::UnknownOption("--bench".to_string()))
    );
}

#[test]
fn numbers_are_read_as_the_standard_library_reads_them() {
    let texts = [
        "0", "1", "00012", "+5", "+", "-", "", "++1", "1_000", " 1", "1 ", "12a", "٣",
        "18446744073709551615", "18446744073709551616", "99999999999999999999", "+0",
        "184467440737095516150",
    ];
    for text in texts {
        assert_eq!(parse_number(text, u64::MAX), text.parse::<u64>().ok(), "{text:?}");
    }
    assert_eq!(parse_number("255", 255), Some(255));
    assert_eq!(parse_number("256", 255), None);
    assert_eq!(parse_number("0", 0), Some(0));
    assert_eq!(parse_number("10", 9), None);
}
