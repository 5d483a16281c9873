//! The command line: an optional scene file, `--benchmark` with an optional number of views,
//! and `--seed` with a number.
use crate::benchmark::BenchmarkConfig;
use vstd::prelude::*;
use vstd::string::StringExecFns;

verus! {

/// Number of views of a benchmark that does not say how many.
pub const DEFAULT_VIEWS: usize = 16;

/// Seed of a benchmark that does not give one.
pub const DEFAULT_SEED: u64 = 1;

/// What the command line asks for.
#[derive(PartialEq, Eq, Debug)]
pub struct Options {
    /// The splat scene to load; without one the built-in scene is shown.
    pub path: Option<String>,
    pub benchmark: Option<BenchmarkConfig>,
}

/// Why a command line is refused.
#[derive(PartialEq, Eq, Debug)]
pub enum CliError {
    /// `--seed` is not followed by a number that fits.
    SeedNotANumber,
    UnknownOption(String),
    SecondPath,
    BenchmarkWithoutPath,
}

/// What is known after some of the arguments.
pub ghost struct Reading {
    pub path: Option<Seq<char>>,
    pub views: Option<usize>,
    pub seed: u64,
}

/// What a command line comes to.
pub ghost enum Outcome {
    Accepted(Reading),
    SeedNotANumber,
    UnknownOption(Seq<char>),
    SecondPath,
    BenchmarkWithoutPath,
}

pub open spec fn is_digit(c: char) -> bool {
    '0' <= c && c <= '9'
}

/// The number that digits spell.
pub open spec fn digits_value(digits: Seq<char>) -> int
    decreases digits.len(),
{
    if digits.len() == 0 {
        0
    } else {
        10 * digits_value(digits.drop_last()) + (digits.last() as int - '0' as int)
    }
}

/// The digits of a number; a plus may stand before them.
pub open spec fn digits_of(text: Seq<char>) -> Seq<char> {
    if text.len() > 0 && text[0] == '+' {
        text.skip(1)
    } else {
        text
    }
}

/// Whether a text is a number in decimal.
pub open spec fn is_number(text: Seq<char>) -> bool {
    let digits = digits_of(text);
    &&& digits.len() > 0
    &&& forall|i: int| 0 <= i < digits.len() ==> is_digit(#[trigger] digits[i])
}

/// The number that a text is, if it is one and is not above `max`.
pub open spec fn number(text: Seq<char>, max: u64) -> Option<u64> {
    if is_number(text) && digits_value(digits_of(text)) <= max {
        Some(digits_value(digits_of(text)) as u64)
    } else {
        None
    }
}

proof fn lemma_digits_value_grows(digits: Seq<char>, n: int)
    requires
        0 <= n <= digits.len(),
        forall|i: int| 0 <= i < digits.len() ==> is_digit(#[trigger] digits[i]),
    ensures
        0 <= digits_value(digits.take(n)) <= digits_value(digits),
    decreases digits.len(),
{
    if digits.len() > 0 {
        let shorter = digits.drop_last();
        assert forall|i: int| 0 <= i < shorter.len() implies is_digit(#[trigger] shorter[i]) by {
            assert(shorter[i] == digits[i]);
        }
        assert(is_digit(digits[digits.len() - 1]));
        if n < digits.len() {
            lemma_digits_value_grows(shorter, n);
            assert(shorter.take(n) =~= digits.take(n));
        } else {
            lemma_digits_value_grows(shorter, n - 1);
            assert(digits.take(n) =~= digits);
        }
    } else {
        assert(digits.take(n) =~= digits);
    }
}

/// The number that a text is, if it is one and is not above `max`.
pub fn parse_number(text: &str, max: u64) -> (value: Option<u64>)
    ensures
        value == number(text@, max),
{
    let length: usize = text.unicode_len();
    let start: usize = if length > 0 && text.get_char(0) == '+' {
        1
    } else {
        0
    };
    let ghost digits = digits_of(text@);
    if start == length {
        return None;
    }
    let mut value: u64 = 0;
    let mut i: usize = start;
    while i < length
        invariant
            start <= i <= length,
            length == text@.len(),
            digits == text@.skip(start as int),
            digits == digits_of(text@),
            digits.len() > 0,
            forall|k: int| 0 <= k < i - start ==> is_digit(#[trigger] digits[k]),
            value == digits_value(digits.take(i - start)),
            value <= max,
        decreases length - i,
    {
        let c = text.get_char(i);
        assert(c == digits[i - start]);
        if c < '0' || c > '9' {
            assert(!is_digit(digits[i - start]));
            return None;
        }
        let digit: u64 = (c as u32 - '0' as u32) as u64;
        proof {
            let longer = digits.take(i - start + 1);
            assert(longer.drop_last() =~= digits.take(i - start));
            assert(digits_value(longer) == 10 * value + digit);
            if is_number(text@) {
                lemma_digits_value_grows(digits, i - start + 1);
            }
        }
        if value > max / 10 {
            return None;
        }
        if digit > max - value * 10 {
            return None;
        }
        value = value * 10 + digit;
        i += 1;
    }
    assert(digits.take(i - start) =~= digits);
    Some(value)
}

/// Whether an argument is an option.
pub open spec fn is_option(arg: Seq<char>) -> bool {
    arg.len() > 0 && arg[0] == '-'
}

/// The number of views that the argument behind `--benchmark` asks for.
pub open spec fn views_of(text: Seq<char>) -> usize {
    match number(text, usize::MAX as u64) {
        Some(views) => views as usize,
        None => DEFAULT_VIEWS,
    }
}

/// What the arguments come to, where `known` is what was read before them. The argument behind
/// `--benchmark` is taken as its number of views unless it is an option; the one behind
/// `--seed` is taken in any case.
pub open spec fn outcome(args: Seq<Seq<char>>, known: Reading) -> Outcome
    decreases args.len(),
{
    if args.len() == 0 {
        if known.views is Some && known.path is None {
            Outcome::BenchmarkWithoutPath
        } else {
            Outcome::Accepted(known)
        }
    } else if args[0] == "--benchmark"@ {
        if args.len() > 1 && !is_option(args[1]) {
            outcome(args.skip(2), Reading { views: Some(views_of(args[1])), ..known })
        } else {
            outcome(args.skip(1), Reading { views: Some(DEFAULT_VIEWS), ..known })
        }
    } else if args[0] == "--seed"@ {
        if args.len() > 1 && number(args[1], u64::MAX) is Some {
            outcome(args.skip(2), Reading { seed: number(args[1], u64::MAX)->0, ..known })
        } else {
            Outcome::SeedNotANumber
        }
    } else if is_option(args[0]) {
        Outcome::UnknownOption(args[0])
    } else if known.path is None {
        outcome(args.skip(1), Reading { path: Some(args[0]), ..known })
    } else {
        Outcome::SecondPath
    }
}

/// What is known before any argument.
pub open spec fn nothing_read() -> Reading {
    Reading { path: None, views: None, seed: DEFAULT_SEED }
}

/// The texts of arguments.
pub open spec fn texts(args: Seq<String>) -> Seq<Seq<char>> {
    Seq::new(args.len(), |i: int| args[i]@)
}

/// The text of a path, if there is one.
pub open spec fn path_text(path: Option<String>) -> Option<Seq<char>> {
    match path {
        Some(text) => Some(text@),
        None => None,
    }
}

/// Whether a result is what a command line comes to.
pub open spec fn is_result(result: Result<Options, CliError>, outcome: Outcome) -> bool {
    match outcome {
        Outcome::Accepted(reading) => result matches Ok(options) && {
            &&& path_text(options.path) == reading.path
            &&& options.benchmark == match reading.views {
                Some(views) => Some(BenchmarkConfig { views, seed: reading.seed }),
                None => None,
            }
        },
        Outcome::SeedNotANumber => result matches Err(CliError::SeedNotANumber),
        Outcome::UnknownOption(arg) => result matches Err(CliError::UnknownOption(a)) && a@ == arg,
        Outcome::SecondPath => result matches Err(CliError::SecondPath),
        Outcome::BenchmarkWithoutPath => result matches Err(CliError::BenchmarkWithoutPath),
    }
}

fn starts_as_option(arg: &str) -> (option: bool)
    ensures
        option == is_option(arg@),
{
    arg.unicode_len() > 0 && arg.get_char(0) == '-'
}

/// Reads a command line, without the name of the program. A benchmark that is accepted has a
/// scene.
pub fn parse_args(args: &[String]) -> (result: Result<Options, CliError>)
    ensures
        is_result(result, outcome(texts(args@), nothing_read())),
        result matches Ok(options) ==> options.benchmark is Some ==> options.path is Some,
{
    let mut path: Option<String> = None;
    let mut views: Option<usize> = None;
    let mut seed: u64 = DEFAULT_SEED;
    let mut i: usize = 0;
    let ghost all = texts(args@);
    assert(all.skip(0) =~= all);
    while i < args.len()
        invariant
            i <= args@.len(),
            all == texts(args@),
            outcome(all, nothing_read()) == outcome(
                all.skip(i as int),
                (Reading { path: path_text(path), views, seed }),
            ),
        decreases args.len() - i,
    {
        let ghost left = all.skip(i as int);
        let arg = &args[i];
        let has_next: bool = i + 1 < args.len();
        assert(left[0] == arg@);
        assert(left.skip(1) =~= all.skip(i + 1));
        assert(has_next ==> left[1] == args@[i + 1]@ && left.skip(2) =~= all.skip(i + 2));
        if *arg == "--benchmark".to_owned() {
            if has_next && !starts_as_option(args[i + 1].as_str()) {
                views = match parse_number(args[i + 1].as_str(), usize::MAX as u64) {
                    Some(count) => Some(count as usize),
                    None => Some(DEFAULT_VIEWS),
                };
                i += 2;
            } else {
                views = Some(DEFAULT_VIEWS);
                i += 1;
            }
        } else if *arg == "--seed".to_owned() {
            if !has_next {
                return Err(CliError::SeedNotANumber);
            }
            match parse_number(args[i + 1].as_str(), u64::MAX) {
                Some(value) => {
                    seed = value;
                    i += 2;
                },
                None => {
                    return Err(CliError::SeedNotANumber);
                },
            }
        } else if starts_as_option(arg.as_str()) {
            return Err(CliError::UnknownOption(arg.clone()));
        } else if path.is_none() {
            path = Some(arg.clone());
            i += 1;
        } else {
            return Err(CliError::SecondPath);
        }
    }
    let benchmark = match views {
        Some(views) => Some(BenchmarkConfig { views, seed }),
        None => None,
    };
    if benchmark.is_some() && path.is_none() {
        return Err(CliError::BenchmarkWithoutPath);
    }
    Ok(Options { path, benchmark })
}

impl CliError {
    /// What is told to the user.
    pub open spec fn text(self) -> Seq<char> {
        match self {
            CliError::SeedNotANumber => "--seed requires an unsigned integer"@,
            CliError::UnknownOption(arg) => "Unknown option: "@ + arg@,
            CliError::SecondPath => "Only one PLY path may be supplied"@,
            CliError::BenchmarkWithoutPath => "--benchmark requires a splat PLY path"@,
        }
    }

    /// What is told to the user.
    pub fn message(&self) -> (message: String)
        ensures
            message@ == self.text(),
    {
        match self {
            CliError::SeedNotANumber => "--seed requires an unsigned integer".to_owned(),
            CliError::UnknownOption(arg) => "Unknown option: ".to_owned().concat(arg.as_str()),
            CliError::SecondPath => "Only one PLY path may be supplied".to_owned(),
            CliError::BenchmarkWithoutPath => "--benchmark requires a splat PLY path".to_owned(),
        }
    }
}

/// Digits are read as decimals: each one counts ten times as much as the one behind it.
pub proof fn digits_are_decimal(digits: Seq<char>, digit: char)
    ensures
        digits_value(Seq::<char>::empty()) == 0,
        digits_value(digits.push(digit)) == 10 * digits_value(digits) + (digit as int - '0' as int),
{
    assert(digits.push(digit).drop_last() =~= digits);
}

/// Zeros in front change nothing.
pub proof fn leading_zeros_do_not_count(digits: Seq<char>)
    ensures
        digits_value(seq!['0'] + digits) == digits_value(digits),
    decreases digits.len(),
{
    let longer = seq!['0'] + digits;
    if digits.len() == 0 {
        reveal_with_fuel(digits_value, 2);
        assert(longer.drop_last() =~= digits);
        assert(longer.last() == '0');
    } else {
        leading_zeros_do_not_count(digits.drop_last());
        assert(longer.drop_last() =~= seq!['0'] + digits.drop_last());
        assert(longer.last() == digits.last());
    }
}

/// A plus in front changes nothing, and only one may stand there.
pub proof fn a_plus_does_not_count(text: Seq<char>, max: u64)
    requires
        text.len() == 0 || text[0] != '+',
    ensures
        number(seq!['+'] + text, max) == number(text, max),
        number(seq!['+', '+'] + text, max) is None,
{
    let signed = seq!['+'] + text;
    assert(signed.skip(1) =~= text);
    let twice = seq!['+', '+'] + text;
    assert(twice.skip(1)[0] == '+');
    assert(!is_digit(digits_of(twice)[0]));
}

/// What is a number: digits and nothing else, at least one, and not above the bound.
pub proof fn numbers_are_digits(text: Seq<char>, max: u64, i: int)
    requires
        text.len() == 0 || text[0] != '+',
    ensures
        text.len() == 0 ==> number(text, max) is None,
        0 <= i < text.len() && !('0' <= text[i] <= '9') ==> number(text, max) is None,
        text.len() > 0 && (forall|k: int| 0 <= k < text.len() ==> '0' <= #[trigger] text[k] <= '9')
            ==> (number(text, max) is Some <==> digits_value(text) <= max),
        number(text, max) matches Some(value) ==> value == digits_value(text) && value <= max,
{
    if 0 <= i < text.len() && !('0' <= text[i] <= '9') {
        assert(!is_digit(digits_of(text)[i]));
    }
    if text.len() > 0 && (forall|k: int| 0 <= k < text.len() ==> '0' <= #[trigger] text[k] <= '9') {
        assert forall|k: int| 0 <= k < text.len() implies is_digit(#[trigger] digits_of(text)[k]) by {
            assert('0' <= text[k] <= '9');
        }
    }
    if number(text, max) is Some {
        assert forall|k: int| 0 <= k < text.len() implies is_digit(#[trigger] text[k]) by {
            assert(is_digit(digits_of(text)[k]));
        }
        lemma_digits_value_grows(text, 0);
    }
}

/// A larger bound accepts no less, and gives the same number.
pub proof fn larger_bounds_accept_more(text: Seq<char>, max: u64, larger: u64)
    requires
        max <= larger,
        number(text, max) is Some,
    ensures
        number(text, larger) == number(text, max),
{
}

/// The command line is read from left to right: what is accepted is as if the rest were read on its
/// own, from what is known by then. Only behind `--benchmark` the next argument still counts.
#[verifier::rlimit(40)]
pub proof fn arguments_are_read_in_turn(
    args: Seq<Seq<char>>,
    more: Seq<Seq<char>>,
    known: Reading,
    reading: Reading,
)
    requires
        outcome(args, known) == Outcome::Accepted(reading),
        args.len() == 0 || args.last() != "--benchmark"@ || more.len() == 0 || (more[0].len() > 0
            && more[0][0] == '-'),
    ensures
        outcome(args + more, known) == outcome(more, reading),
    decreases args.len(),
{
    let all = args + more;
    reveal_strlit("--benchmark");
    reveal_strlit("--seed");
    if args.len() == 0 {
        assert(all =~= more);
    } else {
        assert(all[0] == args[0]);
        if args.len() > 1 {
            assert(all[1] == args[1]);
            assert(all.skip(2) =~= args.skip(2) + more);
            assert(args.len() > 2 ==> args.skip(2).last() == args.last());
            assert(args.skip(1).last() == args.last());
        }
        assert(all.skip(1) =~= args.skip(1) + more);
        if args[0] == "--benchmark"@ {
            if args.len() > 1 && !is_option(args[1]) {
                let next = Reading { views: Some(views_of(args[1])), ..known };
                assert(args.len() == 2 ==> args.last()[0] != '-' || args.last().len() == 0);
                arguments_are_read_in_turn(args.skip(2), more, next, reading);
            } else {
                let next = Reading { views: Some(DEFAULT_VIEWS), ..known };
                arguments_are_read_in_turn(args.skip(1), more, next, reading);
            }
        } else if args[0] == "--seed"@ {
            let next = Reading { seed: number(args[1], u64::MAX)->0, ..known };
            arguments_are_read_in_turn(args.skip(2), more, next, reading);
        } else {
            let next = Reading { path: Some(args[0]), ..known };
            arguments_are_read_in_turn(args.skip(1), more, next, reading);
        }
    }
}

/// What one argument does by itself, whatever is known: a path is taken where there was none,
/// `--benchmark` asks for sixteen views, `--seed` needs a number, and no other option is known.
#[verifier::rlimit(40)]
pub proof fn single_arguments(arg: Seq<char>, known: Reading)
    requires
        known.path is Some,
    ensures
        outcome(seq!["--benchmark"@], known) == Outcome::Accepted(
            Reading { views: Some(16), ..known },
        ),
        outcome(seq!["--seed"@], known) == Outcome::SeedNotANumber,
        arg.len() > 0 && arg[0] == '-' && arg != "--benchmark"@ && arg != "--seed"@ ==> outcome(
            seq![arg],
            known,
        ) == Outcome::UnknownOption(arg),
        arg.len() == 0 || arg[0] != '-' ==> outcome(seq![arg], known) == Outcome::SecondPath,
        arg.len() == 0 || arg[0] != '-' ==> outcome(seq![arg], Reading { path: None, ..known })
            == Outcome::Accepted(Reading { path: Some(arg), ..known }),
{
    reveal_strlit("--benchmark");
    reveal_strlit("--seed");
    reveal_with_fuel(outcome, 2);
    assert("--benchmark"@[2] == 'b' && "--seed"@[2] == 's');
    assert("--benchmark"@[0] == '-' && "--seed"@[0] == '-');
    assert(seq!["--benchmark"@].skip(1).len() == 0);
    assert(seq![arg].skip(1).len() == 0);
    assert(seq![arg][0] == arg);
    assert(seq!["--benchmark"@][0] == "--benchmark"@);
    assert(seq!["--seed"@][0] == "--seed"@);
}

/// What two arguments do: behind `--benchmark` a number is the number of views and any other text
/// asks for sixteen; behind `--seed` only a number will do.
#[verifier::rlimit(40)]
pub proof fn options_with_values(value: Seq<char>, known: Reading)
    requires
        known.path is Some,
        value.len() == 0 || value[0] != '-',
    ensures
        outcome(seq!["--benchmark"@, value], known) == Outcome::Accepted(
            Reading {
                views: Some(
                    match number(value, usize::MAX as u64) {
                        Some(views) => views as usize,
                        None => 16,
                    },
                ),
                ..known
            },
        ),
        number(value, u64::MAX) matches Some(seed) ==> outcome(seq!["--seed"@, value], known)
            == Outcome::Accepted(Reading { seed, ..known }),
        number(value, u64::MAX) is None ==> outcome(seq!["--seed"@, value], known)
            == Outcome::SeedNotANumber,
{
    reveal_strlit("--benchmark");
    reveal_strlit("--seed");
    reveal_with_fuel(outcome, 2);
    assert("--benchmark"@[2] == 'b' && "--seed"@[2] == 's');
    assert(seq!["--benchmark"@, value].skip(2).len() == 0);
    assert(seq!["--seed"@, value].skip(2).len() == 0);
    assert(seq!["--benchmark"@, value][0] == "--benchmark"@);
    assert(seq!["--benchmark"@, value][1] == value);
    assert(seq!["--seed"@, value][0] == "--seed"@);
    assert(seq!["--seed"@, value][1] == value);
}

/// A benchmark needs a path; without one, and without any argument, the built-in scene is shown.
pub proof fn benchmarks_need_a_path(known: Reading)
    ensures
        known.path is None && known.views is Some ==> outcome(Seq::<Seq<char>>::empty(), known)
            == Outcome::BenchmarkWithoutPath,
        known.path is Some || known.views is None ==> outcome(Seq::<Seq<char>>::empty(), known)
            == Outcome::Accepted(known),
        nothing_read().path is None,
        nothing_read().views is None,
        nothing_read().seed == 1,
{
}

/// An accepted command line gives what was read, nothing more.
pub proof fn results_give_what_was_read(result: Result<Options, CliError>, reading: Reading)
    requires
        is_result(result, Outcome::Accepted(reading)),
    ensures
        result matches Ok(options) && {
            &&& options.path is Some <==> reading.path is Some
            &&& options.path matches Some(path) ==> path@ == reading.path->0
            &&& options.benchmark is Some <==> reading.views is Some
            &&& options.benchmark matches Some(config) ==> config.views == reading.views->0
                && config.seed == reading.seed
        },
{
}

/// An option that is not known is named to the user as it was written.
pub proof fn unknown_options_are_named(arg: String)
    ensures
        CliError::UnknownOption(arg).text().len() == 16 + arg@.len(),
        CliError::UnknownOption(arg).text().skip(16) == arg@,
{
    reveal_strlit("Unknown option: ");
    assert(CliError::UnknownOption(arg).text().skip(16) =~= arg@);
}

/// Every argument is read as it stands.
pub proof fn arguments_are_read_whole(args: Seq<String>, i: int)
    requires
        0 <= i < args.len(),
    ensures
        texts(args).len() == args.len(),
        texts(args)[i] == args[i]@,
{
}

/// A path may stand anywhere: a command line that is accepted where the path is known beforehand is
/// read alike where the path stands behind it, and reading goes on from there.
pub proof fn paths_may_stand_anywhere(
    args: Seq<Seq<char>>,
    path: Seq<char>,
    rest: Seq<Seq<char>>,
    known: Reading,
    reading: Reading,
)
    requires
        known.path is None,
        path.len() == 0 || path[0] != '-',
        args.len() == 0 || args.last() != "--benchmark"@,
        outcome(args, Reading { path: Some(path), ..known }) == Outcome::Accepted(reading),
    ensures
        outcome(args + seq![path] + rest, known) == outcome(rest, reading),
    decreases args.len(),
{
    let all = args + seq![path] + rest;
    reveal_strlit("--benchmark");
    reveal_strlit("--seed");
    assert("--benchmark"@[0] == '-' && "--seed"@[0] == '-');
    if args.len() == 0 {
        assert(all[0] == path);
        assert(all.skip(1) =~= rest);
    } else {
        assert(all[0] == args[0]);
        if args.len() > 1 {
            assert(all[1] == args[1]);
            assert(all.skip(2) =~= args.skip(2) + seq![path] + rest);
            assert(args.len() > 2 ==> args.skip(2).last() == args.last());
            assert(args.skip(1).last() == args.last());
        }
        assert(all.skip(1) =~= args.skip(1) + seq![path] + rest);
        if args[0] == "--benchmark"@ {
            assert(args.len() > 1);
            if !is_option(args[1]) {
                let next = Reading { views: Some(views_of(args[1])), ..known };
                paths_may_stand_anywhere(args.skip(2), path, rest, next, reading);
            } else {
                let next = Reading { views: Some(DEFAULT_VIEWS), ..known };
                paths_may_stand_anywhere(args.skip(1), path, rest, next, reading);
            }
        } else if args[0] == "--seed"@ {
            let next = Reading { seed: number(args[1], u64::MAX)->0, ..known };
            paths_may_stand_anywhere(args.skip(2), path, rest, next, reading);
        }
    }
}

} // verus!
