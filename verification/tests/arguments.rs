use kill_stats::argument_parser::{parse_number, ArgumentError, ArgumentParser};
use kill_stats::csvs_processor::{FileRead, Line};
use kill_stats::runner::{RunError, Runner};
use kill_stats::writer::Writer;

fn arguments(given: &[&str]) -> Vec<String> {
    given.iter().map(|argument| argument.to_string()).collect()
}

#[test]
fn the_three_arguments_are_read() {
    let parsed = ArgumentParser::new(&arguments(&["program", "deaths", "4", "output.json"]));
    let parser = parsed.ok().unwrap();
    assert_eq!(parser.get_input_path(), "deaths");
    assert_eq!(parser.get_num_threads(), 4);
    assert_eq!(parser.get_output_file_name(), "output.json");
}

#[test]
fn a_wrong_number_of_arguments_is_refused() {
    for given in [
        vec![],
        vec!["program"],
        vec!["program", "deaths", "4"],
        vec!["program", "deaths", "4", "output.json", "more"],
    ] {
        assert_eq!(ArgumentParser::new(&arguments(&given)).err(), Some(ArgumentError::WrongCount));
    }
}

#[test]
fn a_number_of_threads_that_is_no_number_is_refused() {
    for threads in ["", "four", "4.0", "-4", " 4", "4 ", "+", "99999999999999999999999999"] {
        let parsed = ArgumentParser::new(&arguments(&["program", "deaths", threads, "output.json"]));
        assert_eq!(parsed.err(), Some(ArgumentError::NumThreads));
    }
    let parsed = ArgumentParser::new(&arguments(&["program", "deaths", "+12", "output.json"]));
    assert_eq!(parsed.ok().unwrap().get_num_threads(), 12);
}

#[test]
fn whole_numbers_are_read_as_the_standard_parser_reads_them() {
    assert_eq!(parse_number(b"0"), Some(0));
    assert_eq!(parse_number(b"10"), Some(10));
    assert_eq!(parse_number(b"007"), Some(7));
    assert_eq!(parse_number(b"+5"), Some(5));
    assert_eq!(parse_number(usize::MAX.to_string().as_bytes()), Some(usize::MAX));
    assert_eq!(parse_number(b"18446744073709551616"), None);
    assert_eq!(parse_number(b"184467440737095516150"), None);
    let pieces = ["", "+", "-", "0", "7", "12", "18446744073709551615", " ", "a", "_"];
    for a in pieces {
        for b in pieces {
            for c in pieces {
                let text = format!("{}{}{}", a, b, c);
                assert_eq!(parse_number(text.as_bytes()), text.parse::<usize>().ok(), "{}", text);
            }
        }
    }
}

#[test]
fn a_writer_keeps_the_name_of_its_file() {
    let writer = Writer::new("output.json");
    assert_eq!(writer.get_output_file_name(), "output.json");
}

fn sample() -> Vec<FileRead> {
    let first = vec![
        Some(Line::parse(b"AK47,ann,,1,1,,,,,,4,5").measured(5_000_000)),
        None,
        Some(Line::parse(b"Knife,bob")),
    ];
    let second = vec![
        Some(Line::parse(b"AK47,bob,,2,2,,,,,,4,5").measured(3_605_551)),
        Some(Line::parse(b"AK47,,,x,2,,,,,,4,5")),
    ];
    vec![Some(first), None, Some(second)]
}

#[test]
fn a_run_aggregates_and_ranks() {
    let parser = ArgumentParser::new(&arguments(&["program", "deaths", "3", "output.json"])).ok().unwrap();
    let (players, weapons) = Runner::new().run(&parser, &sample()).ok().unwrap();
    assert_eq!(weapons.len(), 2);
    assert_eq!(weapons[0].name, b"AK47");
    assert_eq!(weapons[0].deaths_percentage, 7_500);
    assert_eq!(weapons[0].average_distance, Some(430));
    assert_eq!(weapons[1].name, b"Knife");
    assert_eq!(weapons[1].deaths_percentage, 2_500);
    assert_eq!(weapons[1].average_distance, None);
    assert_eq!(players.len(), 2);
    assert_eq!(players[0].name, b"bob");
    assert_eq!(players[0].deaths, 2);
    assert_eq!(players[0].weapons_percentage.len(), 2);
    assert_eq!(players[0].weapons_percentage[0].name, b"AK47");
    assert_eq!(players[0].weapons_percentage[0].percentage, 5_000);
    assert_eq!(players[0].weapons_percentage[1].name, b"Knife");
    assert_eq!(players[0].weapons_percentage[1].percentage, 5_000);
    assert_eq!(players[1].name, b"ann");
    assert_eq!(players[1].deaths, 1);
    assert_eq!(players[1].weapons_percentage.len(), 1);
    assert_eq!(players[1].weapons_percentage[0].percentage, 10_000);
}

#[test]
fn a_run_gives_the_same_on_any_number_of_threads() {
    let runner = Runner::new();
    let mut seen: Vec<String> = Vec::new();
    for threads in ["1", "2", "8", "0"] {
        let parser =
            ArgumentParser::new(&arguments(&["program", "deaths", threads, "output.json"])).ok().unwrap();
        let results = runner.run(&parser, &sample()).ok().unwrap();
        seen.push(format!("{:?}", results));
    }
    assert!(seen.iter().all(|results| results == &seen[0]));
}

#[test]
fn a_run_without_a_pool_gives_no_results() {
    let refused = rayon::ThreadPoolBuilder::new()
        .spawn_handler(|_| Err(std::io::Error::new(std::io::ErrorKind::Other, "no threads")))
        .build();
    assert!(refused.is_err());
    let results = Runner::new().run_on(refused, &sample());
    assert_eq!(results.err(), Some(RunError::NoThreadPool));
    let pool = rayon::ThreadPoolBuilder::new().num_threads(2).build();
    assert!(Runner::new().run_on(pool, &sample()).is_ok());
}
