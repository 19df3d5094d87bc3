use kill_stats::coordinate::check_number;
use kill_stats::text::{compare_names, split_fields, NameOrder};

fn fields_of(line: &str) -> Vec<String> {
    split_fields(line.as_bytes())
        .into_iter()
        .map(|field| String::from_utf8(field).unwrap())
        .collect()
}

#[test]
fn a_line_is_split_at_every_comma() {
    assert_eq!(fields_of(""), vec![""]);
    assert_eq!(fields_of("AK47"), vec!["AK47"]);
    assert_eq!(fields_of("AK47,ann"), vec!["AK47", "ann"]);
    assert_eq!(fields_of("AK47,,ann"), vec!["AK47", "", "ann"]);
    assert_eq!(fields_of(","), vec!["", ""]);
    assert_eq!(fields_of("a,b,"), vec!["a", "b", ""]);
    assert_eq!(fields_of(",a"), vec!["", "a"]);
    assert_eq!(fields_of("\"a,b\""), vec!["\"a", "b\""]);
    assert_eq!(
        fields_of("AK47,ann,,1,1,,,,,,4,5"),
        vec!["AK47", "ann", "", "1", "1", "", "", "", "", "", "4", "5"]
    );
}

#[test]
fn splitting_agrees_with_the_standard_split() {
    for line in ["", ",", ",,", "a", "a,", ",a", "one,two,three", "á,é,,ñ", "x,,y,,z,,", " , "] {
        let expected: Vec<&str> = line.split(',').collect();
        assert_eq!(fields_of(line), expected);
        assert_eq!(fields_of(line).join(","), line);
    }
}

#[test]
fn names_are_compared_in_dictionary_order() {
    assert_eq!(compare_names(b"", b""), NameOrder::Same);
    assert_eq!(compare_names(b"", b"a"), NameOrder::Before);
    assert_eq!(compare_names(b"a", b""), NameOrder::After);
    assert_eq!(compare_names(b"AK47", b"AK47"), NameOrder::Same);
    assert_eq!(compare_names(b"AK47", b"AK48"), NameOrder::Before);
    assert_eq!(compare_names(b"AK5", b"AK47"), NameOrder::After);
    assert_eq!(compare_names(b"AK", b"AK47"), NameOrder::Before);
    assert_eq!(compare_names(b"Z", b"a"), NameOrder::Before);
    assert_eq!(compare_names("é".as_bytes(), b"z"), NameOrder::After);
}

#[test]
fn comparing_agrees_with_the_standard_order() {
    let names = ["", "a", "A", "ab", "abc", "abd", "b", "é", "z", "zz", "AK47", "Ak47", "10", "9"];
    for first in names {
        for second in names {
            let expected = match first.cmp(second) {
                std::cmp::Ordering::Less => NameOrder::Before,
                std::cmp::Ordering::Equal => NameOrder::Same,
                std::cmp::Ordering::Greater => NameOrder::After,
            };
            assert_eq!(compare_names(first.as_bytes(), second.as_bytes()), expected);
        }
    }
}

#[test]
fn numbers_are_told_from_other_text() {
    for text in [
        "0", "1", "42", "+7", "-7", "3.14", "3.", ".5", "-.5", "+3.", "1e5", "1E5", "1e+5", "1e-5",
        "1.5e10", ".5e1", "5.e1", "007", "inf", "+inf", "-inf", "INF", "Infinity", "-infinity",
        "nan", "NaN", "-NAN", "657725.1", "0.000001", "123456789012345678901234567890",
    ] {
        assert!(check_number(text.as_bytes()), "{}", text);
    }
    for text in [
        "", " ", "+", "-", ".", "+.", "e", "e5", ".e5", "1e", "1e+", "1e-", "1e5.5", "1.2.3", "1,5",
        " 1", "1 ", "1_000", "0x10", "one", "in", "infi", "infinit", "infinityy", "na", "nann",
        "++1", "--1", "+-1", "1+", "1e++5", "1f", "١",
    ] {
        assert!(!check_number(text.as_bytes()), "{}", text);
    }
}

#[test]
fn telling_numbers_agrees_with_the_standard_parser() {
    let pieces = ["", "+", "-", "1", "23", ".", "e", "E", "inf", "nan", "infinity", " ", "x"];
    for a in pieces {
        for b in pieces {
            for c in pieces {
                for d in pieces {
                    let text = format!("{}{}{}{}", a, b, c, d);
                    assert_eq!(check_number(text.as_bytes()), text.parse::<f64>().is_ok(), "{}", text);
                }
            }
        }
    }
}
