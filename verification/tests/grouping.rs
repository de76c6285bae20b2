use cql_stress_settings::grouping::{prepare_parse_payload, GroupingError};

fn words(list: &[&str]) -> Vec<String> {
    list.iter().map(|word| word.to_string()).collect()
}

#[test]
fn words_are_grouped_by_command_and_option() {
    let args = words(&["write", "n=10", "cl=QUORUM", "-node", "a,b", "-rate"]);
    let (command, mut payload) = prepare_parse_payload(&args).unwrap();
    assert_eq!(command, "write");
    assert_eq!(payload.remove("write"), Some(vec!["n=10", "cl=QUORUM"]));
    assert_eq!(payload.remove("-node"), Some(vec!["a,b"]));
    assert_eq!(payload.remove("-rate"), Some(vec![]));
    assert!(payload.is_empty());
}

#[test]
fn keys_are_in_lower_case() {
    let args = words(&["WRITE", "N=10", "-Node", "A"]);
    let (command, mut payload) = prepare_parse_payload(&args).unwrap();
    assert_eq!(command, "WRITE");
    assert!(!payload.contains_key("WRITE"));
    assert_eq!(payload.remove("write"), Some(vec!["N=10"]));
    assert_eq!(payload.remove("-node"), Some(vec!["A"]));
    assert!(payload.is_empty());
}

#[test]
fn keys_beyond_ascii_are_in_lower_case() {
    let args = words(&["ÄÖ", "-ΣΑΣ"]);
    let (_, payload) = prepare_parse_payload(&args).unwrap();
    assert!(payload.contains_key("äö"));
    assert!(payload.contains_key("-σας"));
}

#[test]
fn no_words_have_no_command() {
    let args = words(&[]);
    let error = prepare_parse_payload(&args).err().unwrap();
    assert!(matches!(error, GroupingError::NoCommand));
    assert_eq!(error.message(), "No command specified");
}

#[test]
fn option_comes_once() {
    let args = words(&["write", "-node", "a", "-rate", "-node", "b"]);
    let error = prepare_parse_payload(&args).err().unwrap();
    assert!(matches!(&error, GroupingError::DefinedMultipleTimes(option) if option == "-node"));
    assert_eq!(
        error.message(),
        "-node is defined multiple times. Each option/command can be specified at most once."
    );
}

#[test]
fn option_comes_once_in_whatever_case() {
    for (first, second) in
        [("-NODE", "-node"), ("-node", "-NODE"), ("-Node", "-nOdE"), ("-ä", "-Ä")]
    {
        let args = words(&["write", first, "a", second, "b"]);
        let error = prepare_parse_payload(&args).err().unwrap();
        assert!(
            matches!(error, GroupingError::DefinedMultipleTimes(option) if option == second)
        );
    }
}

#[test]
fn option_in_another_case_is_refused_as_it_is_spelled() {
    let args = words(&["read", "-rate", "threads=1", "-RATE", "threads=2"]);
    let error = prepare_parse_payload(&args).err().unwrap();
    assert_eq!(
        error.message(),
        "-RATE is defined multiple times. Each option/command can be specified at most once."
    );
}

#[test]
fn the_first_repeated_option_is_named() {
    let args = words(&["read", "-a", "-b", "-B", "-A"]);
    let error = prepare_parse_payload(&args).err().unwrap();
    assert!(matches!(error, GroupingError::DefinedMultipleTimes(option) if option == "-B"));
}

fn groups_of(args: &[String]) -> Vec<Option<Vec<&str>>> {
    let (_, mut payload) = prepare_parse_payload(args).unwrap();
    let groups = ["read", "-node", "-rate", "-log"].map(|key| payload.remove(key)).to_vec();
    assert!(payload.is_empty());
    groups
}

#[test]
fn option_order_does_not_matter() {
    let some = words(&["read", "n=1", "-node", "a", "b", "-rate", "-log", "x"]);
    let other = words(&["read", "n=1", "-log", "x", "-node", "a", "b", "-rate"]);
    assert_eq!(groups_of(&some), groups_of(&other));
}

#[test]
fn letter_case_does_not_matter() {
    let some = words(&["read", "n=1", "-node", "A", "-rate", "-log", "x"]);
    let other = words(&["READ", "n=1", "-Node", "A", "-RATE", "-lOg", "x"]);
    assert_eq!(groups_of(&some), groups_of(&other));
    assert_eq!(prepare_parse_payload(&other).unwrap().0, "READ");
}

#[test]
fn letter_case_of_ascii_letters_beside_others_does_not_matter() {
    let some = words(&["Äb", "-νOΣ", "x", "-ΣA", "y"]);
    let other = words(&["ÄB", "-νoΣ", "x", "-Σa", "y"]);
    for args in [&some, &other] {
        let (command, mut payload) = prepare_parse_payload(args).unwrap();
        assert_eq!(command, args[0]);
        assert_eq!(payload.remove("äb"), Some(vec![]));
        assert_eq!(payload.remove("-νoς"), Some(vec!["x"]));
        assert_eq!(payload.remove("-σa"), Some(vec!["y"]));
        assert!(payload.is_empty());
    }
}

#[test]
fn ascii_letters_are_lowered_beside_every_upper_case_letter() {
    for c in '\0'..=char::MAX {
        if c.to_lowercase().eq([c]) {
            continue;
        }
        for (first, second) in [("Z", "Q"), ("Z", ""), ("", "Q"), ("Z'", ".Q")] {
            let upper = format!("-{first}{c}{second}");
            let lower =
                format!("-{}{c}{}", first.to_ascii_lowercase(), second.to_ascii_lowercase());
            let args = words(&["read", &upper, &lower]);
            let error = prepare_parse_payload(&args).err().unwrap();
            assert!(
                matches!(error, GroupingError::DefinedMultipleTimes(option) if option == lower)
            );
        }
    }
}

#[test]
fn order_and_letter_case_do_not_matter() {
    let some = words(&["read", "-node", "a", "-rate", "r"]);
    let other = words(&["Read", "-RATE", "r", "-Node", "a"]);
    assert_eq!(groups_of(&some), groups_of(&other));
}

#[test]
fn command_may_look_like_an_option() {
    let args = words(&["-help", "x"]);
    let (command, mut payload) = prepare_parse_payload(&args).unwrap();
    assert_eq!(command, "-help");
    assert_eq!(payload.remove("-help"), Some(vec!["x"]));
    let args = words(&["-help", "-HELP"]);
    assert!(prepare_parse_payload(&args).is_err());
}

#[test]
fn a_lone_dash_is_an_option_and_an_empty_word_is_none() {
    let args = words(&["read", "", "-", "x"]);
    let (_, mut payload) = prepare_parse_payload(&args).unwrap();
    assert_eq!(payload.remove("read"), Some(vec![""]));
    assert_eq!(payload.remove("-"), Some(vec!["x"]));
}
