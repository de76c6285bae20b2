use cql_stress_settings::repair::repair_params;

fn repaired(args: &[&str]) -> Vec<String> {
    let args: Vec<String> = args.iter().map(|arg| arg.to_string()).collect();
    repair_params(&args)
}

#[test]
fn quoted_parameters_are_split() {
    assert_eq!(
        repaired(&["read", "-rate", "threads=80 throttle=8000/s"]),
        ["read", "-rate", "threads=80", "throttle=8000/s"]
    );
}

#[test]
fn blanks_around_delimiters_are_dropped() {
    assert_eq!(
        repaired(&["write", "-schema", "replication ( factor = 3 , foo = bar )"]),
        ["write", "-schema", "replication(factor=3,foo=bar)"]
    );
}

#[test]
fn blank_after_closing_bracket_separates() {
    assert_eq!(
        repaired(&["write", "-schema", "replication(factor=3) ", "keyspace=k"]),
        ["write", "-schema", "replication(factor=3)", "keyspace=k"]
    );
}

#[test]
fn delimiters_glue_separate_arguments() {
    assert_eq!(repaired(&["a", "=", "b", "(", "c", ")", "d"]), ["a=b(c)", "d"]);
    assert_eq!(repaired(&["a=", "b"]), ["a=b"]);
    assert_eq!(repaired(&["a", ",b"]), ["a,b"]);
}

#[test]
fn no_arguments_give_one_empty_word() {
    assert_eq!(repaired(&[]), [""]);
    assert_eq!(repaired(&[""]), [""]);
}

#[test]
fn blanks_at_the_ends_leave_empty_words() {
    assert_eq!(repaired(&[" read "]), ["", "read", ""]);
    assert_eq!(repaired(&["  "]), ["", ""]);
    assert_eq!(repaired(&["read", ""]), ["read", ""]);
}

#[test]
fn blank_at_the_start_before_a_delimiter_is_dropped() {
    assert_eq!(repaired(&["  ,a"]), [",a"]);
    assert_eq!(repaired(&["a,  "]), ["a,"]);
}

#[test]
fn all_unicode_whitespace_counts() {
    assert_eq!(repaired(&["a\u{3000}b\u{a0}\tc\nd\u{2009}=\u{1680}e"]), ["a", "b", "c", "d=e"]);
    // A zero width space is none.
    assert_eq!(repaired(&["a\u{200b}b"]), ["a\u{200b}b"]);
}

#[test]
fn every_whitespace_character_separates() {
    let spaces = [
        '\t', '\n', '\u{b}', '\u{c}', '\r', ' ', '\u{85}', '\u{a0}', '\u{1680}', '\u{2000}',
        '\u{2001}', '\u{2002}', '\u{2003}', '\u{2004}', '\u{2005}', '\u{2006}', '\u{2007}',
        '\u{2008}', '\u{2009}', '\u{200a}', '\u{2028}', '\u{2029}', '\u{202f}', '\u{205f}',
        '\u{3000}',
    ];
    for code in 0..0x11_0000u32 {
        if let Some(c) = char::from_u32(code) {
            if spaces.contains(&c) {
                assert_eq!(repaired(&[&format!("a{c}b")]), ["a", "b"]);
                assert!(c.is_whitespace());
            } else {
                assert!(!c.is_whitespace());
            }
        }
    }
    // The characters next to those above are words.
    for c in ['\u{8}', '\u{e}', '\u{1f}', '\u{84}', '\u{86}', '\u{1fff}', '\u{202a}', '\u{feff}'] {
        assert_eq!(repaired(&[&format!("a{c}b")]), [format!("a{c}b")]);
    }
}

#[test]
fn repairing_twice_changes_nothing() {
    for line in [
        "write n=10 -schema replication ( factor = 3 ) keyspace=k",
        " a ( , ) b = c ",
        "x )  y ( z",
    ] {
        let once = repaired(&[line]);
        assert_eq!(repair_params(&once), once);
    }
}

#[test]
fn settled_words_are_kept() {
    let words = ["mixed", "ratio(write=1,read=3)", "-node", "a,b"];
    assert_eq!(repaired(&words), words);
}

#[test]
fn only_whitespace_changes() {
    let line = " a (b ,\tc ) = d ";
    let solid: String = line.chars().filter(|c| !c.is_whitespace()).collect();
    assert_eq!(repaired(&[line]).concat(), solid);
}

#[test]
fn quoting_is_undone() {
    assert_eq!(repaired(&["a", "b c =", "d"]), repaired(&["a", "b", "c", "=", "d"]));
}

#[test]
fn kind_of_whitespace_does_not_matter() {
    assert_eq!(
        repaired(&["a  b\t= \u{3000}c", " d"]),
        repaired(&["a\nb =\u{a0}c", "", "\r\nd"])
    );
    assert_eq!(repaired(&["a  b\t= \u{3000}c", " d"]), ["a", "b=c", "d"]);
}
