//! The secrets store and its entries.
use otp::store::{append_entry, remove_entry};
use otp::{find_entry, parse_store, validate_service_name, Entry, Problem};

fn entry(service: &str, value: &str) -> Entry {
    Entry {
        service: service.to_string(),
        value: value.to_string(),
    }
}

#[test]
fn parse_store_ignores_comments_and_keeps_uri_values() {
    let text = "# header\n\ngithub: JBSWY3DP\nwork:otpauth://totp/x?secret=JBSWY3DP\n";
    let entries = parse_store(text);
    assert_eq!(entries.len(), 2);
    assert_eq!(find_entry(&entries, "github").unwrap().value, "JBSWY3DP");
    assert_eq!(
        find_entry(&entries, "work").unwrap().value,
        "otpauth://totp/x?secret=JBSWY3DP"
    );
    assert!(find_entry(&entries, "missing").is_none());
}

#[test]
fn validate_service_name_rejects_bad_names() {
    assert!(validate_service_name("github").is_ok());
    assert!(validate_service_name("").is_err());
    assert!(validate_service_name("a:b").is_err());
    assert!(validate_service_name("a b").is_err());
}

#[test]
fn lines_are_trimmed_and_split_at_the_first_colon() {
    assert_eq!(
        parse_store("  a b : c:d  \r\n\t#x:y\n:z\nnothing\n : w\ne:\n"),
        vec![entry("a b", "c:d"), entry("e", "")]
    );
}

#[test]
fn the_last_line_may_be_open() {
    assert_eq!(parse_store("a:1\nb:2"), parse_store("a:1\nb:2\n"));
    assert_eq!(parse_store("a:1\r\nb:2\r"), parse_store("a:1\nb:2\n"));
    assert_eq!(parse_store(""), vec![]);
    assert_eq!(parse_store("\n\n"), vec![]);
}

#[test]
fn a_carriage_return_alone_ends_no_line() {
    assert_eq!(parse_store("a:1\rb:2\n"), vec![entry("a", "1\rb:2")]);
}

#[test]
fn the_first_of_several_entries_is_found() {
    let entries = parse_store("a:1\nb:2\na:3\n");
    assert_eq!(find_entry(&entries, "a"), Some(&entries[0]));
    assert_eq!(find_entry(&entries, "b"), Some(&entries[1]));
    assert_eq!(find_entry(&entries, "A"), None);
    assert_eq!(find_entry(&[], "a"), None);
}

#[test]
fn bad_service_names_are_told_apart() {
    assert_eq!(validate_service_name(""), Err(Problem::EmptyServiceName));
    for name in ["a:b", "a b", " ", "a\u{a0}", "\n", ":"] {
        assert_eq!(
            validate_service_name(name),
            Err(Problem::InvalidServiceName(name.to_string()))
        );
    }
    for name in ["#x", "\u{e9}", "a-b_c.d", "\u{200b}"] {
        assert_eq!(validate_service_name(name), Ok(()));
    }
}

#[test]
fn an_added_line_ends_the_store() {
    assert_eq!(append_entry("", "a", "1"), "a:1\n");
    assert_eq!(append_entry("b:2", "a", "1"), "b:2\na:1\n");
    assert_eq!(append_entry("b:2\n", "a", "1"), "b:2\na:1\n");
    assert_eq!(append_entry("\n", "a", "1"), "\na:1\n");
}

#[test]
fn an_added_entry_is_read_back_last() {
    for store in ["", "# c", "b:2\r\n", "b:2", "b : 2\n\n"] {
        let mut want = parse_store(store);
        want.push(entry("a", "x:y"));
        assert_eq!(parse_store(&append_entry(store, "a", "x:y")), want);
    }
}

#[test]
fn a_name_like_a_comment_is_not_read_back() {
    assert_eq!(parse_store(&append_entry("", "#a", "1")), vec![]);
}

#[test]
fn a_value_with_a_line_feed_is_cut_off() {
    assert_eq!(
        parse_store(&append_entry("", "a", "JBSW\nY3DP")),
        vec![entry("a", "JBSW")]
    );
}

#[test]
fn removing_keeps_the_other_lines() {
    let store = "# work\n\n a : 1\r\nb:2\n  # a:3\na:4\nplain";
    assert_eq!(
        remove_entry(store, "a"),
        "# work\n\nb:2\n  # a:3\nplain\n"
    );
    assert_eq!(
        remove_entry(store, "x"),
        "# work\n\n a : 1\nb:2\n  # a:3\na:4\nplain\n"
    );
}

#[test]
fn removing_keeps_blank_lines_and_nothing_else() {
    assert_eq!(remove_entry("a:1\n", "a"), "");
    assert_eq!(remove_entry("a:1\na:2", "a"), "");
    assert_eq!(remove_entry("\na:1\n", "a"), "\n");
    assert_eq!(remove_entry("\ngithub:JBSWY3DP\n", "github"), "\n");
    assert_eq!(remove_entry("\n\na:1\n", "a"), "\n\n");
    assert_eq!(remove_entry("", "a"), "");
}

#[test]
fn removed_entries_are_gone_and_the_others_stay() {
    let store = "a:1\nb:2\na:3\nc:4\n";
    let left = parse_store(&remove_entry(store, "a"));
    assert_eq!(left, vec![entry("b", "2"), entry("c", "4")]);
}

#[test]
fn adding_and_removing_gives_the_entries_back() {
    for store in ["", "b:2", "# c\r\nb:2\n\n"] {
        let after = remove_entry(&append_entry(store, "a", "1"), "a");
        assert_eq!(parse_store(&after), parse_store(store));
    }
}

#[test]
fn adding_and_removing_gives_a_tidy_text_back() {
    for store in ["", "\n", "b:2\n", "# c\n\nb : 2\n", "x\ry\n", "\r\r\n\n"] {
        let after = remove_entry(&append_entry(store, "a", "1"), "a");
        let tidy = (store.is_empty() || store.ends_with('\n')) && !store.contains("\r\n");
        assert_eq!(after == store, tidy, "{store:?}");
    }
    assert_eq!(remove_entry(&append_entry("b:2", "a", "1"), "a"), "b:2\n");
}

#[test]
fn services_stay_distinct() {
    let mut store = String::new();
    for name in ["a", "b", "c"] {
        assert!(find_entry(&parse_store(&store), name).is_none());
        store = append_entry(&store, name, "1");
    }
    let store = remove_entry(&store, "b");
    let names: Vec<String> = parse_store(&store).into_iter().map(|e| e.service).collect();
    assert_eq!(names, vec!["a", "c"]);
}
