//! What the commands decide.
use otp::base32::{Base32Error, Base32Fault};
use otp::clipboard::{first_step, next_step, Helper, Step, Trial};
use otp::command::{
    self, accept_secret, add_service, list_services, locate, look_up, remove_service, report,
    secret_from_input, wants_clipboard, Place, Refusal,
};
use otp::{resolve_secret, totp_at, Algorithm, Problem};

#[test]
fn secrets_are_accepted_if_they_generate() {
    assert_eq!(accept_secret(" JBSW Y3DP\n"), Ok("JBSW Y3DP".to_string()));
    assert_eq!(
        accept_secret("otpauth://totp/x?secret=MY"),
        Ok("otpauth://totp/x?secret=MY".to_string())
    );
    assert_eq!(accept_secret(" \t"), Err(Refusal::NoSecret));
    assert_eq!(
        accept_secret("otpauth://totp/x"),
        Err(Refusal::BadSecret(Problem::MissingSecret))
    );
    assert_eq!(
        accept_secret("==="),
        Err(Refusal::BadSecret(Problem::EmptySecret))
    );
    assert_eq!(
        accept_secret("A1"),
        Err(Refusal::BadSecret(Problem::InvalidBase32(Base32Error {
            position: 1,
            kind: Base32Fault::Symbol
        })))
    );
}

#[test]
fn a_secret_on_several_lines_needs_a_first_line_that_generates() {
    let cut = |position, kind| {
        Err(Refusal::CutSecret(Problem::InvalidBase32(Base32Error {
            position,
            kind,
        })))
    };
    assert_eq!(accept_secret("J\nBSWY3DP"), cut(0, Base32Fault::Length));
    assert_eq!(
        accept_secret("JBSW\r\nY3DP"),
        cut(3, Base32Fault::Trailing)
    );
    assert_eq!(accept_secret("==\nMY"), Err(Refusal::CutSecret(Problem::EmptySecret)));
    assert_eq!(
        accept_secret("otpauth://totp/x?issuer=a\n&secret=MY"),
        Err(Refusal::CutSecret(Problem::MissingSecret))
    );
    assert_eq!(accept_secret("JBSWY3DP\r\n"), Ok("JBSWY3DP".to_string()));
    // What could not generate at all is refused for that.
    assert!(matches!(
        accept_secret("A\n1"),
        Err(Refusal::BadSecret(Problem::InvalidBase32(_)))
    ));
}

#[test]
fn a_secret_on_several_lines_generates_by_its_first_line() {
    for (given, key) in [
        ("otpauth://totp/x?secret=MY&issuer=a\nb", b"f".to_vec()),
        (" MZXW6\nMY ", b"foo".to_vec()),
        (
            "otpauth://totp/x?secret=MZXW6&issuer=b \r\n\na:MY",
            b"foo".to_vec(),
        ),
    ] {
        let secret = accept_secret(given).unwrap();
        assert_eq!(secret, given.trim());
        let store = command::add("b:MY", "a", given).unwrap();
        assert_eq!(store, format!("b:MY\na:{secret}\n"));
        assert_eq!(look_up(&store, "a").unwrap().key, key);
        assert_eq!(
            command::add(&store, "a", "MY"),
            Err(Refusal::AlreadyExists("a".to_string()))
        );
        assert!(remove_service(&store, "a").is_ok());
    }
}

#[test]
fn a_request_to_add_looks_at_the_name_then_the_secret_then_the_store() {
    let store = "a:MY\n";
    assert_eq!(
        command::add(store, "", ""),
        Err(Refusal::BadName(Problem::EmptyServiceName))
    );
    assert_eq!(
        command::add(store, "a:b", ""),
        Err(Refusal::BadName(Problem::InvalidServiceName(
            "a:b".to_string()
        )))
    );
    assert_eq!(command::add(store, "a", " "), Err(Refusal::NoSecret));
    assert_eq!(
        command::add(store, "#a", "=="),
        Err(Refusal::BadSecret(Problem::EmptySecret))
    );
    assert_eq!(
        command::add(store, "#a", "MY"),
        Err(Refusal::CommentName("#a".to_string()))
    );
    assert_eq!(
        command::add(store, "a", "MY"),
        Err(Refusal::AlreadyExists("a".to_string()))
    );
    assert_eq!(
        command::add(store, "b", " MZXW6 "),
        Ok("a:MY\nb:MZXW6\n".to_string())
    );
}

#[test]
fn an_accepted_secret_is_accepted_as_it_is() {
    for given in [" MY ", "otpauth://totp/x?secret=MY\n", "MZXW6\nMY"] {
        let secret = accept_secret(given).unwrap();
        assert_eq!(accept_secret(&secret), Ok(secret.clone()));
    }
}

#[test]
fn names_like_comments_are_refused() {
    for name in ["#x", "#", "##"] {
        assert_eq!(
            add_service("", name, "MY"),
            Err(Refusal::CommentName(name.to_string()))
        );
    }
    let store = add_service("", "x#", "MY").unwrap();
    assert_eq!(look_up(&store, "x#").unwrap().key, b"f");
}

#[test]
fn adding_and_removing_gives_the_text_back() {
    for store in ["", "\n", "b:MY\n", "# c\n\nb : MY\n"] {
        let after = add_service(store, "a", &accept_secret(" MZXW6 ").unwrap()).unwrap();
        assert!(after.starts_with(store));
        assert_eq!(remove_service(&after, "a").unwrap(), store);
    }
}

#[test]
fn a_dash_asks_for_the_standard_input() {
    assert!(secret_from_input("-"));
    assert!(!secret_from_input(""));
    assert!(!secret_from_input("--"));
    assert!(!secret_from_input("JBSWY3DP"));
    assert!(!secret_from_input(" -"));
}

#[test]
fn an_added_service_generates() {
    let given = " otpauth://totp/AWS:me?secret=JBSWY3DP&digits=8&algorithm=sha512 ";
    let secret = accept_secret(given).unwrap();
    let before = "# work\ngithub: MZXW6YTBOI";
    let store = add_service(before, "aws", &secret).unwrap();
    assert_eq!(
        store,
        "# work\ngithub: MZXW6YTBOI\naws:otpauth://totp/AWS:me?secret=JBSWY3DP&digits=8&algorithm=sha512\n"
    );
    let found = look_up(&store, "aws").unwrap();
    let meant = resolve_secret(given).unwrap();
    assert_eq!(found.key, meant.key);
    assert_eq!((found.digits, found.algorithm), (8, Algorithm::Sha512));
    assert_eq!(totp_at(&found, 59), totp_at(&meant, 59));
    assert_eq!(look_up(&store, "github").unwrap().key, b"foobar");
}

#[test]
fn a_service_is_not_added_twice() {
    let store = add_service("", "a", "MY").unwrap();
    assert_eq!(
        add_service(&store, "a", "MZXW6"),
        Err(Refusal::AlreadyExists("a".to_string()))
    );
    assert!(add_service(&store, "A", "MZXW6").is_ok());
}

#[test]
fn a_removed_service_is_unknown() {
    let store = "a:MY\nb:MZXW6\n";
    let left = remove_service(store, "a").unwrap();
    assert_eq!(left, "b:MZXW6\n");
    assert_eq!(
        look_up(&left, "a").unwrap_err(),
        Refusal::UnknownService("a".to_string())
    );
    assert_eq!(
        remove_service(&left, "a"),
        Err(Refusal::NothingToRemove("a".to_string()))
    );
    assert_eq!(look_up(&left, "b").unwrap().key, b"foo");
    assert!(add_service(&left, "a", "MY").is_ok());
    let again = add_service(&left, "a", "MY").unwrap();
    assert_eq!(remove_service(&again, "a").unwrap(), left);
}

#[test]
fn a_stored_value_may_be_bad() {
    assert_eq!(
        look_up("a:\n", "a").unwrap_err(),
        Refusal::BadEntry("a".to_string(), Problem::EmptySecret)
    );
    assert_eq!(
        look_up("a:otpauth://totp/x?secret=MY&period=0\n", "a").unwrap_err(),
        Refusal::BadEntry("a".to_string(), Problem::ZeroPeriod)
    );
}

#[test]
fn refusals_say_what_is_wrong() {
    let name = || "a\"b".to_string();
    let cases = vec![
        (
            Refusal::UnknownService(name()),
            "service \"a\\\"b\" not found (see: otp ls)",
        ),
        (
            Refusal::BadEntry(name(), Problem::EmptySecret),
            "invalid secret for service \"a\\\"b\"",
        ),
        (Refusal::NoSecret, "no secret provided"),
        (
            Refusal::BadSecret(Problem::EmptySecret),
            "the provided secret is not valid",
        ),
        (
            Refusal::CutSecret(Problem::EmptySecret),
            "the first line of the provided secret is not valid",
        ),
        (
            Refusal::BadName(Problem::EmptyServiceName),
            "service name must not be empty",
        ),
        (
            Refusal::CommentName(name()),
            "service name must not begin with #: \"a\\\"b\"",
        ),
        (
            Refusal::AlreadyExists(name()),
            "service \"a\\\"b\" already exists (remove it first: otp rm a\"b)",
        ),
        (
            Refusal::NothingToRemove(name()),
            "service \"a\\\"b\" not found",
        ),
        (
            Refusal::NoHome,
            "cannot find home directory (set OTP_SECRETS_FILE)",
        ),
    ];
    for (refusal, text) in cases {
        assert_eq!(refusal.message(), text);
        let has_cause = matches!(
            refusal,
            Refusal::BadEntry(_, _) | Refusal::BadSecret(_) | Refusal::CutSecret(_)
        );
        assert_eq!(refusal.cause().is_some(), has_cause);
        if let Some(cause) = refusal.cause() {
            assert_eq!(cause.message(), "empty secret");
        }
    }
}

#[test]
fn services_are_listed_in_their_order() {
    assert_eq!(
        list_services("# none\n"),
        vec!["No services yet. Add one with: otp add <service> <secret>"]
    );
    assert_eq!(
        list_services("b:1\n# c\na : 2\n"),
        vec![
            "Usage: otp <service>",
            "Available services:",
            "  - b",
            "  - a"
        ]
    );
}

#[test]
fn codes_are_reported() {
    assert_eq!(
        report(false, "657914", 21, true),
        "OTP: 657914 (copied to clipboard, valid 21s)"
    );
    assert_eq!(report(false, "007914", 1, false), "OTP: 007914 (valid 1s)");
    assert_eq!(report(true, "007914", 1, false), "007914");
    assert_eq!(report(true, "007914", 1, true), "007914");
    assert_eq!(
        report(false, "1", u64::MAX, false),
        "OTP: 1 (valid 18446744073709551615s)"
    );
}

#[test]
fn the_clipboard_is_left_alone_on_request() {
    assert!(wants_clipboard(false, false));
    assert!(!wants_clipboard(true, false));
    assert!(!wants_clipboard(false, true));
    assert!(!wants_clipboard(true, true));
}

#[test]
fn the_secrets_file_is_located() {
    let text = |s: &str| Some(s.to_string());
    assert_eq!(
        locate(text("/x/y"), text("/home/me"), text("C:")),
        Ok(Place {
            directory: None,
            file: "/x/y".to_string()
        })
    );
    for configured in [None, text("")] {
        assert_eq!(
            locate(configured.clone(), text("/home/me"), text("C:")),
            Ok(Place {
                directory: text("/home/me"),
                file: ".otp_secrets".to_string()
            })
        );
        assert_eq!(
            locate(configured.clone(), None, text("C:")),
            Ok(Place {
                directory: text("C:"),
                file: ".otp_secrets".to_string()
            })
        );
        assert_eq!(locate(configured, None, None), Err(Refusal::NoHome));
    }
    assert_eq!(
        locate(None, text(""), None).unwrap().directory,
        text("")
    );
}

fn run(trials: &[Trial]) -> (Vec<Helper>, Step) {
    let mut tried = Vec::new();
    let mut step = first_step();
    loop {
        match step {
            Step::Run(helper) => {
                step = next_step(&helper, trials[tried.len()]);
                tried.push(helper);
            }
            end => return (tried, end),
        }
    }
}

#[test]
fn helpers_are_tried_in_order() {
    let (tried, end) = run(&[Trial::Missing; 4]);
    assert!(matches!(end, Step::Exhausted));
    let programs: Vec<&str> = tried.iter().map(|h| h.program.as_str()).collect();
    assert_eq!(programs, vec!["pbcopy", "wl-copy", "xclip", "clip.exe"]);
    assert_eq!(tried[2].arguments, vec!["-selection", "clipboard"]);
    for i in [0, 1, 3] {
        assert!(tried[i].arguments.is_empty());
    }
    let numbers: Vec<usize> = tried.iter().map(|h| h.number).collect();
    assert_eq!(numbers, vec![0, 1, 2, 3]);
}

#[test]
fn the_first_working_helper_ends_the_trials() {
    let (tried, end) = run(&[Trial::Missing, Trial::Failed, Trial::Copied, Trial::Broken]);
    assert_eq!(tried.len(), 3);
    assert!(matches!(end, Step::Done));
    let (tried, end) = run(&[Trial::Missing, Trial::Broken, Trial::Copied, Trial::Copied]);
    assert_eq!(tried.len(), 2);
    assert!(matches!(end, Step::Stuck));
    let (tried, end) = run(&[Trial::Copied, Trial::Broken, Trial::Broken, Trial::Broken]);
    assert_eq!(tried.len(), 1);
    assert!(matches!(end, Step::Done));
    let (tried, end) = run(&[Trial::Failed; 4]);
    assert_eq!(tried.len(), 4);
    assert!(matches!(end, Step::Exhausted));
}

#[test]
fn a_documented_store_generates() {
    let store = "# work accounts\n\
                 github: JBSWY3DPEHPK3PXP\n\
                 aws: otpauth://totp/AWS:me?secret=JBSWY3DPEHPK3PXP&digits=6\n";
    let github = look_up(store, "github").unwrap();
    let aws = look_up(store, "aws").unwrap();
    assert_eq!(github.key, b"Hello!\xde\xad\xbe\xef");
    assert_eq!(github.key, aws.key);
    assert_eq!((aws.digits, aws.period), (6, 30));
    assert_eq!(totp_at(&github, 1111111109), totp_at(&aws, 1111111109));
    assert_eq!(
        list_services(store)[2..],
        ["  - github".to_string(), "  - aws".to_string()]
    );
}
