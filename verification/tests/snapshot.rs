use print_queue::queue::{Queue, QUEUE_UID};
use print_queue::snapshot::{blanks, LoadError};
use print_queue::user::{UserDirectory, UserID};

fn line_of(tokens: &[&str]) -> Vec<UserID> {
    tokens.iter().map(|token| UserID::new(token)).collect()
}

fn queue_of<'a>(directory: &'a UserDirectory, tokens: &[&str]) -> Queue<'a> {
    let mut queue = Queue::new(directory);
    for token in tokens {
        assert!(queue.add_user_no_write(UserID::new(token)));
    }
    queue
}

fn loaded(contents: &str) -> Result<Vec<UserID>, LoadError> {
    let directory = UserDirectory::new();
    Queue::from_file(&directory, contents).map(|queue| queue.iter().cloned().collect())
}

#[test]
fn snapshot_of_an_empty_line() {
    let directory = UserDirectory::new();
    assert_eq!(Queue::new(&directory).snapshot(), "");
}

#[test]
fn snapshot_has_one_line_per_place() {
    let directory = UserDirectory::new();
    let queue = queue_of(&directory, &["UA8RXUPSP", "UNB2LMZRP", "UN480W9ND"]);
    assert_eq!(queue.snapshot(), "0\tUA8RXUPSP\n1\tUNB2LMZRP\n2\tUN480W9ND\n");
}

#[test]
fn snapshot_counts_past_nine() {
    let directory = UserDirectory::new();
    let tokens: Vec<String> = (0..12).map(|i| format!("U{}", i)).collect();
    let names: Vec<&str> = tokens.iter().map(String::as_str).collect();
    let queue = queue_of(&directory, &names);
    let expected: String = (0..12).map(|i| format!("{}\tU{}\n", i, i)).collect();
    assert_eq!(queue.snapshot(), expected);
}

#[test]
fn snapshot_follows_the_line() {
    let directory = UserDirectory::new();
    let mut queue = queue_of(&directory, &["A", "B", "C"]);
    queue.remove_user(UserID::new("A"));
    assert_eq!(queue.snapshot(), "0\tB\n1\tC\n");
    queue.add_user(UserID::new("A"));
    assert_eq!(queue.snapshot(), "0\tB\n1\tC\n2\tA\n");
}

#[test]
fn save_then_load() {
    let directory = UserDirectory::new();
    let queue = queue_of(&directory, &["A", "B", "C"]);
    let text = queue.snapshot();
    let again = Queue::from_file(&directory, &text).unwrap();
    assert_eq!(*again, line_of(&["A", "B", "C"]));
    assert_eq!(again.snapshot(), text);
    assert_eq!(again.mention_text(), QUEUE_UID);
}

#[test]
fn save_then_load_with_repeats() {
    let directory = UserDirectory::new();
    let queue = queue_of(&directory, &["A", "A", "A", "B", "A", "C", "A"]);
    let again = Queue::from_file(&directory, &queue.snapshot()).unwrap();
    assert_eq!(*again, *queue);
}

#[test]
fn save_then_load_over_a_longer_store() {
    let directory = UserDirectory::new();
    let queue = queue_of(&directory, &["A", "B"]);
    for stale in [0usize, 1, 4, 40] {
        let image = format!("{}{}", queue.snapshot(), blanks(stale));
        assert_eq!(loaded(&image), Ok(line_of(&["A", "B"])));
    }
    assert_eq!(loaded(&blanks(12)), Ok(Vec::new()));
}

#[test]
fn blanks_are_spaces() {
    assert_eq!(blanks(0), "");
    assert_eq!(blanks(1), " ");
    assert_eq!(blanks(5), "     ");
    assert_eq!(blanks(300), " ".repeat(300));
}

#[test]
fn load_the_documented_example() {
    assert_eq!(
        loaded("0 UA8RXUPSP\n1 UNB2LMZRP\n2 UN480W9ND\n"),
        Ok(line_of(&["UA8RXUPSP", "UNB2LMZRP", "UN480W9ND"]))
    );
}

#[test]
fn load_nothing() {
    assert_eq!(loaded(""), Ok(Vec::new()));
    assert_eq!(loaded("\n"), Ok(Vec::new()));
    assert_eq!(loaded("  \n\t\n\r\n   "), Ok(Vec::new()));
}

#[test]
fn load_without_a_last_line_feed() {
    assert_eq!(loaded("0\tA\n1\tB"), Ok(line_of(&["A", "B"])));
}

#[test]
fn load_passes_over_blank_lines() {
    assert_eq!(
        loaded("\n0\tA\n\n   \n1\tB\n\u{a0}\n"),
        Ok(line_of(&["A", "B"]))
    );
}

#[test]
fn load_takes_lines_in_any_order() {
    assert_eq!(
        loaded("2\tC\n0\tA\n1\tB\n"),
        Ok(line_of(&["A", "B", "C"]))
    );
}

#[test]
fn load_is_lenient_about_white_space_and_further_fields() {
    assert_eq!(
        loaded("  0   A  and more\r\n+1\tB\r\n002 \u{2003} C\n"),
        Ok(line_of(&["A", "B", "C"]))
    );
}

#[test]
fn load_refuses_a_gap() {
    assert_eq!(loaded("0\tA\n2\tC\n"), Err(LoadError::MissingPosition(1)));
    assert_eq!(loaded("1\tA\n"), Err(LoadError::MissingPosition(0)));
    assert_eq!(
        loaded("0\tA\n1\tB\n7\tC\n"),
        Err(LoadError::MissingPosition(2))
    );
    assert_eq!(
        loaded("5\tA\n3\tB\n0\tC\n"),
        Err(LoadError::MissingPosition(1))
    );
}

#[test]
fn load_refuses_a_line_without_a_member() {
    assert_eq!(loaded("0\tA\n1\n"), Err(LoadError::MissingUser(1)));
    assert_eq!(loaded("A\n"), Err(LoadError::MissingUser(0)));
    assert_eq!(loaded("\n\n  7  \n"), Err(LoadError::MissingUser(2)));
}

#[test]
fn load_refuses_a_bad_place() {
    assert_eq!(loaded("x\tA\n"), Err(LoadError::BadPosition(0)));
    assert_eq!(loaded("0\tA\n-1\tB\n"), Err(LoadError::BadPosition(1)));
    assert_eq!(loaded("0\tA\n1.5\tB\n"), Err(LoadError::BadPosition(1)));
    assert_eq!(loaded("+\tA\n"), Err(LoadError::BadPosition(0)));
    assert_eq!(
        loaded("99999999999999999999999999999999\tA\n"),
        Err(LoadError::BadPosition(0))
    );
    assert_eq!(loaded("A\t0\n"), Err(LoadError::BadPosition(0)));
}

#[test]
fn load_refuses_a_place_named_twice() {
    assert_eq!(loaded("0\tA\n0\tB\n"), Err(LoadError::DuplicatePosition(0)));
    assert_eq!(
        loaded("0\tA\n1\tB\n+1\tB\n"),
        Err(LoadError::DuplicatePosition(1))
    );
    assert_eq!(
        loaded("3\tA\n03\tA\n"),
        Err(LoadError::DuplicatePosition(3))
    );
}

#[test]
fn load_refuses_a_line_that_breaks_the_rule() {
    assert_eq!(
        loaded("0\tA\n1\tA\n2\tA\n3\tA\n"),
        Err(LoadError::RuleViolation(3))
    );
    assert_eq!(
        loaded("0\tB\n1\tA\n2\tC\n3\tC\n4\tD\n"),
        Err(LoadError::RuleViolation(3))
    );
    assert_eq!(
        loaded("0\tA\n1\tA\n2\tA\n3\tB\n4\tA\n"),
        Ok(line_of(&["A", "A", "A", "B", "A"]))
    );
}

#[test]
fn load_refuses_a_line_that_only_leaving_can_have_made() {
    let directory = UserDirectory::new();
    let mut queue = queue_of(&directory, &["A", "A", "A", "B", "A"]);
    queue.remove_user(UserID::new("B"));
    assert_eq!(*queue, line_of(&["A", "A", "A", "A"]));
    assert_eq!(
        loaded(&queue.snapshot()),
        Err(LoadError::RuleViolation(3))
    );
}

#[test]
fn load_reports_the_first_trouble_in_reading_order() {
    assert_eq!(
        loaded("0\tA\nx\tB\n0\tC\n7\n"),
        Err(LoadError::BadPosition(1))
    );
    assert_eq!(
        loaded("0\tA\n0\tC\nx\tB\n"),
        Err(LoadError::DuplicatePosition(0))
    );
    assert_eq!(loaded("x\n0\tA\n"), Err(LoadError::MissingUser(0)));
}

#[test]
fn load_looks_for_gaps_before_it_replays() {
    assert_eq!(
        loaded("0\tA\n1\tA\n2\tA\n3\tA\n9\tB\n"),
        Err(LoadError::MissingPosition(4))
    );
}

#[test]
fn load_keeps_the_directory() {
    let mut directory = UserDirectory::new();
    directory.insert(
        UserID::new("A"),
        print_queue::user::DisplayInfo {
            real_name: Some(String::from("Ada")),
            handle: None,
        },
    );
    let queue = Queue::from_file(&directory, "0\tA\n").unwrap();
    assert_eq!(queue.render(), "0. Ada\n");
}

#[test]
fn load_error_messages() {
    assert_eq!(
        LoadError::MissingUser(3).message(),
        "Invalid file format: line 3 must contain a parse-able positive integer followed by some amount of whitespace, followed by a Slack user-id"
    );
    assert_eq!(
        LoadError::BadPosition(0).message(),
        "Invalid file format: line 0 must start with a parse-able positive integer"
    );
    assert_eq!(
        LoadError::DuplicatePosition(12).message(),
        "Invalid file format: only one person per position (index) in line, but there are more in position 12"
    );
    assert_eq!(
        LoadError::MissingPosition(1).message(),
        "Invalid file format: nobody is in position 1 although somebody is in a later one"
    );
    assert_eq!(
        LoadError::RuleViolation(3).message(),
        "the user in position 3 \"breaks the addition rules\": see the Queue documentation for more"
    );
}

#[test]
fn load_succeeds_exactly_on_sound_snapshots() {
    let sound: [(&str, &[&str]); 6] = [
        ("", &[]),
        ("0\tA\n", &["A"]),
        ("0\tA\n1\tA\n2\tA\n3\tB\n4\tA\n", &["A", "A", "A", "B", "A"]),
        ("2\tC\n\n0\tA\n   \n1\tB", &["A", "B", "C"]),
        ("+0 A\n01\u{a0}B rest\n", &["A", "B"]),
        ("0\tA\n1\tB\n2\tB\n3\tA\n", &["A", "B", "B", "A"]),
    ];
    for (text, line) in sound {
        assert_eq!(loaded(text), Ok(line_of(line)), "{:?}", text);
    }
    let unsound = [
        ("0\tA\n2\tC\n", LoadError::MissingPosition(1)),
        ("1\tA\n", LoadError::MissingPosition(0)),
        ("0\tA\n0\tB\n", LoadError::DuplicatePosition(0)),
        ("0\tA\n1\tB\n00001\tB\n", LoadError::DuplicatePosition(1)),
        ("0\tA\n1\n", LoadError::MissingUser(1)),
        ("A\t0\n", LoadError::BadPosition(0)),
        ("-0\tA\n", LoadError::BadPosition(0)),
        ("0\tA\n1\tA\n2\tA\n3\tA\n", LoadError::RuleViolation(3)),
        ("0\tA\n1\tB\n2\tC\n3\tD\n4\tD\n", LoadError::RuleViolation(4)),
        (
            "0\tA\n1\tA\n2\tA\n3\tA\n4\tA\n",
            LoadError::RuleViolation(3),
        ),
    ];
    for (text, error) in unsound {
        assert_eq!(loaded(text), Err(error), "{:?}", text);
    }
}
