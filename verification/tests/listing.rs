use print_queue::queue::Queue;
use print_queue::user::{DisplayInfo, UserDirectory, UserID};

fn directory() -> UserDirectory {
    let mut directory = UserDirectory::new();
    directory.insert(
        UserID::new("A"),
        DisplayInfo {
            real_name: Some(String::from("Ada Lovelace")),
            handle: Some(String::from("ada")),
        },
    );
    directory.insert(
        UserID::new("B"),
        DisplayInfo {
            real_name: None,
            handle: Some(String::from("bob")),
        },
    );
    directory.insert(
        UserID::new("D"),
        DisplayInfo {
            real_name: Some(String::from("Dee")),
            handle: Some(String::new()),
        },
    );
    directory.insert(
        UserID::new("E"),
        DisplayInfo {
            real_name: Some(String::from("Eve")),
            handle: None,
        },
    );
    directory
}

fn queue_of<'a>(directory: &'a UserDirectory, tokens: &[&str]) -> Queue<'a> {
    let mut queue = Queue::new(directory);
    for token in tokens {
        assert!(queue.add_user_no_write(UserID::new(token)));
    }
    queue
}

#[test]
fn render_of_an_empty_line() {
    let directory = directory();
    assert_eq!(Queue::new(&directory).render(), "");
}

#[test]
fn render_three_places_with_a_repeat() {
    let directory = directory();
    let queue = queue_of(&directory, &["A", "C", "A"]);
    let text = queue.render();
    assert_eq!(text, "0. Ada Lovelace (ada)\n1. C\n2. Ada Lovelace (ada)\n");
    assert_eq!(text.lines().count(), 3);
}

#[test]
fn render_falls_back_to_the_token() {
    let directory = directory();
    let queue = queue_of(&directory, &["B", "C"]);
    assert_eq!(queue.render(), "0. B (bob)\n1. C\n");
}

#[test]
fn render_leaves_out_a_missing_or_empty_handle() {
    let directory = directory();
    let queue = queue_of(&directory, &["D", "E"]);
    assert_eq!(queue.render(), "0. Dee\n1. Eve\n");
}

#[test]
fn render_with_an_empty_directory() {
    let directory = UserDirectory::new();
    let queue = queue_of(&directory, &["UA8RXUPSP", "UNB2LMZRP", "UN480W9ND"]);
    assert_eq!(queue.render(), "0. UA8RXUPSP\n1. UNB2LMZRP\n2. UN480W9ND\n");
}

#[test]
fn render_counts_past_nine() {
    let directory = directory();
    let tokens: Vec<String> = (0..11).map(|i| format!("U{}", i)).collect();
    let names: Vec<&str> = tokens.iter().map(String::as_str).collect();
    let queue = queue_of(&directory, &names);
    let expected: String = (0..11).map(|i| format!("{}. U{}\n", i, i)).collect();
    assert_eq!(queue.render(), expected);
}
