use rust_learning_path::basics::{
    add, calculate_length, change, value_in_cents, Coin, Rectangle, UsState,
};
use rust_learning_path::board::{Message, MessageBoard, BAD_REQUEST, CREATED};
use rust_learning_path::username::username_from_contents;

fn msg(u: &str, c: &str) -> Message {
    Message { username: u.to_string(), content: c.to_string() }
}

fn listing(b: &MessageBoard) -> Vec<(String, String)> {
    b.get_messages().into_iter().map(|m| (m.username, m.content)).collect()
}

#[test]
fn a_new_board_holds_the_welcome_message() {
    let b = MessageBoard::new();
    assert_eq!(listing(&b), vec![("System".to_string(), "欢迎来到 Rust 留言板！".to_string())]);
}

#[test]
fn law_accepted_posts_are_listed_last_in_order() {
    let mut b = MessageBoard::new();
    let (code, echoed) = b.create_message(msg("alice", "hi"));
    assert_eq!(code, CREATED);
    assert_eq!(code, 201);
    assert_eq!((echoed.username.as_str(), echoed.content.as_str()), ("alice", "hi"));
    let (code, _) = b.create_message(msg("bob", "yo"));
    assert_eq!(code, CREATED);
    let l = listing(&b);
    assert_eq!(l.len(), 3);
    assert_eq!(l[1], ("alice".to_string(), "hi".to_string()));
    assert_eq!(l[2], ("bob".to_string(), "yo".to_string()));
}

#[test]
fn law_refused_posts_leave_the_board_unchanged() {
    let mut b = MessageBoard::new();
    let before = listing(&b);
    for m in [
        msg("", "x"),
        msg("a", ""),
        msg(&"u".repeat(51), "x"),
        msg("a", &"c".repeat(1001)),
        msg(&"é".repeat(26), "x"),
    ] {
        let (code, echoed) = b.create_message(m);
        assert_eq!(code, BAD_REQUEST);
        assert_eq!(code, 400);
        assert!(echoed.username.len() <= 52);
        assert_eq!(listing(&b), before);
    }
}

#[test]
fn length_limits_count_bytes_and_include_the_bounds() {
    let mut b = MessageBoard::new();
    assert_eq!(b.create_message(msg(&"u".repeat(50), &"c".repeat(1000))).0, CREATED);
    assert_eq!(b.create_message(msg(&"é".repeat(25), "x")).0, CREATED);
    assert_eq!(listing(&b).len(), 3);
}

#[test]
fn basics_compute_as_the_chapters_show() {
    assert_eq!(add(5, 10), 15);
    assert_eq!(add(i32::MAX, i32::MIN), -1);
    assert_eq!(calculate_length("hello"), 5);
    assert_eq!(calculate_length("héllo"), 6);
    let mut s = String::from("hello");
    change(&mut s);
    assert_eq!(s, "hello, world");
    let r = Rectangle { width: 30, height: 50 };
    assert_eq!(r.area(), 1500);
    assert_eq!(Rectangle::square(20), Rectangle { width: 20, height: 20 });
    assert_eq!(Rectangle::square(0).area(), 0);
}

#[test]
fn coins_are_valued_in_cents() {
    assert_eq!(value_in_cents(Coin::Penny), 1);
    assert_eq!(value_in_cents(Coin::Nickel), 5);
    assert_eq!(value_in_cents(Coin::Dime), 10);
    assert_eq!(value_in_cents(Coin::Quarter(UsState::Alaska)), 25);
    assert_eq!(value_in_cents(Coin::Quarter(UsState::Alabama)), 25);
}

#[test]
fn usernames_keep_twenty_characters() {
    assert_eq!(username_from_contents("[package]\nname = \"chapter\""), "[package]\nname = \"ch");
    assert_eq!(username_from_contents("short"), "short");
    assert_eq!(username_from_contents("exactly twenty bytes"), "exactly twenty bytes");
    assert_eq!(username_from_contents(""), "");
    assert_eq!(username_from_contents("ab一二三四五六七"), "ab一二三四五六七");
    assert_eq!(username_from_contents(&"中".repeat(21)), "中".repeat(20));
    assert_eq!(username_from_contents("一二三四五六七八九十一二三四五六七八九十ab"), "一二三四五六七八九十一二三四五六七八九十");
}
