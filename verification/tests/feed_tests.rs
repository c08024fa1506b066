use hackerland::feed::{bar_edge, parse_feed, value_of, BarEdge, FeedKey, FeedUpdate};

fn read(message: &str) -> Vec<(FeedKey, String)> {
    let bytes = message.as_bytes();
    parse_feed(bytes)
        .iter()
        .map(|u| (u.key, String::from_utf8(value_of(bytes, u)).unwrap()))
        .collect()
}

fn reference(message: &str) -> Vec<(FeedKey, String)> {
    let mut found = Vec::new();
    for line in message.lines() {
        for part in line.split('|') {
            let kv: Vec<&str> = part.splitn(2, ':').collect();
            if kv.len() == 2 {
                match kv[0] {
                    "workspace" => found.push((FeedKey::Workspace, kv[1].to_string())),
                    "title" => found.push((FeedKey::Title, kv[1].to_string())),
                    _ => {}
                }
            }
        }
    }
    found
}

#[test]
fn the_bar_goes_to_the_bottom_only_when_told_so() {
    assert_eq!(bar_edge(Some("bottom")), BarEdge::Bottom);
    assert_eq!(bar_edge(Some("top")), BarEdge::Top);
    assert_eq!(bar_edge(Some("Bottom")), BarEdge::Top);
    assert_eq!(bar_edge(Some("")), BarEdge::Top);
    assert_eq!(bar_edge(Some("left")), BarEdge::Top);
    assert_eq!(bar_edge(None), BarEdge::Top);
}

#[test]
fn a_full_status_line() {
    assert_eq!(
        parse_feed(b"workspace:1|windows:3|title:Alacritty"),
        vec![
            FeedUpdate { key: FeedKey::Workspace, start: 10, end: 11 },
            FeedUpdate { key: FeedKey::Title, start: 28, end: 37 },
        ]
    );
    assert_eq!(
        read("workspace:1|windows:3|title:Alacritty"),
        vec![(FeedKey::Workspace, "1".to_string()), (FeedKey::Title, "Alacritty".to_string())]
    );
}

#[test]
fn an_empty_message_holds_nothing() {
    assert_eq!(parse_feed(b""), vec![]);
    assert_eq!(parse_feed(b"\n"), vec![]);
    assert_eq!(parse_feed(b"|||"), vec![]);
}

#[test]
fn fields_without_a_colon_are_skipped() {
    assert_eq!(read("workspace|title"), vec![]);
    assert_eq!(read("title"), vec![]);
}

#[test]
fn unknown_keys_are_skipped() {
    assert_eq!(read("windows:3|Title:x|titles:y| title:z"), vec![]);
}

#[test]
fn a_value_may_hold_colons() {
    assert_eq!(
        read("title:vim: src/main.rs:12"),
        vec![(FeedKey::Title, "vim: src/main.rs:12".to_string())]
    );
}

#[test]
fn a_value_may_be_empty() {
    assert_eq!(read("title:"), vec![(FeedKey::Title, String::new())]);
    assert_eq!(
        read("workspace:|title:x"),
        vec![(FeedKey::Workspace, String::new()), (FeedKey::Title, "x".to_string())]
    );
}

#[test]
fn an_empty_key_is_unknown() {
    assert_eq!(read(":workspace"), vec![]);
}

#[test]
fn lines_are_read_one_after_the_other() {
    assert_eq!(
        read("workspace:2\ntitle:Firefox\nworkspace:3\n"),
        vec![
            (FeedKey::Workspace, "2".to_string()),
            (FeedKey::Title, "Firefox".to_string()),
            (FeedKey::Workspace, "3".to_string()),
        ]
    );
}

#[test]
fn a_carriage_return_before_a_line_feed_ends_the_line() {
    assert_eq!(
        read("title:a\r\nworkspace:4\r\n"),
        vec![(FeedKey::Title, "a".to_string()), (FeedKey::Workspace, "4".to_string())]
    );
}

#[test]
fn a_carriage_return_elsewhere_is_part_of_the_value() {
    assert_eq!(read("title:a\rb|workspace:1"), reference("title:a\rb|workspace:1"));
    assert_eq!(read("title:a\r|workspace:1"), reference("title:a\r|workspace:1"));
    assert_eq!(
        read("title:a\r|workspace:1"),
        vec![(FeedKey::Title, "a\r".to_string()), (FeedKey::Workspace, "1".to_string())]
    );
}

#[test]
fn parsing_agrees_with_splitting_strings() {
    let messages = [
        "workspace:1|windows:3|title:Alacritty",
        "workspace:1|windows:3|title:Alacritty\n",
        "a|b|c\nworkspace:9",
        "title:x:y:z|workspace::\ntitle:|:|\n\n",
        "title:caf\u{e9} \u{2014} notes|workspace:\u{4e00}",
        "\r\n\r\ntitle:q\r\n",
        "workspace:1|title:two words|bogus",
        "||title:t||workspace:w||",
    ];
    for message in messages {
        assert_eq!(read(message), reference(message));
    }
}

#[test]
fn a_value_outside_the_message_is_empty() {
    let update = FeedUpdate { key: FeedKey::Title, start: 3, end: 9 };
    assert_eq!(value_of(b"title", &update), Vec::<u8>::new());
    let inverted = FeedUpdate { key: FeedKey::Title, start: 4, end: 2 };
    assert_eq!(value_of(b"title", &inverted), Vec::<u8>::new());
    let inside = FeedUpdate { key: FeedKey::Title, start: 1, end: 4 };
    assert_eq!(value_of(b"title", &inside), b"itl".to_vec());
}
