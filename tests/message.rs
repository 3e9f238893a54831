use ship_relay::message::parse_message;

fn decoded(recipient: &str, payload: &str) -> Option<(String, String)> {
    Some((recipient.to_string(), payload.to_string()))
}

#[test]
fn well_formed_line_decodes() {
    assert_eq!(parse_message(":alpha;!open_valve"), decoded("alpha", "open_valve"));
}

#[test]
fn empty_payload_is_allowed() {
    assert_eq!(parse_message(":alpha;!"), decoded("alpha", ""));
}

#[test]
fn payload_keeps_spaces_and_bangs() {
    assert_eq!(parse_message(":b;!!x y "), decoded("b", "!x y "));
}

#[test]
fn recipient_of_only_colons_is_empty() {
    assert_eq!(parse_message(":::;!x"), decoded("", "x"));
    assert_eq!(parse_message(":;!x"), decoded("", "x"));
}

#[test]
fn all_leading_colons_are_stripped() {
    assert_eq!(parse_message("::ship;!hi"), decoded("ship", "hi"));
}

#[test]
fn colons_inside_recipient_are_kept() {
    assert_eq!(parse_message(":a:b;!c"), decoded("a:b", "c"));
}

#[test]
fn non_ascii_text_decodes() {
    assert_eq!(parse_message(":schiff-ü;!ventil öffnen"), decoded("schiff-ü", "ventil öffnen"));
}

#[test]
fn line_without_leading_colon_is_rejected() {
    assert_eq!(parse_message("hello world"), None);
    assert_eq!(parse_message(""), None);
    assert_eq!(parse_message("alpha;!open"), None);
    assert_eq!(parse_message(" :alpha;!open"), None);
}

#[test]
fn line_without_semicolon_is_rejected() {
    assert_eq!(parse_message(":alpha!open"), None);
    assert_eq!(parse_message(":"), None);
}

#[test]
fn line_with_two_semicolons_is_rejected() {
    assert_eq!(parse_message(":alpha;!open;valve"), None);
    assert_eq!(parse_message(":alpha;;!open"), None);
    assert_eq!(parse_message(":a;!b;"), None);
}

#[test]
fn segment_without_bang_is_rejected() {
    assert_eq!(parse_message(":alpha;open_valve"), None);
    assert_eq!(parse_message(":alpha;"), None);
    assert_eq!(parse_message(":alpha; !x"), None);
}

#[test]
fn parsing_twice_gives_the_same_result() {
    for line in [":alpha;!open_valve", "hello", "::x;!y", ":a;b"] {
        assert_eq!(parse_message(line), parse_message(line));
    }
}
