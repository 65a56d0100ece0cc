use lexparse::a;

#[test]
fn prefix_check_accepts_expressions() {
    for text in [
        "a",
        "+aa",
        "++++aaaaa",
        "+-aaa",
        "+++--+-+-+-+-+++-a-aaaaaaaaaaaaaaaaaa",
        "-aaa",
    ] {
        assert_eq!(a(text), Ok(()), "on {:?}", text);
    }
}

#[test]
fn prefix_check_rejects_what_begins_with_no_expression() {
    for text in [
        "++aa",
        "+a",
        "+ab",
        "+ba",
        "--aa",
        "-a",
        "-ab",
        "-ba",
        "b",
    ] {
        assert_eq!(a(text).unwrap_err(), "Syntax Error".to_string(), "on {:?}", text);
    }
}

#[test]
fn prefix_check_rejects_the_empty_text() {
    assert_eq!(a(""), Err("Syntax Error".to_string()));
}

#[test]
fn prefix_check_does_not_look_behind_the_expression() {
    assert_eq!(a("aa"), Ok(()));
    assert_eq!(a("a?"), Ok(()));
    assert_eq!(a("+aa+"), Ok(()));
}
