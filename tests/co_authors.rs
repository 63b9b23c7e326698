use git_stats::co_authors::{
    co_author_mail, co_author_name, co_authored_by, get_co_author, get_co_author_with_mail,
    parse_co_author, trim_ascii_end, CoAuthor, TrailerError,
};

fn check_co_authored_by(input: &str, expected: &str) {
    assert_eq!(co_authored_by(input), Some(expected));
}

#[test]
fn co_authored_by_lower_case() {
    check_co_authored_by("co-authored-by: Alice <alice@wonderland.org>", "Alice <alice@wonderland.org>");
}

#[test]
fn co_authored_by_camel_case() {
    check_co_authored_by("Co-Authored-By: Alice <alice@wonderland.org>", "Alice <alice@wonderland.org>");
}

#[test]
fn co_authored_by_upper_case() {
    check_co_authored_by("CO-AUTHORED-BY: Alice <alice@wonderland.org>", "Alice <alice@wonderland.org>");
}

#[test]
fn co_authored_by_mixed_case() {
    check_co_authored_by("Co-authored-by: Alice <alice@wonderland.org>", "Alice <alice@wonderland.org>");
}

#[test]
fn co_authored_by_stacked_keys() {
    check_co_authored_by(
        "Co-authored-by: Co-authored-by: Alice <alice@wonderland.org>",
        "Alice <alice@wonderland.org>",
    );
}

#[test]
fn co_authored_by_leading_blanks() {
    check_co_authored_by(" \tco-authored-by:Alice", "Alice");
    assert_eq!(co_authored_by("Some other content"), None);
}

#[test]
fn co_author_name_alice() {
    assert_eq!(co_author_name("co-authored-by: Alice <alice@wonderland.org>"), Some("Alice"));
}

#[test]
fn co_author_name_alice_bob() {
    assert_eq!(co_author_name("co-authored-by: Alice Bob <alice@wonderland.org>"), Some("Alice Bob"));
}

#[test]
fn co_author_mail_alice() {
    assert_eq!(co_author_mail("<alice@wonderland.org>"), Some("alice@wonderland.org"));
}

#[test]
fn co_author_mail_alice_bob() {
    assert_eq!(co_author_mail("<alice@wonderland.org> bob"), Some("alice@wonderland.org"));
}

#[test]
fn co_author_mail_alice_charlie() {
    assert_eq!(
        co_author_mail("<alice@wonderland.org> <charlie@wonderland.org>"),
        Some("alice@wonderland.org")
    );
}

#[test]
fn missing_co_author_mail_empty() {
    assert_eq!(co_author_mail(""), None);
}

#[test]
fn missing_co_author_mail_leading_space() {
    assert_eq!(co_author_mail(" <alice@wonderland.org>"), None);
}

#[test]
fn missing_co_author_mail_missing_close() {
    assert_eq!(co_author_mail("<alice@wonderland.org"), None);
}

#[test]
fn missing_co_author_mail_encoded_close() {
    assert_eq!(co_author_mail("<alice@wonderland.org&gt;"), None);
}

#[test]
fn missing_co_author_mail_missing_open() {
    assert_eq!(co_author_mail("alice@wonderland.org>"), None);
}

#[test]
fn missing_co_author_mail_contains_whitespace() {
    assert_eq!(co_author_mail("<alice and bob@wonderland.org>"), None);
}

#[test]
fn missing_co_author_mail_empty_brackets() {
    assert_eq!(co_author_mail("<>"), None);
}

#[test]
fn get_co_author_name_alice() {
    assert_eq!(
        get_co_author("co-authored-by: Alice <alice@wonderland.org>").map(|c| c.name),
        Some("Alice")
    );
}

#[test]
fn get_co_author_name_alice_keys() {
    assert_eq!(
        get_co_author("co-authored-by: Alice Keys <alice@wonderland.org>").map(|c| c.name),
        Some("Alice Keys")
    );
}

#[test]
fn get_co_author_name_none() {
    assert_eq!(get_co_author("Some other content").map(|c| c.name), None);
}

#[test]
fn get_co_author_mail_alice() {
    assert_eq!(
        get_co_author("co-authored-by: Alice <alice@wonderland.org>").and_then(|c| c.mail),
        Some("alice@wonderland.org")
    );
}

#[test]
fn get_co_author_mail_alice_keys() {
    assert_eq!(
        get_co_author("co-authored-by: Alice Keys <alice@wonderland.org>").and_then(|c| c.mail),
        Some("alice@wonderland.org")
    );
}

#[test]
fn get_co_author_mail_none() {
    assert_eq!(get_co_author("Some other content").and_then(|c| c.mail), None);
}

#[test]
fn full_trailer_yields_name_and_mail() {
    assert_eq!(
        get_co_author("co-authored-by: Alice <alice@wonderland.org>"),
        Some(CoAuthor { name: "Alice", mail: Some("alice@wonderland.org") })
    );
}

#[test]
fn stacked_keys_parse_like_single_key() {
    assert_eq!(
        get_co_author("Co-authored-by: Co-authored-by: Alice <alice@wonderland.org>"),
        get_co_author("co-authored-by: Alice <alice@wonderland.org>")
    );
}

#[test]
fn missing_name_is_soft_failure() {
    assert_eq!(parse_co_author("Co-Authored-By: <alice@wonderland.org>"), Err(TrailerError::MissingName));
    assert_eq!(get_co_author("Co-Authored-By: <alice@wonderland.org>"), None);
    assert_eq!(parse_co_author("co-authored-by:   \t"), Err(TrailerError::MissingName));
}

#[test]
fn missing_trailer_key() {
    assert_eq!(parse_co_author("Some other content"), Err(TrailerError::MissingTrailerKey));
    assert_eq!(parse_co_author(""), Err(TrailerError::MissingTrailerKey));
    assert_eq!(parse_co_author("co-authored-by Alice"), Err(TrailerError::MissingTrailerKey));
}

#[test]
fn name_without_mail_is_success() {
    assert_eq!(
        parse_co_author("Co-authored-by: Alice Keys"),
        Ok(CoAuthor { name: "Alice Keys", mail: None })
    );
    assert_eq!(get_co_author_with_mail("Co-authored-by: Alice Keys"), Err(TrailerError::MissingMail));
}

#[test]
fn malformed_mail_keeps_name() {
    assert_eq!(
        parse_co_author("co-authored-by: Alice <alice and bob@wonderland.org>"),
        Ok(CoAuthor { name: "Alice", mail: None })
    );
    assert_eq!(
        parse_co_author("co-authored-by: Alice <alice@wonderland.org&gt;"),
        Ok(CoAuthor { name: "Alice", mail: None })
    );
}

#[test]
fn strict_parse_with_mail() {
    assert_eq!(
        get_co_author_with_mail(" Co-authored-by: Bob <bob@example.com>\r"),
        Ok(CoAuthor { name: "Bob", mail: Some("bob@example.com") })
    );
    assert_eq!(get_co_author_with_mail("nothing"), Err(TrailerError::MissingTrailerKey));
}

#[test]
fn non_ascii_names_are_kept() {
    assert_eq!(
        get_co_author("Co-authored-by: Jürgen Müller <jm@example.de>"),
        Some(CoAuthor { name: "Jürgen Müller", mail: Some("jm@example.de") })
    );
}

#[test]
fn trims_trailing_ascii_whitespace() {
    assert_eq!(trim_ascii_end("Alice \t\r\n"), "Alice");
    assert_eq!(trim_ascii_end("  "), "");
    assert_eq!(trim_ascii_end(" a b"), " a b");
}

#[test]
fn stacked_keys_in_mixed_case() {
    let single = parse_co_author("co-authored-by: Alice Keys <alice@wonderland.org>");
    assert_eq!(parse_co_author("CO-AUTHORED-BY:co-authored-by: Alice Keys <alice@wonderland.org>"), single);
    assert_eq!(
        parse_co_author("\tCo-Authored-By: \tco-AUTHORED-by:  co-authored-by: Alice Keys <alice@wonderland.org>"),
        single
    );
    assert_eq!(parse_co_author("Co-authored-by: Co-authored-by: <a@b.org>"), Err(TrailerError::MissingName));
}
