use ycmark::extract_metadata;

#[test]
fn block_and_body_are_split_at_the_delimiters() {
    assert_eq!(
        extract_metadata("---\nkey: value\n...\nbody"),
        Some(("key: value\n", "body"))
    );
}

#[test]
fn dashes_close_a_block_too() {
    assert_eq!(
        extract_metadata("---\ntitle: Hi\n---\n# Heading"),
        Some(("title: Hi\n", "# Heading"))
    );
}

#[test]
fn block_keeps_every_byte_between_the_delimiters() {
    assert_eq!(
        extract_metadata("---\n  a: 1  \n\n\tb: 2\n---\nrest\nmore\n"),
        Some(("  a: 1  \n\n\tb: 2\n", "rest\nmore\n"))
    );
}

#[test]
fn input_without_opening_line_has_no_front_matter() {
    assert_eq!(extract_metadata("# Heading\n\ntext"), None);
    assert_eq!(extract_metadata(""), None);
    assert_eq!(extract_metadata("--\nkey: value\n---\n"), None);
    assert_eq!(extract_metadata("...\nkey: value\n...\n"), None);
}

#[test]
fn opening_line_without_closing_line_is_no_front_matter() {
    assert_eq!(extract_metadata("---\nkey: value"), None);
    assert_eq!(extract_metadata("---\nkey: value\n"), None);
    assert_eq!(extract_metadata("---"), None);
    assert_eq!(extract_metadata("---\n"), None);
}

#[test]
fn closing_line_may_end_the_input() {
    assert_eq!(extract_metadata("---\nkey: value\n---"), Some(("key: value\n", "")));
    assert_eq!(extract_metadata("---\nkey: value\n---\n"), Some(("key: value\n", "")));
    assert_eq!(extract_metadata("---\nkey: value\n..."), Some(("key: value\n", "")));
}

#[test]
fn block_may_be_empty() {
    assert_eq!(extract_metadata("---\n---\nbody"), Some(("", "body")));
}

#[test]
fn leading_blank_line_prevents_front_matter() {
    assert_eq!(extract_metadata("\n---\nkey: value\n---\nbody"), None);
    assert_eq!(extract_metadata(" ---\nkey: value\n---\nbody"), None);
}

#[test]
fn delimiter_on_a_later_line_does_not_open() {
    assert_eq!(extract_metadata("intro\n---\nkey: value\n---\nbody"), None);
}

#[test]
fn first_closing_line_ends_the_block() {
    assert_eq!(
        extract_metadata("---\na: 1\n...\nb: 2\n---\nbody"),
        Some(("a: 1\n", "b: 2\n---\nbody"))
    );
}

#[test]
fn blanks_may_follow_a_delimiter() {
    assert_eq!(extract_metadata("--- \t \nkey: value\n---  \nbody"), Some(("key: value\n", "body")));
}

#[test]
fn comment_may_follow_a_delimiter_after_a_blank() {
    assert_eq!(
        extract_metadata("--- # meta\nkey: value\n... # end\nbody"),
        Some(("key: value\n", "body"))
    );
    assert_eq!(extract_metadata("---# meta\nkey: value\n---\nbody"), None);
    assert_eq!(
        extract_metadata("---\nkey: value\n---# no\n---\nbody"),
        Some(("key: value\n---# no\n", "body"))
    );
}

#[test]
fn other_text_after_a_delimiter_spoils_it() {
    assert_eq!(extract_metadata("--- x\nkey: value\n---\nbody"), None);
    assert_eq!(extract_metadata("----\nkey: value\n---\nbody"), None);
    assert_eq!(
        extract_metadata("---\nkey: value\n--- x\n....\n---\nbody"),
        Some(("key: value\n--- x\n....\n", "body"))
    );
}

#[test]
fn blanks_may_stand_before_a_closing_marker() {
    assert_eq!(extract_metadata("---\na\n  ---\n---\nb"), Some(("a\n", "---\nb")));
    assert_eq!(
        extract_metadata("---\nkey: value\n ---\nabc---\n---\nbody"),
        Some(("key: value\n", "abc---\n---\nbody"))
    );
    assert_eq!(extract_metadata("---\nkey: value\n\t ...  # end\nbody"), Some(("key: value\n", "body")));
    assert_eq!(extract_metadata("---\nkey: value\n \t---"), Some(("key: value\n", "")));
    assert_eq!(extract_metadata("---\nkey: value\n  ...\r\nbody"), Some(("key: value\n", "body")));
}

#[test]
fn text_before_a_marker_spoils_it() {
    assert_eq!(
        extract_metadata("---\nkey: value\nabc---\n- ---\n---\nbody"),
        Some(("key: value\nabc---\n- ---\n", "body"))
    );
    assert_eq!(extract_metadata("---\nkey: value\nabc---\n"), None);
    assert_eq!(extract_metadata("---\nkey: value\n  --\n  ....\n"), None);
}

#[test]
fn blanks_before_the_opening_marker_spoil_it() {
    assert_eq!(extract_metadata("  ---\nkey: value\n---\nbody"), None);
    assert_eq!(extract_metadata("\t---\nkey: value\n---\nbody"), None);
}

#[test]
fn carriage_return_belongs_to_the_line_end() {
    assert_eq!(
        extract_metadata("---\r\nkey: value\r\n---\r\nbody\r\n"),
        Some(("key: value\r\n", "body\r\n"))
    );
}

#[test]
fn characters_outside_ascii_keep_their_place() {
    assert_eq!(
        extract_metadata("---\ntitre: été — ☃\n---\ncorps: ünïcode"),
        Some(("titre: été — ☃\n", "corps: ünïcode"))
    );
}
