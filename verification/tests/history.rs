use project_context::history::append_history;

#[test]
fn history_is_append_only() {
    let first = append_history(b"# History", "abc", 12).expect("appended");
    assert_eq!(
        String::from_utf8(first.clone()).expect("text"),
        "# History\n## Checkpoint abc\n\n- unix_time: 12\n- validated_revision: abc\n"
    );
    assert!(append_history(&first, "abc", 99).is_none());
    let second = append_history(&first, "abcd", 0).expect("another checkpoint");
    assert!(second.starts_with(&first));
    assert!(append_history(&second, "abc", 1).is_none());
    assert!(append_history(&second, "abcd", 1).is_none());
    assert!(append_history(b"  ## Checkpoint x\t\r\n", "x", 1).is_none());
    // A heading that ends in white space is never found again.
    let odd = append_history(b"", "x ", 1).expect("appended");
    assert!(append_history(&odd, "x ", 1).is_some());
}

#[test]
fn history_keeps_bytes_that_are_no_text() {
    let old = [b"\xff\xfe\n## Checkpoint old\n".as_slice(), &[0xe2, 0x82]].concat();
    let new = append_history(&old, "r\u{e9}v", 7).expect("appended");
    assert!(new.starts_with(&old));
    assert_eq!(
        &new[old.len()..],
        "\n## Checkpoint r\u{e9}v\n\n- unix_time: 7\n- validated_revision: r\u{e9}v\n".as_bytes()
    );
    assert!(append_history(&new, "old", 8).is_none());
    assert!(append_history(&new, "r\u{e9}v", 8).is_none());
    assert!(append_history(b"## Checkpoint a\xff", "a\u{fffd}", 1).is_some());
}
