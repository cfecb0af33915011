use mangadex_dl::utils::{escape_path, get_id, get_retry_after};

#[test]
fn path_escaping_removes_reserved_characters() {
    assert_eq!(escape_path("a/b:c"), "abc");
    assert_eq!(escape_path("a\\b|c&d<e>f"), "abcdef");
    assert_eq!(escape_path("Volume 1"), "Volume 1");
    assert_eq!(escape_path(""), "");
}

#[test]
fn escaped_label_never_names_a_nested_directory() {
    let label = "vol/1:draft";
    let segment = escape_path(label);
    assert!(!segment.contains('/'));
    assert!(!segment.contains(':'));
    assert_eq!(segment, "vol1draft");
}

#[test]
fn id_extraction() {
    assert_eq!(
        get_id("https://mangadex.org/title/348966d0-c807-45cf-9260-8adf006a9da6/some-title")
            .as_deref(),
        Some("348966d0-c807-45cf-9260-8adf006a9da6")
    );
    assert_eq!(
        get_id("http://mangadex.org/title/abc123").as_deref(),
        Some("abc123")
    );
    assert_eq!(
        get_id("see https://mangadex.org/title/abc123 for details").as_deref(),
        Some("abc123")
    );
    assert_eq!(get_id("https://example.org/title/abc123"), None);
    assert_eq!(get_id("https://mangadex.org/title/zzz"), None);
    assert_eq!(get_id(""), None);
}

#[test]
fn retry_after_parsing() {
    assert_eq!(get_retry_after(Some(&b"1234".to_vec())), Some(1234));
    assert_eq!(get_retry_after(Some(&b"-5".to_vec())), Some(-5));
    assert_eq!(get_retry_after(Some(&b"+99".to_vec())), Some(99));
    assert_eq!(get_retry_after(None), None);
    assert_eq!(get_retry_after(Some(&b"12a".to_vec())), None);
    assert_eq!(get_retry_after(Some(&vec![0xFFu8, b'1'])), None);
    assert_eq!(get_retry_after(Some(&b"".to_vec())), None);
    assert_eq!(
        get_retry_after(Some(&b"99999999999999999999999999".to_vec())),
        None
    );
}
