use skim::parse_status_code;

#[test]
fn parses_well_formed_status_line() {
    assert_eq!(parse_status_code(b"HTTP/1.1 200 OK\r\n"), Some(200));
    assert_eq!(parse_status_code(b"HTTP/1.0 404 Not Found\r\n"), Some(404));
    assert_eq!(parse_status_code(b"HTTP/2 301\r\n"), Some(301));
}

#[test]
fn rejects_non_http() {
    assert_eq!(parse_status_code(b"SSH-2.0-OpenSSH\r\n"), None);
    assert_eq!(parse_status_code(b""), None);
    assert_eq!(parse_status_code(b"HTTP/1.1\r\n"), None);
}

#[test]
fn status_line_without_crlf_is_read_whole() {
    assert_eq!(parse_status_code(b"HTTP/1.1 503"), Some(503));
}

#[test]
fn only_the_first_line_counts() {
    assert_eq!(parse_status_code(b"HTTP/1.1\r\n200 OK\r\n"), None);
    assert_eq!(parse_status_code(b"HTTP/1.1 204\r\nX: 1\r\n"), Some(204));
}

#[test]
fn code_accepts_plus_sign_and_leading_zeros() {
    assert_eq!(parse_status_code(b"HTTP/1.1 +200 OK\r\n"), Some(200));
    assert_eq!(parse_status_code(b"HTTP/1.1 0200 OK\r\n"), Some(200));
    assert_eq!(parse_status_code(b"HTTP/1.1 + OK\r\n"), None);
    assert_eq!(parse_status_code(b"HTTP/1.1 -1 OK\r\n"), None);
}

#[test]
fn code_must_fit_in_u16() {
    assert_eq!(parse_status_code(b"HTTP/1.1 65535 x\r\n"), Some(65535));
    assert_eq!(parse_status_code(b"HTTP/1.1 65536 x\r\n"), None);
    assert_eq!(parse_status_code(b"HTTP/1.1 99999999999 x\r\n"), None);
    assert_eq!(parse_status_code(b"HTTP/1.1 20x OK\r\n"), None);
}

#[test]
fn any_white_space_separates_words() {
    assert_eq!(parse_status_code(b"  HTTP/1.1\t\t418 teapot\r\n"), Some(418));
    // U+00A0 (no-break space) is white space too.
    assert_eq!(parse_status_code("HTTP/1.1\u{a0}302\r\n".as_bytes()), Some(302));
    assert_eq!(parse_status_code("HTTP/1.1\u{3000}302\r\n".as_bytes()), Some(302));
}

#[test]
fn first_word_must_begin_with_http_slash() {
    assert_eq!(parse_status_code(b"http/1.1 200 OK\r\n"), None);
    assert_eq!(parse_status_code(b"HTTPS 200 OK\r\n"), None);
    assert_eq!(parse_status_code(b"HTTP/ 200\r\n"), Some(200));
}

#[test]
fn invalid_utf8_anywhere_gives_none() {
    assert_eq!(parse_status_code(b"HTTP/1.1 200 OK\r\n\xff"), None);
    // A multi-byte character cut short at the end of the window.
    assert_eq!(parse_status_code(b"HTTP/1.1 200 OK\r\n\xe2\x82"), None);
    assert_eq!(parse_status_code("HTTP/1.1 200 OK\r\n\u{20ac}".as_bytes()), Some(200));
}
