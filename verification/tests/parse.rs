use dsh_desktop::parse::parse_url_line;

#[test]
fn plain_url_line() {
    assert_eq!(
        parse_url_line("dsh web: http://127.0.0.1:3080"),
        Some("http://127.0.0.1:3080".to_string())
    );
}

#[test]
fn url_line_with_lan_suffix() {
    assert_eq!(
        parse_url_line("dsh web: http://127.0.0.1:3080 (LAN: http://192.168.1.2:3080)"),
        Some("http://127.0.0.1:3080".to_string())
    );
}

#[test]
fn url_line_with_crlf() {
    assert_eq!(
        parse_url_line("dsh web: http://127.0.0.1:3080\r\n"),
        Some("http://127.0.0.1:3080".to_string())
    );
}

#[test]
fn surrounded_by_whitespace() {
    assert_eq!(
        parse_url_line("  dsh web: http://127.0.0.1:3080  "),
        Some("http://127.0.0.1:3080".to_string())
    );
}

#[test]
fn prefix_without_space_is_not_a_match() {
    assert_eq!(parse_url_line("dsh web:http://127.0.0.1:3080"), None);
}

#[test]
fn non_http_url_is_rejected() {
    assert_eq!(parse_url_line("dsh web: https://127.0.0.1:3080"), None);
}

#[test]
fn unrelated_lines_are_ignored() {
    assert_eq!(parse_url_line("info: booting"), None);
    assert_eq!(parse_url_line(""), None);
}

#[test]
fn extra_white_space_after_the_prefix_is_skipped() {
    assert_eq!(
        parse_url_line("dsh web: \t http://localhost:1/x\n"),
        Some("http://localhost:1/x".to_string())
    );
}

#[test]
fn unicode_white_space_counts_as_white_space() {
    assert_eq!(
        parse_url_line("\u{3000}dsh web: http://127.0.0.1:3080\u{a0}(LAN)\u{2028}"),
        Some("http://127.0.0.1:3080".to_string())
    );
}

#[test]
fn prefix_alone_is_not_a_url_line() {
    assert_eq!(parse_url_line("dsh web: "), None);
    assert_eq!(parse_url_line("dsh web:    \r\n"), None);
}

#[test]
fn scheme_alone_qualifies() {
    assert_eq!(parse_url_line("dsh web: http://"), Some("http://".to_string()));
    assert_eq!(parse_url_line("dsh web: http:/"), None);
}

#[test]
fn prefix_must_start_the_trimmed_line() {
    assert_eq!(parse_url_line("x dsh web: http://127.0.0.1:3080"), None);
    assert_eq!(parse_url_line("DSH WEB: http://127.0.0.1:3080"), None);
}

#[test]
fn non_ascii_url_is_kept_whole() {
    assert_eq!(
        parse_url_line("dsh web: http://例え.jp/パス rest"),
        Some("http://例え.jp/パス".to_string())
    );
}
