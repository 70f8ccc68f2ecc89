use lumen::lumina_env::{lines_of, lumina_tls_needs_change, rc_file_name, rewrite_rc_content};

#[test]
fn unset_or_true_needs_a_change() {
    assert!(lumina_tls_needs_change(None));
    assert!(lumina_tls_needs_change(Some("true")));
    assert!(lumina_tls_needs_change(Some("TRUE")));
    assert!(lumina_tls_needs_change(Some("  True\n")));
    assert!(lumina_tls_needs_change(Some("\u{a0}tRuE\u{3000}")));
}

#[test]
fn other_values_are_left_alone() {
    assert!(!lumina_tls_needs_change(Some("false")));
    assert!(!lumina_tls_needs_change(Some("")));
    assert!(!lumina_tls_needs_change(Some("1")));
    assert!(!lumina_tls_needs_change(Some("yes")));
    assert!(!lumina_tls_needs_change(Some("tru e")));
    assert!(!lumina_tls_needs_change(Some("truee")));
    assert!(!lumina_tls_needs_change(Some("trüe")));
}

#[test]
fn after_the_change_no_further_change_is_needed() {
    assert!(lumina_tls_needs_change(Some("true")));
    assert!(!lumina_tls_needs_change(Some("false")));
}

#[test]
fn zsh_users_get_zshrc() {
    assert_eq!(rc_file_name("/bin/zsh"), ".zshrc");
    assert_eq!(rc_file_name("/usr/local/bin/zsh5"), ".zshrc");
    assert_eq!(rc_file_name("/bin/bash"), ".bashrc");
    assert_eq!(rc_file_name(""), ".bashrc");
    assert_eq!(rc_file_name("/bin/zs"), ".bashrc");
}

fn lines(s: &str) -> Vec<String> {
    lines_of(&s.chars().collect()).into_iter().map(|l| l.into_iter().collect()).collect()
}

#[test]
fn lines_follow_str_lines() {
    for s in ["", "\n", "a", "a\n", "a\nb", "a\r\nb\r\n", "a\n\n", "a\r", "x\r\r\ny", "\r\n\r\n"] {
        let expected: Vec<String> = s.lines().map(String::from).collect();
        assert_eq!(lines(s), expected, "{:?}", s);
    }
}

#[test]
fn empty_file_gets_the_export_line() {
    assert_eq!(rewrite_rc_content(""), "export LUMINA_TLS=false\n");
}

#[test]
fn export_line_is_appended() {
    assert_eq!(rewrite_rc_content("alias ll='ls -l'\n"), "alias ll='ls -l'\nexport LUMINA_TLS=false\n");
}

#[test]
fn unterminated_file_gets_an_empty_line_first() {
    assert_eq!(rewrite_rc_content("alias ll='ls -l'"), "alias ll='ls -l'\n\nexport LUMINA_TLS=false\n");
}

#[test]
fn first_export_line_is_replaced() {
    assert_eq!(
        rewrite_rc_content("a\nexport LUMINA_TLS=true\nb\nexport LUMINA_TLS=true\n"),
        "a\nexport LUMINA_TLS=false\nb\nexport LUMINA_TLS=true\n"
    );
    assert_eq!(rewrite_rc_content("  export LUMINA_TLS=1\nb"), "export LUMINA_TLS=false\nb\n");
}

#[test]
fn commented_export_is_skipped() {
    assert_eq!(
        rewrite_rc_content("#export LUMINA_TLS=true\n"),
        "#export LUMINA_TLS=true\nexport LUMINA_TLS=false\n"
    );
    assert_eq!(
        rewrite_rc_content("  #export LUMINA_TLS=true\nexport LUMINA_TLS=yes\n"),
        "  #export LUMINA_TLS=true\nexport LUMINA_TLS=false\n"
    );
}

#[test]
fn crlf_lines_come_back_with_lf() {
    assert_eq!(rewrite_rc_content("a\r\nb\r\n"), "a\nb\nexport LUMINA_TLS=false\n");
}

#[test]
fn rewriting_twice_changes_nothing() {
    for s in ["", "a\n", "a", "a\nexport LUMINA_TLS=true\n\n", "#export LUMINA_TLS=x\nb\r\n"] {
        let once = rewrite_rc_content(s);
        assert_eq!(rewrite_rc_content(&once), once, "{:?}", s);
    }
}

#[test]
fn rewriting_twice_drops_a_second_trailing_empty_line() {
    let once = rewrite_rc_content("export LUMINA_TLS=true\n\n\n");
    assert_eq!(once, "export LUMINA_TLS=false\n\n");
    assert_eq!(rewrite_rc_content(&once), "export LUMINA_TLS=false\n");
}

#[test]
fn rewritten_file_has_the_export_line() {
    for s in ["", "x", "x\r", "export LUMINA_TLS=true\r\r\n", "a\n\n\n"] {
        let out = rewrite_rc_content(s);
        assert!(out.lines().any(|l| l == "export LUMINA_TLS=false"), "{:?}", s);
        assert!(out.ends_with('\n'));
    }
}
