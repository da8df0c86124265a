use codex_local_sync::agents::{
    ensure_image_agents_rules, remove_image_agents_rules, transform_image_agents_rules,
};
use codex_local_sync::platform::Os;

const IMAGE_AGENTS_BEGIN: &str = "<!-- ChatGPT账号工具:generate-image:start -->";
const IMAGE_AGENTS_END: &str = "<!-- ChatGPT账号工具:generate-image:end -->";

#[test]
fn cleanup_removes_all_managed_rules_and_deletes_only_empty_results() {
    let input = format!("\u{feff}# User rules\r\n{IMAGE_AGENTS_BEGIN}\r\nold\r\n{IMAGE_AGENTS_END}\r\nKeep this.\r\n{IMAGE_AGENTS_BEGIN}\r\nold\r\n{IMAGE_AGENTS_END}\r\n");
    let after = remove_image_agents_rules(input.as_bytes()).unwrap().unwrap();
    assert_eq!(
        std::str::from_utf8(&after).unwrap(),
        "\u{feff}# User rules\r\nKeep this.\r\n"
    );
    assert_eq!(remove_image_agents_rules(&after).unwrap().unwrap(), after);
    for input in [
        format!("\u{feff} \r\n{IMAGE_AGENTS_BEGIN}\r\nold\r\n{IMAGE_AGENTS_END}\r\n\t"),
        String::new(),
        "\u{feff}\r\n ".into(),
    ] {
        assert!(remove_image_agents_rules(input.as_bytes()).unwrap().is_none());
    }
    assert!(remove_image_agents_rules(IMAGE_AGENTS_BEGIN.as_bytes()).is_err());
    assert!(remove_image_agents_rules(&[0xff]).is_err());
}

#[test]
fn rules_preserve_bom_crlf_and_deduplicate() {
    let input = format!("\u{feff}# User rules\r\n\r\n{IMAGE_AGENTS_BEGIN}\r\nold\r\n{IMAGE_AGENTS_END}\r\n\r\nKeep this.\r\n{IMAGE_AGENTS_BEGIN}\r\nold again\r\n{IMAGE_AGENTS_END}\r\n");
    let output = ensure_image_agents_rules(input.as_bytes(), Os::Other).unwrap();
    assert!(output.starts_with(&[0xef, 0xbb, 0xbf]));
    let text = std::str::from_utf8(&output[3..]).unwrap();
    assert!(text.starts_with("# User rules\r\n\r\n"));
    assert!(text.contains("Keep this.\r\n"));
    assert!(!text.contains("old"));
    assert!(!text.replace("\r\n", "").contains('\n'));
    assert_eq!(text.matches(IMAGE_AGENTS_BEGIN).count(), 1);
    assert_eq!(ensure_image_agents_rules(&output, Os::Other).unwrap(), output);
}

#[test]
fn appends_the_block_after_an_empty_line_with_the_file_line_break() {
    let output = ensure_image_agents_rules(b"# Mine\n", Os::Windows).unwrap();
    let text = String::from_utf8(output.clone()).unwrap();
    assert!(text.starts_with(&format!("# Mine\n\n{IMAGE_AGENTS_BEGIN}\n## ")));
    assert!(text.ends_with(&format!("{IMAGE_AGENTS_END}\n")));
    assert!(!text.contains('\r'));
    assert_eq!(ensure_image_agents_rules(&output, Os::Windows).unwrap(), output);
}

#[test]
fn a_file_without_line_breaks_takes_the_platform_line_break() {
    let windows = String::from_utf8(ensure_image_agents_rules(b"x", Os::Windows).unwrap()).unwrap();
    assert!(windows.starts_with(&format!("x\r\n\r\n{IMAGE_AGENTS_BEGIN}\r\n")));
    let other = String::from_utf8(ensure_image_agents_rules(b"", Os::Other).unwrap()).unwrap();
    assert!(other.starts_with(&format!("{IMAGE_AGENTS_BEGIN}\n")));
    assert!(other.ends_with(&format!("{IMAGE_AGENTS_END}\n")));
}

#[test]
fn invalid_markers_and_encodings_are_reported() {
    for input in [
        format!("{IMAGE_AGENTS_BEGIN}\nunfinished").into_bytes(),
        format!("{IMAGE_AGENTS_END}\n").into_bytes(),
        format!("prefix {IMAGE_AGENTS_BEGIN}\n{IMAGE_AGENTS_END}\n").into_bytes(),
        format!("{IMAGE_AGENTS_BEGIN}\n{IMAGE_AGENTS_BEGIN}\n{IMAGE_AGENTS_END}\n").into_bytes(),
    ] {
        assert_eq!(
            transform_image_agents_rules(&input, true, Os::Other).unwrap_err(),
            "AGENTS.md 中的生图配置标记不完整，请先修复该文件"
        );
    }
    assert_eq!(
        transform_image_agents_rules(&[0xff, 0xfe], true, Os::Other).unwrap_err(),
        "AGENTS.md 不是有效的 UTF-8 文本，无法安全更新生图规则"
    );
}

#[test]
fn markers_indented_with_blanks_still_delimit_a_block() {
    let input = format!("a\n  {IMAGE_AGENTS_BEGIN}\t\nold\n\t{IMAGE_AGENTS_END} \nb\n");
    let after = remove_image_agents_rules(input.as_bytes()).unwrap().unwrap();
    assert_eq!(after, b"a\nb\n");
}

#[test]
fn ensuring_twice_is_ensuring_once_but_for_a_trailing_carriage_return() {
    for (input, os) in [
        ("# Mine\r\nmore\r\n".as_bytes(), Os::Other),
        ("\u{feff}\u{feff}text".as_bytes(), Os::Other),
        ("text".as_bytes(), Os::Windows),
        ("a\rb\n".as_bytes(), Os::Other),
    ] {
        let once = ensure_image_agents_rules(input, os).unwrap();
        assert_eq!(ensure_image_agents_rules(&once, os).unwrap(), once);
    }
    let once = ensure_image_agents_rules(b"a\r", Os::Other).unwrap();
    assert_ne!(ensure_image_agents_rules(&once, Os::Other).unwrap(), once);
}

#[test]
fn removing_twice_is_removing_once() {
    let input = "\u{feff}keep\n<!-- ChatGPT账号工具:generate-image:start -->\nold\n<!-- ChatGPT账号工具:generate-image:end -->\n";
    let once = remove_image_agents_rules(input.as_bytes()).unwrap().unwrap();
    assert_eq!(once, "\u{feff}keep\n".as_bytes());
    assert_eq!(remove_image_agents_rules(&once).unwrap().unwrap(), once);
    let no_mark = "\u{feff}x".as_bytes().to_vec();
    let removed = remove_image_agents_rules(&no_mark).unwrap().unwrap();
    assert_eq!(remove_image_agents_rules(&removed).unwrap().unwrap(), removed);
}
