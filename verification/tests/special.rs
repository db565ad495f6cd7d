use hyfetcher::special::SpecialAction;
use hyfetcher::special::build_video_fragment;
use hyfetcher::special::inject_video_fragment;
use hyfetcher::special::is_special_host;
use hyfetcher::special::special_after_invoke;
use hyfetcher::special::special_video_action;
use hyfetcher::special::special_video_rel_path;
use hyfetcher::special::video_format_selector;

#[test]
fn only_the_delegated_host_is_special() {
    assert!(is_special_host("https://www.bilibili.com/video/xyz"));
    assert!(is_special_host("https://bilibili.com/x"));
    assert!(!is_special_host("https://example.net/video"));
    assert!(!is_special_host(""));
}

#[test]
fn existing_file_never_invokes_the_tool() {
    let action = special_video_action(
        "https://www.bilibili.com/video/xyz",
        true,
        Some("/usr/bin/tool".to_string()),
    );
    assert_eq!(action, SpecialAction::UseExisting);
    let action = special_video_action("https://www.bilibili.com/video/xyz", true, None);
    assert_eq!(action, SpecialAction::UseExisting);
}

#[test]
fn missing_tool_is_a_hard_error_for_the_special_case() {
    let action = special_video_action("https://www.bilibili.com/video/xyz", false, None);
    assert_eq!(action, SpecialAction::ToolMissing);
}

#[test]
fn missing_file_with_a_tool_invokes_it() {
    let action = special_video_action(
        "https://www.bilibili.com/video/xyz",
        false,
        Some("/usr/bin/tool".to_string()),
    );
    assert_eq!(action, SpecialAction::Invoke("/usr/bin/tool".to_string()));
}

#[test]
fn ordinary_hosts_are_left_alone() {
    let action = special_video_action("https://example.net/v", false, Some("/t".to_string()));
    assert_eq!(action, SpecialAction::NotSpecial);
}

#[test]
fn fragment_references_the_local_file_throughout() {
    let frag = build_video_fragment("assets/videos/bilibili_video.mp4");
    assert_eq!(frag.matches("assets/videos/bilibili_video.mp4").count(), 3);
    assert!(frag.contains("<source src=\"assets/videos/bilibili_video.mp4\" type=\"video/mp4\" />"));
    assert!(frag.contains("<a href=\"assets/videos/bilibili_video.mp4\""));
    assert!(frag.starts_with("<div"));
    assert!(frag.ends_with("</script></div>"));
}

#[test]
fn injection_adds_the_fragment_before_the_closing_body_tag() {
    let html = "<html><body><p>text</p></body></html>";
    let out = inject_video_fragment(html, "assets/videos/bilibili_video.mp4");
    let frag = build_video_fragment("assets/videos/bilibili_video.mp4");
    let expected = format!("<html><body><p>text</p>{}</body></html>", frag);
    assert_eq!(out, expected);
    // Nothing that was already in the page is replaced.
    assert!(out.contains("<p>text</p>"));
}

#[test]
fn injection_happens_once_before_the_first_closing_tag() {
    let html = "<body>a</body><body>b</body>";
    let out = inject_video_fragment(html, "assets/videos/v.mp4");
    let frag = build_video_fragment("assets/videos/v.mp4");
    assert_eq!(out, format!("<body>a{}</body><body>b</body>", frag));
    assert_eq!(out.matches("</body>").count(), 2);
}

#[test]
fn injection_without_a_body_tag_changes_nothing() {
    let html = "<p>fragmentless</p>";
    let out = inject_video_fragment(html, "assets/videos/v.mp4");
    assert_eq!(out, html);
}

#[test]
fn tool_arguments_are_fixed() {
    assert_eq!(special_video_rel_path(), "assets/videos/bilibili_video.mp4");
    assert_eq!(
        video_format_selector(),
        "bv*[height=720][ext=mp4]+ba[ext=m4a]/bv*[height=720]+ba/best[height=720]/best"
    );
}

#[test]
fn fragment_follows_the_tool_run_outcome() {
    let html = "<html><body></body></html>";
    let with_file = special_after_invoke(true, html, "assets/videos/v.mp4");
    assert!(with_file.contains("<source src=\"assets/videos/v.mp4\""));
    let without_file = special_after_invoke(false, html, "assets/videos/v.mp4");
    assert_eq!(without_file, html);
}
