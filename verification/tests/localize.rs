use hyfetcher::localize::asset_action;
use hyfetcher::localize::asset_outcome;
use hyfetcher::localize::AssetAction;
use hyfetcher::localize::AssetKind;
use hyfetcher::localize::plan_assets;
use hyfetcher::localize::plan_for_src;
use hyfetcher::localize::resolve_src;
use hyfetcher::localize::rewrite_html;

#[test]
fn absolute_src_is_kept_as_is() {
    let r = resolve_src("https://host/a/b.jpg", "https://other/page");
    assert_eq!(r, "https://host/a/b.jpg");
    let r = resolve_src("http://host/x.png", "https://other/page");
    assert_eq!(r, "http://host/x.png");
}

#[test]
fn relative_src_resolves_against_page_url() {
    let r = resolve_src("/p/c.png", "https://host/page");
    assert_eq!(r, "https://host/p/c.png");
}

#[test]
fn unresolvable_src_falls_back_to_raw_value() {
    let r = resolve_src("img/x.png", "not a url");
    assert_eq!(r, "img/x.png");
}

#[test]
fn plan_derives_filename_from_last_segment() {
    let p = plan_for_src(
        "https://host/a/b.jpg".to_string(),
        "https://host/page",
        AssetKind::Image,
    );
    assert_eq!(p.original_src, "https://host/a/b.jpg");
    assert_eq!(p.resolved_url, "https://host/a/b.jpg");
    assert_eq!(p.filename, "b.jpg");
    assert_eq!(p.local_rel_path, "assets/images/b.jpg");
}

#[test]
fn plan_falls_back_to_default_name() {
    let p = plan_for_src("/////".to_string(), "not a url", AssetKind::Image);
    assert_eq!(p.filename, "image.jpg");
    assert_eq!(p.local_rel_path, "assets/images/image.jpg");
    let p = plan_for_src("/////".to_string(), "not a url", AssetKind::Video);
    assert_eq!(p.filename, "video.mp4");
    assert_eq!(p.local_rel_path, "assets/videos/video.mp4");
}

#[test]
fn url_without_a_path_segment_falls_back_to_default_name() {
    // The resolved URL ends in a separator: its authority is not a
    // filename, the fixed fallback is.
    let p = plan_for_src(
        "https://host/".to_string(),
        "https://host/page",
        AssetKind::Image,
    );
    assert_eq!(p.resolved_url, "https://host/");
    assert_eq!(p.filename, "image.jpg");
    assert_eq!(p.local_rel_path, "assets/images/image.jpg");
    let p = plan_for_src(
        "https://host/a/b/".to_string(),
        "https://host/page",
        AssetKind::Video,
    );
    assert_eq!(p.filename, "video.mp4");
}

#[test]
fn slashless_page_with_root_src_rewrites_to_fallback() {
    let html = "<html><body><img src=\"https://host/\"></body></html>";
    let plans = plan_assets(html, "https://host/page", AssetKind::Image);
    assert_eq!(plans.len(), 1);
    let out = rewrite_html(html, &plans, &vec![true]);
    assert_eq!(
        out,
        "<html><body><img src=\"assets/images/image.jpg\"></body></html>"
    );
}

#[test]
fn image_elements_are_planned_in_document_order() {
    let html = "<html><body><img src=\"https://host/a/b.jpg\"><img src=\"/p/c.png\"></body></html>";
    let plans = plan_assets(html, "https://host/page", AssetKind::Image);
    assert_eq!(plans.len(), 2);
    assert_eq!(plans[0].original_src, "https://host/a/b.jpg");
    assert_eq!(plans[0].local_rel_path, "assets/images/b.jpg");
    assert_eq!(plans[1].original_src, "/p/c.png");
    assert_eq!(plans[1].resolved_url, "https://host/p/c.png");
    assert_eq!(plans[1].local_rel_path, "assets/images/c.png");
}

#[test]
fn video_and_source_elements_are_planned() {
    let html = "<html><body><video src=\"https://host/v/clip.mp4\"></video>\
                <video><source src=\"https://host/v/other.mp4\"></video></body></html>";
    let plans = plan_assets(html, "https://host/page", AssetKind::Video);
    assert_eq!(plans.len(), 2);
    assert_eq!(plans[0].original_src, "https://host/v/clip.mp4");
    assert_eq!(plans[0].local_rel_path, "assets/videos/clip.mp4");
    assert_eq!(plans[1].original_src, "https://host/v/other.mp4");
    assert_eq!(plans[1].local_rel_path, "assets/videos/other.mp4");
}

#[test]
fn successful_download_rewrites_the_reference() {
    let html = "<html><body><img src=\"https://host/a/b.jpg\"></body></html>";
    let plans = plan_assets(html, "https://host/page", AssetKind::Image);
    assert_eq!(plans.len(), 1);
    let out = rewrite_html(html, &plans, &vec![true]);
    assert_eq!(out, "<html><body><img src=\"assets/images/b.jpg\"></body></html>");
    assert!(out.contains("src=\"assets/images/b.jpg\""));
    assert!(!out.contains("src=\"https://host/a/b.jpg\""));
}

#[test]
fn failed_download_leaves_the_reference_unchanged() {
    let html = "<html><body><img src=\"https://host/a/b.jpg\"></body></html>";
    let plans = plan_assets(html, "https://host/page", AssetKind::Image);
    let out = rewrite_html(html, &plans, &vec![false]);
    assert_eq!(out, html);
    assert!(out.contains("src=\"https://host/a/b.jpg\""));
}

#[test]
fn mixed_outcomes_rewrite_only_the_successes() {
    let html = "<p><img src=\"https://host/one.png\"><img src=\"https://host/two.png\"></p>";
    let plans = plan_assets(html, "https://host/page", AssetKind::Image);
    assert_eq!(plans.len(), 2);
    let out = rewrite_html(html, &plans, &vec![true, false]);
    assert!(out.contains("src=\"assets/images/one.png\""));
    assert!(out.contains("src=\"https://host/two.png\""));
}

#[test]
fn rewrite_replaces_every_occurrence_of_the_literal() {
    let html = "<img src=\"https://host/a.png\"><img src=\"https://host/a.png\">";
    let plans = plan_assets(html, "https://host/page", AssetKind::Image);
    assert_eq!(plans.len(), 2);
    let out = rewrite_html(html, &plans, &vec![true, true]);
    assert_eq!(out, "<img src=\"assets/images/a.png\"><img src=\"assets/images/a.png\">");
}

#[test]
fn existing_asset_is_never_requested_again() {
    assert_eq!(asset_action(true), AssetAction::UseExisting);
    assert_eq!(asset_action(false), AssetAction::Download);
    assert!(asset_outcome(true, false));
    assert!(asset_outcome(false, true));
    assert!(!asset_outcome(false, false));
}
