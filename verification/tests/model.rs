use hyfetcher::model::Post;
use hyfetcher::model::post_from_record;
use hyfetcher::model::sanitize_filename;

#[test]
fn sanitize_replaces_every_illegal_character() {
    assert_eq!(sanitize_filename("<>:\"/\\|?*"), "_________");
    assert_eq!(sanitize_filename("a<b>c:d\"e/f\\g|h?i*j"), "a_b_c_d_e_f_g_h_i_j");
}

#[test]
fn sanitize_keeps_ordinary_text() {
    assert_eq!(sanitize_filename("plain title 01"), "plain title 01");
    assert_eq!(sanitize_filename(""), "");
}

#[test]
fn sanitize_is_idempotent_on_samples() {
    let inputs = ["a<b>c", "??**", "no change", "x/y\\z", "\u{4f60}\u{597d}:title"];
    for s in inputs {
        let once = sanitize_filename(s);
        let twice = sanitize_filename(&once);
        assert_eq!(once, twice);
    }
}

#[test]
fn sanitize_handles_non_ascii() {
    assert_eq!(sanitize_filename("\u{4f60}\u{597d}/\u{4e16}\u{754c}"), "\u{4f60}\u{597d}_\u{4e16}\u{754c}");
}

#[test]
fn post_new_derives_safe_title() {
    let p = Post::new(
        "https://example.net/a".to_string(),
        "a<b".to_string(),
        "cat".to_string(),
        "sub".to_string(),
        "batch".to_string(),
    );
    assert_eq!(p.safe_title, "a_b");
    assert_eq!(p.title, "a<b");
    assert_eq!(p.category, "cat");
}

#[test]
fn rel_save_path_with_all_segments() {
    let p = Post::new(
        "https://example.net/a".to_string(),
        "title".to_string(),
        "cat".to_string(),
        "sub/inner".to_string(),
        "batch".to_string(),
    );
    assert_eq!(p.get_rel_save_path(), "cat/sub/inner/batch/title.html");
}

#[test]
fn rel_save_path_omits_empty_segments() {
    let p = Post::new(
        "u".to_string(),
        "t".to_string(),
        "cat".to_string(),
        "".to_string(),
        "".to_string(),
    );
    assert_eq!(p.get_rel_save_path(), "cat/t.html");
    let q = Post::new(
        "u".to_string(),
        "t".to_string(),
        "cat".to_string(),
        "".to_string(),
        "batch".to_string(),
    );
    assert_eq!(q.get_rel_save_path(), "cat/batch/t.html");
    // An empty category contributes no leading separator.
    let r = Post::new(
        "u".to_string(),
        "t".to_string(),
        "".to_string(),
        "sub".to_string(),
        "".to_string(),
    );
    assert_eq!(r.get_rel_save_path(), "sub/t.html");
    // Empty subdirectory segments are dropped, not kept as `//`.
    let s = Post::new(
        "u".to_string(),
        "t".to_string(),
        "cat".to_string(),
        "a//b/".to_string(),
        "".to_string(),
    );
    assert_eq!(s.get_rel_save_path(), "cat/a/b/t.html");
}

#[test]
fn rel_save_path_is_deterministic() {
    let mk = || {
        Post::new(
            "https://example.net/p".to_string(),
            "same title".to_string(),
            "c".to_string(),
            "s".to_string(),
            "f".to_string(),
        )
    };
    assert_eq!(mk().get_rel_save_path(), mk().get_rel_save_path());
}

#[test]
fn rel_save_path_changes_with_each_field() {
    let base = Post::new(
        "u".to_string(),
        "t".to_string(),
        "c".to_string(),
        "s".to_string(),
        "f".to_string(),
    );
    let other_cat = Post::new(
        "u".to_string(),
        "t".to_string(),
        "c2".to_string(),
        "s".to_string(),
        "f".to_string(),
    );
    let other_sub = Post::new(
        "u".to_string(),
        "t".to_string(),
        "c".to_string(),
        "s2".to_string(),
        "f".to_string(),
    );
    let other_file = Post::new(
        "u".to_string(),
        "t".to_string(),
        "c".to_string(),
        "s".to_string(),
        "f2".to_string(),
    );
    let other_title = Post::new(
        "u".to_string(),
        "t2".to_string(),
        "c".to_string(),
        "s".to_string(),
        "f".to_string(),
    );
    let p = base.get_rel_save_path();
    assert_ne!(p, other_cat.get_rel_save_path());
    assert_ne!(p, other_sub.get_rel_save_path());
    assert_ne!(p, other_file.get_rel_save_path());
    assert_ne!(p, other_title.get_rel_save_path());
}

#[test]
fn record_with_empty_url_or_title_is_rejected() {
    assert!(post_from_record(
        "".to_string(),
        "t".to_string(),
        "c".to_string(),
        "".to_string(),
        "".to_string(),
    )
    .is_none());
    assert!(post_from_record(
        "u".to_string(),
        "".to_string(),
        "c".to_string(),
        "".to_string(),
        "".to_string(),
    )
    .is_none());
    let p = post_from_record(
        "u".to_string(),
        "t".to_string(),
        "c".to_string(),
        "".to_string(),
        "".to_string(),
    );
    assert!(p.is_some());
    assert_eq!(p.unwrap().get_rel_save_path(), "c/t.html");
}
