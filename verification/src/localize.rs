//! Asset localization: finding remote `src` references in a page,
//! resolving them against the page URL, deriving local file paths, and
//! rewriting the HTML to point at the downloaded copies.
//!
//! The download itself is I/O and is performed by the caller: this module
//! produces the plan (which URL to fetch, where to store it) and, given
//! the per-asset download outcomes, the rewritten HTML.

use vstd::prelude::*;
use vstd::string::StrSliceExecFns;
use vstd::string::StringExecFns;
use crate::text::spec_starts_with;
use crate::text::spec_after_last_slash;
use crate::text::spec_replace;
use crate::text::starts_with;
use crate::text::segment_after_last_slash;
use crate::text::replace_all;

verus! {

/// What `url::Url::parse(base)` followed by `join(rel)` serializes to, or
/// `None` when either step fails; a pure function of the two strings.
pub uninterp spec fn joined_url(base: Seq<char>, rel: Seq<char>) -> Option<Seq<char>>;

/// Relies on `url::Url::parse` and `url::Url::join`: WHATWG URL
/// resolution of `rel` against `base`, serialized with `Url::as_str`.
/// The result depends on the two argument strings alone.
#[verifier::external_body]
fn join_url(base: &str, rel: &str) -> (r: Option<String>)
    ensures
        r.deep_view() == joined_url(base@, rel@),
{
    match url::Url::parse(base) {
        Ok(b) => match b.join(rel) {
            Ok(u) => Some(u.as_str().to_owned()),
            Err(_) => None,
        },
        Err(_) => None,
    }
}

/// The `src` attribute values of the document's `img` elements, in
/// document order; a pure function of the HTML text.
pub uninterp spec fn img_srcs(html: Seq<char>) -> Seq<Seq<char>>;

/// Relies on scraper's `Html::parse_document`, `Selector::parse` and
/// `Html::select`: collects the `src` attribute of every `img` element in
/// document order. Parsing is pure; the result depends on the HTML alone.
#[verifier::external_body]
fn extract_img_srcs(html: &str) -> (r: Vec<String>)
    ensures
        r.deep_view() == img_srcs(html@),
{
    let document = scraper::Html::parse_document(html);
    let selector = scraper::Selector::parse("img").unwrap();
    let mut srcs = Vec::new();
    for element in document.select(&selector) {
        if let Some(src) = element.value().attr("src") {
            srcs.push(src.to_owned());
        }
    }
    srcs
}

/// The `src` attribute values of the document's `video` elements followed
/// by those of its `source` elements, each group in document order; a
/// pure function of the HTML text.
pub uninterp spec fn video_srcs(html: Seq<char>) -> Seq<Seq<char>>;

/// Relies on scraper's `Html::parse_document`, `Selector::parse` and
/// `Html::select`: collects the `src` attribute of every `video` element,
/// then of every `source` element, each group in document order. Parsing
/// is pure; the result depends on the HTML alone.
#[verifier::external_body]
fn extract_video_srcs(html: &str) -> (r: Vec<String>)
    ensures
        r.deep_view() == video_srcs(html@),
{
    let document = scraper::Html::parse_document(html);
    let video_selector = scraper::Selector::parse("video").unwrap();
    let source_selector = scraper::Selector::parse("source").unwrap();
    let mut srcs = Vec::new();
    for element in document.select(&video_selector) {
        if let Some(src) = element.value().attr("src") {
            srcs.push(src.to_owned());
        }
    }
    for element in document.select(&source_selector) {
        if let Some(src) = element.value().attr("src") {
            srcs.push(src.to_owned());
        }
    }
    srcs
}

/// The two kinds of embedded asset the localizer handles.
#[derive(Clone, Copy, PartialEq, Eq, Structural, Debug)]
pub enum AssetKind {
    /// An `img` element.
    Image,
    /// A `video` or `source` element.
    Video,
}

impl AssetKind {
    /// The directory, relative to the page's output directory, that
    /// assets of this kind are stored under.
    pub open spec fn spec_dir_prefix(self) -> Seq<char> {
        match self {
            AssetKind::Image => "assets/images/"@,
            AssetKind::Video => "assets/videos/"@,
        }
    }

    /// The fallback filename used when the asset URL has no usable path
    /// segment.
    pub open spec fn spec_default_name(self) -> Seq<char> {
        match self {
            AssetKind::Image => "image.jpg"@,
            AssetKind::Video => "video.mp4"@,
        }
    }

    /// The storage directory prefix for this kind.
    pub fn dir_prefix(self) -> (r: &'static str)
        ensures
            r@ == self.spec_dir_prefix(),
    {
        match self {
            AssetKind::Image => "assets/images/",
            AssetKind::Video => "assets/videos/",
        }
    }

    /// The fallback filename for this kind.
    pub fn default_name(self) -> (r: &'static str)
        ensures
            r@ == self.spec_default_name(),
    {
        match self {
            AssetKind::Image => "image.jpg",
            AssetKind::Video => "video.mp4",
        }
    }
}

/// The `src` values the localizer considers for a page, by kind.
pub open spec fn spec_srcs_of(html: Seq<char>, kind: AssetKind) -> Seq<Seq<char>> {
    match kind {
        AssetKind::Image => img_srcs(html),
        AssetKind::Video => video_srcs(html),
    }
}

/// The absolute URL an element's `src` resolves to: kept as-is when it is
/// already absolute, otherwise resolved against the page URL, falling
/// back to the raw value when resolution fails.
pub open spec fn spec_resolve_src(src: Seq<char>, page_url: Seq<char>) -> Seq<char> {
    if spec_starts_with(src, "http://"@) || spec_starts_with(src, "https://"@) {
        src
    } else {
        match joined_url(page_url, src) {
            Some(u) => u,
            None => src,
        }
    }
}

/// The local filename of an asset: what follows the last `/` of its
/// resolved URL, or the kind's fallback name when that is empty (a URL
/// ending in `/` has no usable segment).
pub open spec fn spec_asset_filename(resolved: Seq<char>, kind: AssetKind) -> Seq<char> {
    if spec_after_last_slash(resolved).len() > 0 {
        spec_after_last_slash(resolved)
    } else {
        kind.spec_default_name()
    }
}

/// One asset to localize: its original `src`, the URL to download, and
/// where the downloaded copy lives relative to the page's directory.
pub struct AssetPlan {
    /// The element's `src` attribute as it appears in the page.
    pub original_src: String,
    /// The absolute URL to download.
    pub resolved_url: String,
    /// The local filename of the downloaded copy.
    pub filename: String,
    /// The path of the copy relative to the page's output directory.
    pub local_rel_path: String,
}

/// The plan an asset's `src` gives rise to.
pub open spec fn plan_matches(
    p: AssetPlan,
    src: Seq<char>,
    page_url: Seq<char>,
    kind: AssetKind,
) -> bool {
    &&& p.original_src@ == src
    &&& p.resolved_url@ == spec_resolve_src(src, page_url)
    &&& p.filename@ == spec_asset_filename(p.resolved_url@, kind)
    &&& p.local_rel_path@ == kind.spec_dir_prefix() + p.filename@
}

/// Resolves an element's `src` to the absolute URL to download.
pub fn resolve_src(src: &str, page_url: &str) -> (r: String)
    ensures
        r@ == spec_resolve_src(src@, page_url@),
{
    if starts_with(src, "http://") || starts_with(src, "https://") {
        src.to_owned()
    } else {
        match join_url(page_url, src) {
            Some(u) => u,
            None => src.to_owned(),
        }
    }
}

/// Builds the localization plan for one element's `src`.
pub fn plan_for_src(src: String, page_url: &str, kind: AssetKind) -> (r: AssetPlan)
    ensures
        plan_matches(r, src@, page_url@, kind),
{
    let resolved = resolve_src(src.as_str(), page_url);
    let filename = match segment_after_last_slash(resolved.as_str()) {
        Some(seg) => seg,
        None => default_name_owned(kind),
    };
    let mut rel = default_prefix_owned(kind);
    rel.append(filename.as_str());
    let filename_copy = filename.clone();
    AssetPlan { original_src: src, resolved_url: resolved, filename: filename_copy, local_rel_path: rel }
}

/// The kind's fallback filename as an owned string.
fn default_name_owned(kind: AssetKind) -> (r: String)
    ensures
        r@ == kind.spec_default_name(),
{
    let s = kind.default_name();
    s.to_owned()
}

/// The kind's directory prefix as an owned string.
fn default_prefix_owned(kind: AssetKind) -> (r: String)
    ensures
        r@ == kind.spec_dir_prefix(),
{
    let s = kind.dir_prefix();
    s.to_owned()
}

/// Builds the localization plans for every matching element of the page,
/// in the order the document lists them.
pub fn plan_assets(html: &str, page_url: &str, kind: AssetKind) -> (r: Vec<AssetPlan>)
    ensures
        r@.len() == spec_srcs_of(html@, kind).len(),
        forall|i: int|
            0 <= i < r@.len() ==> plan_matches(
                r@[i],
                spec_srcs_of(html@, kind)[i],
                page_url@,
                kind,
            ),
{
    let srcs: Vec<String> = match kind {
        AssetKind::Image => extract_img_srcs(html),
        AssetKind::Video => extract_video_srcs(html),
    };
    let mut plans: Vec<AssetPlan> = Vec::new();
    let mut i: usize = 0;
    while i < srcs.len()
        invariant
            srcs.deep_view() == spec_srcs_of(html@, kind),
            0 <= i <= srcs.len(),
            plans@.len() == i,
            forall|j: int|
                0 <= j < i ==> plan_matches(
                    plans@[j],
                    spec_srcs_of(html@, kind)[j],
                    page_url@,
                    kind,
                ),
        decreases srcs.len() - i,
    {
        let src = srcs[i].clone();
        assert(src@ == srcs.deep_view()[i as int]);
        let p = plan_for_src(src, page_url, kind);
        plans.push(p);
        i += 1;
    }
    plans
}

/// How one planned asset is obtained.
#[derive(Clone, Copy, PartialEq, Eq, Structural, Debug)]
pub enum AssetAction {
    /// The file is already on disk: reuse it, no request is made.
    UseExisting,
    /// Fetch the plan's resolved URL and store it at the plan's path.
    Download,
}

/// The check-then-download decision for one planned asset: an asset
/// whose file is already on disk is never requested again; only a
/// missing one is downloaded. A re-run over a populated directory thus
/// issues no asset requests.
pub fn asset_action(file_exists: bool) -> (r: AssetAction)
    ensures
        r == (if file_exists {
            AssetAction::UseExisting
        } else {
            AssetAction::Download
        }),
{
    if file_exists {
        AssetAction::UseExisting
    } else {
        AssetAction::Download
    }
}

/// The localization outcome of one asset: successful exactly when its
/// file was on disk already or its download succeeded. Only successful
/// assets are rewritten.
pub fn asset_outcome(file_exists: bool, downloaded: bool) -> (r: bool)
    ensures
        r == (file_exists || downloaded),
{
    file_exists || downloaded
}

/// The literal text of a `src` attribute holding the value `v`.
pub open spec fn spec_src_attr(v: Seq<char>) -> Seq<char> {
    "src=\""@ + v + "\""@
}

/// The page after the substitutions of `plans[i..]` whose download
/// succeeded have been applied in order: each one replaces every literal
/// occurrence of `src="<original>"` by `src="<local path>"`.
pub open spec fn spec_rewrite_from(
    html: Seq<char>,
    plans: Seq<AssetPlan>,
    oks: Seq<bool>,
    i: int,
) -> Seq<char>
    decreases plans.len() - i,
{
    if i < 0 || i >= plans.len() || oks.len() != plans.len() {
        html
    } else {
        let h = if oks[i] {
            spec_replace(
                html,
                spec_src_attr(plans[i].original_src@),
                spec_src_attr(plans[i].local_rel_path@),
            )
        } else {
            html
        };
        spec_rewrite_from(h, plans, oks, i + 1)
    }
}

/// The page after all successful substitutions have been applied in plan
/// order.
pub open spec fn spec_rewrite(html: Seq<char>, plans: Seq<AssetPlan>, oks: Seq<bool>) -> Seq<char> {
    spec_rewrite_from(html, plans, oks, 0)
}

/// Rewrites the page text: for every plan whose download succeeded, every
/// literal occurrence of `src="<original>"` becomes `src="<local path>"`.
/// Elements whose download failed keep their remote reference.
pub fn rewrite_html(html: &str, plans: &Vec<AssetPlan>, oks: &Vec<bool>) -> (r: String)
    requires
        plans@.len() == oks@.len(),
    ensures
        r@ == spec_rewrite(html@, plans@, oks@),
{
    let mut result = html.to_owned();
    let mut i: usize = 0;
    while i < plans.len()
        invariant
            plans@.len() == oks@.len(),
            0 <= i <= plans@.len(),
            spec_rewrite_from(result@, plans@, oks@, i as int) == spec_rewrite(
                html@,
                plans@,
                oks@,
            ),
        decreases plans.len() - i,
    {
        if oks[i] {
            let mut from = String::new();
            from.append("src=\"");
            from.append(plans[i].original_src.as_str());
            from.append("\"");
            let mut to = String::new();
            to.append("src=\"");
            to.append(plans[i].local_rel_path.as_str());
            to.append("\"");
            proof {
                reveal_strlit("src=\"");
                assert(from@ =~= spec_src_attr(plans@[i as int].original_src@));
                assert(to@ =~= spec_src_attr(plans@[i as int].local_rel_path@));
                assert(from@.len() > 0);
            }
            result = replace_all(result.as_str(), from.as_str(), to.as_str());
        }
        i += 1;
    }
    result
}

/// A localization pass none of whose downloads succeeded leaves the page
/// text unchanged.
pub proof fn lemma_failed_downloads_leave_html_unchanged(
    html: Seq<char>,
    plans: Seq<AssetPlan>,
    oks: Seq<bool>,
)
    requires
        oks.len() == plans.len(),
        forall|j: int| 0 <= j < oks.len() ==> !oks[j],
    ensures
        spec_rewrite(html, plans, oks) == html,
{
    lemma_failed_downloads_from(html, plans, oks, 0);
}

proof fn lemma_failed_downloads_from(
    html: Seq<char>,
    plans: Seq<AssetPlan>,
    oks: Seq<bool>,
    i: int,
)
    requires
        oks.len() == plans.len(),
        forall|j: int| 0 <= j < oks.len() ==> !oks[j],
    ensures
        spec_rewrite_from(html, plans, oks, i) == html,
    decreases plans.len() - i,
{
    if 0 <= i < plans.len() {
        lemma_failed_downloads_from(html, plans, oks, i + 1);
    }
}

} // verus!
