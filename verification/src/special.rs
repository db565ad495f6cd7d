//! Special-case video resolution: pages on a known host whose videos an
//! external downloading tool must fetch instead of direct HTTP. The
//! module decides when the tool runs and builds the playback fragment
//! injected into the page; invoking the tool is the caller's I/O.

use vstd::prelude::*;
use vstd::string::StringExecFns;
use crate::text::spec_contains;
use crate::text::spec_insert_before_first;
use crate::text::contains;
use crate::text::insert_before_first;

verus! {

/// A page URL is special when it names the delegated video host.
pub open spec fn spec_is_special_host(page_url: Seq<char>) -> bool {
    spec_contains(page_url, "bilibili.com"@)
}

/// Whether the page's videos must be fetched through the external tool.
pub fn is_special_host(page_url: &str) -> (r: bool)
    ensures
        r == spec_is_special_host(page_url@),
{
    contains(page_url, "bilibili.com")
}

/// The path of the tool's output file relative to the page's output
/// directory.
pub fn special_video_rel_path() -> (r: &'static str)
    ensures
        r@ == "assets/videos/bilibili_video.mp4"@,
{
    "assets/videos/bilibili_video.mp4"
}

/// The format-selection expression handed to the external tool: a
/// preferred resolution and codec, falling back through a priority list.
pub fn video_format_selector() -> (r: &'static str)
    ensures
        r@ == "bv*[height=720][ext=mp4]+ba[ext=m4a]/bv*[height=720]+ba/best[height=720]/best"@,
{
    "bv*[height=720][ext=mp4]+ba[ext=m4a]/bv*[height=720]+ba/best[height=720]/best"
}

/// What the caller must do about a page's special-cased video.
#[derive(Debug, PartialEq, Eq)]
pub enum SpecialAction {
    /// The page is not on the special host: nothing to do.
    NotSpecial,
    /// The output file already exists: reuse it, never run the tool.
    UseExisting,
    /// The tool could not be resolved: a hard error for this page's
    /// special-case handling.
    ToolMissing,
    /// Run the tool at this executable path.
    Invoke(String),
}

/// The special-case decision is a function of three facts alone: whether
/// the host matches, whether the output file already exists, and whether
/// the tool was resolved.
pub open spec fn spec_special_action(
    special: bool,
    file_exists: bool,
    tool_path: Option<String>,
) -> SpecialAction {
    if !special {
        SpecialAction::NotSpecial
    } else if file_exists {
        SpecialAction::UseExisting
    } else {
        match tool_path {
            Some(t) => SpecialAction::Invoke(t),
            None => SpecialAction::ToolMissing,
        }
    }
}

/// Decides how to handle a page's special-cased video. `file_exists` says
/// whether the tool's output file is already on disk, `tool_path` is the
/// resolved executable location, if any.
pub fn special_video_action(page_url: &str, file_exists: bool, tool_path: Option<String>) -> (r:
    SpecialAction)
    ensures
        r == spec_special_action(spec_is_special_host(page_url@), file_exists, tool_path),
{
    if !is_special_host(page_url) {
        SpecialAction::NotSpecial
    } else if file_exists {
        SpecialAction::UseExisting
    } else {
        match tool_path {
            Some(t) => SpecialAction::Invoke(t),
            None => SpecialAction::ToolMissing,
        }
    }
}

/// After the external tool was invoked, the playback fragment belongs
/// in the page exactly when the output file now exists: a failed run
/// that produced no file leaves the page as it was. The exit status
/// itself is only logged by the caller.
pub fn special_after_invoke(file_now_exists: bool, html: &str, rel: &str) -> (r: String)
    ensures
        r@ == (if file_now_exists {
            spec_inject_fragment(html@, rel@)
        } else {
            html@
        }),
{
    if file_now_exists {
        inject_video_fragment(html, rel)
    } else {
        html.to_owned()
    }
}

/// With the target file already present, the external tool is never
/// invoked: the decision for a matched host and an existing file is to
/// reuse the file, whatever the tool resolution said.
pub proof fn lemma_existing_file_never_invokes_tool(
    special: bool,
    tool_path: Option<String>,
)
    ensures
        forall|t: String|
            spec_special_action(special, true, tool_path) != SpecialAction::Invoke(t),
{
}

/// The self-contained playback fragment injected for a locally saved
/// special-case video: a `video` element referencing `rel`, a download
/// link fallback, and a script that swaps in the fallback link when
/// playback fails.
pub open spec fn spec_video_fragment(rel: Seq<char>) -> Seq<char> {
    "<div style=\"text-align:center; margin:20px 0;\"><video id=\"localVideo\" controls preload=\"metadata\" style=\"max-width:100%; height:auto; border-radius:8px; box-shadow:0 4px 8px rgba(0,0,0,0.1);\"><source src=\""@
        + rel
        + "\" type=\"video/mp4\" /><p style=\"color:#666; margin:10px 0;\">Your browser does not support HTML5 video playback.<br><a href=\""@
        + rel
        + "\" style=\"color:#007AFF; text-decoration:none;\" download>Click here to download video</a></p></video><script>(function() { var video = document.getElementById('localVideo'); if (video) { video.addEventListener('error', function(e) { console.log('Video loading error:', e); var fallback = document.createElement('div'); fallback.innerHTML = '<p style=\"color:#FF3B30; margin:10px 0;\">Video loading failed, please <a href=\""@
        + rel
        + "\" style=\"color:#007AFF;\" download>click download</a> to watch</p>'; video.parentNode.replaceChild(fallback, video); }); video.addEventListener('loadedmetadata', function() { console.log('Video loaded successfully'); }); } })();</script></div>"@
}

/// Builds the playback fragment for a video saved at `rel`.
pub fn build_video_fragment(rel: &str) -> (r: String)
    ensures
        r@ == spec_video_fragment(rel@),
{
    let mut out = String::new();
    out.append(
        "<div style=\"text-align:center; margin:20px 0;\"><video id=\"localVideo\" controls preload=\"metadata\" style=\"max-width:100%; height:auto; border-radius:8px; box-shadow:0 4px 8px rgba(0,0,0,0.1);\"><source src=\"",
    );
    out.append(rel);
    out.append(
        "\" type=\"video/mp4\" /><p style=\"color:#666; margin:10px 0;\">Your browser does not support HTML5 video playback.<br><a href=\"",
    );
    out.append(rel);
    out.append(
        "\" style=\"color:#007AFF; text-decoration:none;\" download>Click here to download video</a></p></video><script>(function() { var video = document.getElementById('localVideo'); if (video) { video.addEventListener('error', function(e) { console.log('Video loading error:', e); var fallback = document.createElement('div'); fallback.innerHTML = '<p style=\"color:#FF3B30; margin:10px 0;\">Video loading failed, please <a href=\"",
    );
    out.append(rel);
    out.append(
        "\" style=\"color:#007AFF;\" download>click download</a> to watch</p>'; video.parentNode.replaceChild(fallback, video); }); video.addEventListener('loadedmetadata', function() { console.log('Video loaded successfully'); }); } })();</script></div>",
    );
    assert(out@ =~= spec_video_fragment(rel@));
    out
}

/// The page with the playback fragment for `rel` inserted once,
/// immediately before the first closing `body` tag; a page without one
/// is left unchanged.
pub open spec fn spec_inject_fragment(html: Seq<char>, rel: Seq<char>) -> Seq<char> {
    spec_insert_before_first(html, "</body>"@, spec_video_fragment(rel))
}

/// Inserts the playback fragment for the video saved at `rel` once,
/// before the first closing `body` tag of the page. Nothing already in
/// the page is replaced or repeated.
pub fn inject_video_fragment(html: &str, rel: &str) -> (r: String)
    ensures
        r@ == spec_inject_fragment(html@, rel@),
{
    let fragment = build_video_fragment(rel);
    proof {
        reveal_strlit("</body>");
    }
    insert_before_first(html, "</body>", fragment.as_str())
}

} // verus!
