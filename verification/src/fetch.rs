//! The page fetch state machine: the order of decisions one mirrored page
//! goes through, from the existence probe to the final write. The caller
//! performs each commanded piece of I/O and reports its outcome as the
//! next event; every decision lives here.

use vstd::prelude::*;

verus! {

/// Where a page's pipeline stands.
#[derive(Clone, Copy, PartialEq, Eq, Structural, Debug)]
pub enum PageState {
    /// Waiting to learn whether the output file already exists.
    AwaitProbe,
    /// Waiting for the page body.
    AwaitPage,
    /// Waiting for the destination directory to exist.
    AwaitDir,
    /// Waiting for the image pass over the page.
    AwaitImages,
    /// Waiting for the special-case video resolution.
    AwaitSpecial,
    /// Waiting for the generic video pass over the page.
    AwaitVideos,
    /// Waiting for the final HTML write.
    AwaitWrite,
    /// Finished: the output already existed, nothing was fetched.
    DoneSkipped,
    /// Finished: the page was fetched, localized and saved.
    DoneSaved,
    /// Finished: the page fetch failed on the network.
    FailedNetwork,
    /// Finished: a directory or file write failed.
    FailedFilesystem,
}

/// What the caller reports back after performing a command.
#[derive(Clone, Copy, PartialEq, Eq, Structural, Debug)]
pub enum PageEvent {
    /// Whether the output file already exists.
    OutputExists(bool),
    /// Whether the HTTP fetch of the page succeeded.
    PageFetched(bool),
    /// Whether the destination directory now exists.
    DirEnsured(bool),
    /// The image localization pass finished.
    ImagesDone,
    /// The special-case video resolution finished, with either outcome.
    SpecialDone,
    /// The video localization pass finished.
    VideosDone,
    /// Whether the final HTML write succeeded.
    WriteDone(bool),
}

/// What the caller must do next.
#[derive(Clone, Copy, PartialEq, Eq, Structural, Debug)]
pub enum PageCommand {
    /// Check whether the output file exists.
    ProbeOutput,
    /// Issue the HTTP GET for the page.
    FetchPage,
    /// Create the destination directory, tolerating its existence.
    EnsureDir,
    /// Run the image localization pass.
    LocalizeImages,
    /// Run the special-case video resolution for delegated hosts.
    ResolveSpecial,
    /// Run the generic video localization pass.
    LocalizeVideos,
    /// Write the final HTML to the computed path.
    WriteHtml,
    /// Stop: the page was skipped as already mirrored.
    SkipPage,
    /// Stop: report a network failure for this page.
    ReportNetworkError,
    /// Stop: report a filesystem failure for this page.
    ReportFilesystemError,
    /// Stop: report the page as saved.
    ReportSaved,
    /// The event does not answer the pending command; nothing changes.
    Reject,
}

/// A state from which no further command is issued.
pub open spec fn is_terminal(s: PageState) -> bool {
    s == PageState::DoneSkipped || s == PageState::DoneSaved || s == PageState::FailedNetwork
        || s == PageState::FailedFilesystem
}

/// The transition relation of one page's pipeline: an existence probe,
/// then the HTTP fetch, the directory, the image pass, the special-case
/// video resolution, the generic video pass, and the write, each failure
/// ending the page without affecting others. Special-case resolution
/// always precedes generic video localization.
pub open spec fn spec_page_step(s: PageState, e: PageEvent) -> (PageState, PageCommand) {
    match (s, e) {
        (PageState::AwaitProbe, PageEvent::OutputExists(true)) => (
            PageState::DoneSkipped,
            PageCommand::SkipPage,
        ),
        (PageState::AwaitProbe, PageEvent::OutputExists(false)) => (
            PageState::AwaitPage,
            PageCommand::FetchPage,
        ),
        (PageState::AwaitPage, PageEvent::PageFetched(true)) => (
            PageState::AwaitDir,
            PageCommand::EnsureDir,
        ),
        (PageState::AwaitPage, PageEvent::PageFetched(false)) => (
            PageState::FailedNetwork,
            PageCommand::ReportNetworkError,
        ),
        (PageState::AwaitDir, PageEvent::DirEnsured(true)) => (
            PageState::AwaitImages,
            PageCommand::LocalizeImages,
        ),
        (PageState::AwaitDir, PageEvent::DirEnsured(false)) => (
            PageState::FailedFilesystem,
            PageCommand::ReportFilesystemError,
        ),
        (PageState::AwaitImages, PageEvent::ImagesDone) => (
            PageState::AwaitSpecial,
            PageCommand::ResolveSpecial,
        ),
        (PageState::AwaitSpecial, PageEvent::SpecialDone) => (
            PageState::AwaitVideos,
            PageCommand::LocalizeVideos,
        ),
        (PageState::AwaitVideos, PageEvent::VideosDone) => (
            PageState::AwaitWrite,
            PageCommand::WriteHtml,
        ),
        (PageState::AwaitWrite, PageEvent::WriteDone(true)) => (
            PageState::DoneSaved,
            PageCommand::ReportSaved,
        ),
        (PageState::AwaitWrite, PageEvent::WriteDone(false)) => (
            PageState::FailedFilesystem,
            PageCommand::ReportFilesystemError,
        ),
        (s2, _) => (s2, PageCommand::Reject),
    }
}

/// The state and first command a page's pipeline starts with.
pub fn page_start() -> (r: (PageState, PageCommand))
    ensures
        r.0 == PageState::AwaitProbe,
        r.1 == PageCommand::ProbeOutput,
{
    (PageState::AwaitProbe, PageCommand::ProbeOutput)
}

/// Advances a page's pipeline by one reported event.
pub fn page_step(s: PageState, e: PageEvent) -> (r: (PageState, PageCommand))
    ensures
        r == spec_page_step(s, e),
{
    match (s, e) {
        (PageState::AwaitProbe, PageEvent::OutputExists(true)) => (
            PageState::DoneSkipped,
            PageCommand::SkipPage,
        ),
        (PageState::AwaitProbe, PageEvent::OutputExists(false)) => (
            PageState::AwaitPage,
            PageCommand::FetchPage,
        ),
        (PageState::AwaitPage, PageEvent::PageFetched(true)) => (
            PageState::AwaitDir,
            PageCommand::EnsureDir,
        ),
        (PageState::AwaitPage, PageEvent::PageFetched(false)) => (
            PageState::FailedNetwork,
            PageCommand::ReportNetworkError,
        ),
        (PageState::AwaitDir, PageEvent::DirEnsured(true)) => (
            PageState::AwaitImages,
            PageCommand::LocalizeImages,
        ),
        (PageState::AwaitDir, PageEvent::DirEnsured(false)) => (
            PageState::FailedFilesystem,
            PageCommand::ReportFilesystemError,
        ),
        (PageState::AwaitImages, PageEvent::ImagesDone) => (
            PageState::AwaitSpecial,
            PageCommand::ResolveSpecial,
        ),
        (PageState::AwaitSpecial, PageEvent::SpecialDone) => (
            PageState::AwaitVideos,
            PageCommand::LocalizeVideos,
        ),
        (PageState::AwaitVideos, PageEvent::VideosDone) => (
            PageState::AwaitWrite,
            PageCommand::WriteHtml,
        ),
        (PageState::AwaitWrite, PageEvent::WriteDone(true)) => (
            PageState::DoneSaved,
            PageCommand::ReportSaved,
        ),
        (PageState::AwaitWrite, PageEvent::WriteDone(false)) => (
            PageState::FailedFilesystem,
            PageCommand::ReportFilesystemError,
        ),
        (s2, _) => (s2, PageCommand::Reject),
    }
}

/// An output file that already exists skips the page entirely: the probe
/// answers the first command, an existing file ends the page at once, and
/// no terminal state ever commands a network fetch — so no HTTP request
/// is issued for that page.
pub proof fn lemma_existing_output_fetches_nothing()
    ensures
        spec_page_step(PageState::AwaitProbe, PageEvent::OutputExists(true)) == (
            PageState::DoneSkipped,
            PageCommand::SkipPage,
        ),
        forall|e: PageEvent, s: PageState|
            is_terminal(s) ==> (#[trigger] spec_page_step(s, e)).1 != PageCommand::FetchPage
                && spec_page_step(s, e).0 == s,
{
}

} // verus!
