use hyfetcher::fetch::PageCommand;
use hyfetcher::fetch::PageEvent;
use hyfetcher::fetch::PageState;
use hyfetcher::fetch::page_start;
use hyfetcher::fetch::page_step;

#[test]
fn existing_output_skips_the_page_without_fetching() {
    let (state, cmd) = page_start();
    assert_eq!(state, PageState::AwaitProbe);
    assert_eq!(cmd, PageCommand::ProbeOutput);
    let (state, cmd) = page_step(state, PageEvent::OutputExists(true));
    assert_eq!(state, PageState::DoneSkipped);
    assert_eq!(cmd, PageCommand::SkipPage);
    // Whatever is reported afterwards, the machine never asks for the page.
    let events = [
        PageEvent::OutputExists(false),
        PageEvent::PageFetched(true),
        PageEvent::ImagesDone,
        PageEvent::WriteDone(true),
    ];
    for e in events {
        let (next, cmd) = page_step(state, e);
        assert_eq!(next, PageState::DoneSkipped);
        assert_eq!(cmd, PageCommand::Reject);
        assert_ne!(cmd, PageCommand::FetchPage);
    }
}

#[test]
fn missing_output_runs_the_full_pipeline() {
    let (state, _) = page_start();
    let (state, cmd) = page_step(state, PageEvent::OutputExists(false));
    assert_eq!(state, PageState::AwaitPage);
    assert_eq!(cmd, PageCommand::FetchPage);
    let (state, cmd) = page_step(state, PageEvent::PageFetched(true));
    assert_eq!(state, PageState::AwaitDir);
    assert_eq!(cmd, PageCommand::EnsureDir);
    let (state, cmd) = page_step(state, PageEvent::DirEnsured(true));
    assert_eq!(state, PageState::AwaitImages);
    assert_eq!(cmd, PageCommand::LocalizeImages);
    let (state, cmd) = page_step(state, PageEvent::ImagesDone);
    assert_eq!(state, PageState::AwaitSpecial);
    assert_eq!(cmd, PageCommand::ResolveSpecial);
    let (state, cmd) = page_step(state, PageEvent::SpecialDone);
    assert_eq!(state, PageState::AwaitVideos);
    assert_eq!(cmd, PageCommand::LocalizeVideos);
    let (state, cmd) = page_step(state, PageEvent::VideosDone);
    assert_eq!(state, PageState::AwaitWrite);
    assert_eq!(cmd, PageCommand::WriteHtml);
    let (state, cmd) = page_step(state, PageEvent::WriteDone(true));
    assert_eq!(state, PageState::DoneSaved);
    assert_eq!(cmd, PageCommand::ReportSaved);
}

#[test]
fn network_failure_ends_the_page_only() {
    let (state, _) = page_start();
    let (state, _) = page_step(state, PageEvent::OutputExists(false));
    let (state, cmd) = page_step(state, PageEvent::PageFetched(false));
    assert_eq!(state, PageState::FailedNetwork);
    assert_eq!(cmd, PageCommand::ReportNetworkError);
}

#[test]
fn filesystem_failures_are_reported() {
    let (state, _) = page_start();
    let (state, _) = page_step(state, PageEvent::OutputExists(false));
    let (state, _) = page_step(state, PageEvent::PageFetched(true));
    let (state, cmd) = page_step(state, PageEvent::DirEnsured(false));
    assert_eq!(state, PageState::FailedFilesystem);
    assert_eq!(cmd, PageCommand::ReportFilesystemError);

    let (state, _) = page_start();
    let (state, _) = page_step(state, PageEvent::OutputExists(false));
    let (state, _) = page_step(state, PageEvent::PageFetched(true));
    let (state, _) = page_step(state, PageEvent::DirEnsured(true));
    let (state, _) = page_step(state, PageEvent::ImagesDone);
    let (state, _) = page_step(state, PageEvent::SpecialDone);
    let (state, _) = page_step(state, PageEvent::VideosDone);
    let (state, cmd) = page_step(state, PageEvent::WriteDone(false));
    assert_eq!(state, PageState::FailedFilesystem);
    assert_eq!(cmd, PageCommand::ReportFilesystemError);
}

#[test]
fn mismatched_event_changes_nothing() {
    let (state, _) = page_start();
    let (next, cmd) = page_step(state, PageEvent::VideosDone);
    assert_eq!(next, PageState::AwaitProbe);
    assert_eq!(cmd, PageCommand::Reject);
}
