use wy_music::fetch::{check_url, classify_status, FetchError};
use wy_music::orchestrator::{
    plan_download, presence_after_plan, ArtifactPresence, DownloadPlan, ResourceRequest,
};

fn full_request() -> ResourceRequest {
    ResourceRequest {
        audio_url: Some("http://example.com/a.mp3".to_string()),
        image_url: Some("http://example.com/a.jpg".to_string()),
        lyric_text: Some("line one".to_string()),
    }
}

fn nothing_present() -> ArtifactPresence {
    ArtifactPresence { audio: false, cover: false, lyrics: false }
}

fn fetch_count(plan: &DownloadPlan) -> usize {
    plan.fetch_audio.iter().count() + plan.fetch_image.iter().count()
        + plan.write_lyrics.iter().count()
}

#[test]
fn plan_fetches_everything_missing() {
    let plan = plan_download(&full_request(), nothing_present());
    assert_eq!(plan.fetch_audio.as_deref(), Some("http://example.com/a.mp3"));
    assert_eq!(plan.fetch_image.as_deref(), Some("http://example.com/a.jpg"));
    assert_eq!(plan.write_lyrics.as_deref(), Some("line one"));
}

#[test]
fn plan_skips_present_artifacts() {
    let present = ArtifactPresence { audio: true, cover: false, lyrics: true };
    let plan = plan_download(&full_request(), present);
    assert!(plan.fetch_audio.is_none());
    assert!(plan.fetch_image.is_some());
    assert!(plan.write_lyrics.is_none());
}

#[test]
fn plan_skips_unsupplied_resources() {
    let req = ResourceRequest { audio_url: None, image_url: None, lyric_text: None };
    let plan = plan_download(&req, nothing_present());
    assert_eq!(fetch_count(&plan), 0);
}

#[test]
fn second_materialize_fetches_nothing() {
    // Carry out the first plan in full, then plan the same request
    // against the resulting state: zero fetches and writes remain.
    let req = full_request();
    let before = nothing_present();
    let first = plan_download(&req, before);
    assert_eq!(fetch_count(&first), 3);
    let after = presence_after_plan(before, &first);
    let second = plan_download(&req, after);
    assert_eq!(fetch_count(&second), 0);
}

#[test]
fn url_validation_gates_fetches() {
    assert!(check_url("https://example.com/song.mp3").is_ok());
    assert_eq!(check_url("no scheme at all").unwrap_err(), FetchError::InvalidUrl);
    assert!(!FetchError::InvalidUrl.message().is_empty());
}

#[test]
fn status_classification_is_2xx() {
    assert!(classify_status(200).is_ok());
    assert!(classify_status(299).is_ok());
    assert_eq!(classify_status(404).unwrap_err(), FetchError::HttpStatus(404));
    assert_eq!(classify_status(199).unwrap_err(), FetchError::HttpStatus(199));
    assert_eq!(classify_status(302).unwrap_err(), FetchError::HttpStatus(302));
}
