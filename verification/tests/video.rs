use spektro_core::video::{duration_text, is_hevc, LookMode, OutCodec, VideoError};

fn text_of(d: f64) -> String {
    duration_text(d.round().max(0.0) as u64)
}

#[test]
fn duration_reads_as_minutes_and_seconds() {
    assert_eq!(text_of(20.02), "0:20");
    assert_eq!(text_of(95.0), "1:35");
    assert_eq!(text_of(3725.0), "1:02:05");
}

#[test]
fn hevc_is_recognised_by_its_four_character_code() {
    assert!(is_hevc("hvc1") && is_hevc("hev1"));
    assert!(!is_hevc("avc1") && !is_hevc("apcn"));
}

#[test]
fn codecs_pick_their_container_and_key() {
    assert_eq!(OutCodec::H264.extension(), "mp4");
    assert_eq!(OutCodec::Hevc.extension(), "mp4");
    assert_eq!(OutCodec::ProRes422.extension(), "mov");
    assert_eq!(OutCodec::ProRes4444.av_codec(), "ap4h");
    assert_eq!(OutCodec::H264.av_codec(), "avc1");
    assert!(OutCodec::ProRes422.is_prores());
    assert!(!OutCodec::Hevc.is_prores());
    assert_ne!(LookMode::Lut, LookMode::Full);
}

#[test]
fn video_errors_read_as_messages() {
    assert_eq!(VideoError::Unsupported.message(), "video needs macOS (AVFoundation); this build has no video support");
    assert_eq!(VideoError::Failed("boom".into()).message(), "boom");
}

#[test]
fn a_clip_of_an_hour_exactly() {
    assert_eq!(duration_text(3600), "1:00:00");
    assert_eq!(duration_text(0), "0:00");
}
