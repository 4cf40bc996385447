use std::path::PathBuf;

use hand_tracking_mouse::config::{
    default_click_cooldown_ms, default_detection_warmup_frames, default_index_finger_tip,
    default_lost_to_reset_roi, sanitize_tracking_limits, ConfigError, ConfigStore, TrackingLimits,
    CONFIG_FILE_NAME,
};

#[test]
fn integer_defaults() {
    assert_eq!(default_detection_warmup_frames(), 2);
    assert_eq!(default_lost_to_reset_roi(), 4);
    assert_eq!(default_click_cooldown_ms(), 260);
    assert_eq!(default_index_finger_tip(), 8);
    let d = TrackingLimits::default();
    assert_eq!(d, TrackingLimits { detection_warmup_frames: 2, lost_to_reset_roi: 4, click_cooldown_ms: 260, index_finger_tip: 8 });
    assert_eq!(sanitize_tracking_limits(d), d);
}

#[test]
fn limits_are_clamped() {
    let l = TrackingLimits { detection_warmup_frames: 0, lost_to_reset_roi: 0, click_cooldown_ms: 10, index_finger_tip: 40 };
    let s = sanitize_tracking_limits(l);
    assert_eq!(s, TrackingLimits { detection_warmup_frames: 1, lost_to_reset_roi: 1, click_cooldown_ms: 50, index_finger_tip: 20 });
    let h = TrackingLimits { detection_warmup_frames: 9, lost_to_reset_roi: 7, click_cooldown_ms: 9000, index_finger_tip: 4 };
    assert_eq!(sanitize_tracking_limits(h).click_cooldown_ms, 3000);
    assert_eq!(sanitize_tracking_limits(sanitize_tracking_limits(h)), sanitize_tracking_limits(h));
}

#[test]
fn store_in_a_config_dir() {
    let s = ConfigStore::in_config_dir(Some(PathBuf::from("/home/alice/.config")), "HandTrackingMouse").unwrap();
    assert_eq!(s.config_dir, PathBuf::from("/home/alice/.config"));
    assert_eq!(s.app_name, "HandTrackingMouse");
    assert_eq!(CONFIG_FILE_NAME, "camera_config.toml");
    assert_eq!(ConfigStore::in_config_dir(None, "x").unwrap_err(), ConfigError::ConfigDirUnavailable);
}

#[test]
fn store_for_this_user() {
    if let Ok(s) = ConfigStore::new("HandTrackingMouse") {
        assert_eq!(s.app_name, "HandTrackingMouse");
    }
}
