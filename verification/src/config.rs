//! Integer settings of the tracking pipeline with their defaults and the
//! ranges they are clamped to, and the location of the settings file.
use vstd::prelude::*;
use std::path::PathBuf;
use crate::geometry::LANDMARK_COUNT;

verus! {

/// Name of the settings file inside the application's configuration directory.
pub const CONFIG_FILE_NAME: &'static str = "camera_config.toml";

/// Path of the landmark model used when the settings name none.
pub const DEFAULT_MODEL_PATH: &'static str = "models/HandLandmarkDetector.onnx";

/// Default number of consecutive detections before landmarks are shown.
pub fn default_detection_warmup_frames() -> (r: u32)
    ensures
        r == 2,
{
    2
}

/// Default number of consecutive lost frames before tracking restarts from the whole frame.
pub fn default_lost_to_reset_roi() -> (r: u32)
    ensures
        r == 4,
{
    4
}

/// Default pause between two clicks, in milliseconds.
pub fn default_click_cooldown_ms() -> (r: u32)
    ensures
        r == 260,
{
    260
}

/// Default landmark that steers the cursor: the tip of the index finger.
pub fn default_index_finger_tip() -> (r: usize)
    ensures
        r == 8,
{
    8
}

/// The integer settings of the tracking pipeline.
#[derive(Clone, Copy, Debug, PartialEq, Eq, Structural)]
pub struct TrackingLimits {
    /// Consecutive detections before landmarks are shown and the cursor follows.
    pub detection_warmup_frames: u32,
    /// Consecutive lost frames before tracking restarts from the whole frame.
    pub lost_to_reset_roi: u32,
    /// Pause between two clicks, in milliseconds.
    pub click_cooldown_ms: u32,
    /// Landmark whose position steers the cursor.
    pub index_finger_tip: usize,
}

/// The default settings.
pub open spec fn default_limits() -> TrackingLimits {
    TrackingLimits { detection_warmup_frames: 2, lost_to_reset_roi: 4, click_cooldown_ms: 260, index_finger_tip: 8 }
}

impl Default for TrackingLimits {
    fn default() -> (r: Self)
        ensures
            r == default_limits(),
    {
        TrackingLimits {
            detection_warmup_frames: default_detection_warmup_frames(),
            lost_to_reset_roi: default_lost_to_reset_roi(),
            click_cooldown_ms: default_click_cooldown_ms(),
            index_finger_tip: default_index_finger_tip(),
        }
    }
}

/// `v` clamped to `[lo, hi]`.
pub open spec fn clamp_u32(v: u32, lo: u32, hi: u32) -> u32 {
    if v < lo { lo } else if v > hi { hi } else { v }
}

/// The settings with every value brought into its working range: the click
/// pause into 50..=3000 ms, the cursor landmark onto an existing landmark,
/// and the two frame counts up to at least one.
pub open spec fn sanitized_limits(l: TrackingLimits) -> TrackingLimits {
    TrackingLimits {
        detection_warmup_frames: if l.detection_warmup_frames < 1 { 1 } else { l.detection_warmup_frames },
        lost_to_reset_roi: if l.lost_to_reset_roi < 1 { 1 } else { l.lost_to_reset_roi },
        click_cooldown_ms: clamp_u32(l.click_cooldown_ms, 50, 3000),
        index_finger_tip: if l.index_finger_tip > (LANDMARK_COUNT - 1) as usize {
            (LANDMARK_COUNT - 1) as usize
        } else {
            l.index_finger_tip
        },
    }
}

/// The settings are all within their working ranges.
pub open spec fn limits_in_range(l: TrackingLimits) -> bool {
    &&& l.detection_warmup_frames >= 1
    &&& l.lost_to_reset_roi >= 1
    &&& 50 <= l.click_cooldown_ms <= 3000
    &&& l.index_finger_tip < LANDMARK_COUNT
}

/// Brings every setting into its working range.
pub fn sanitize_tracking_limits(limits: TrackingLimits) -> (r: TrackingLimits)
    ensures
        r == sanitized_limits(limits),
        limits_in_range(r),
{
    let mut l = limits;
    l.click_cooldown_ms = if l.click_cooldown_ms < 50 {
        50
    } else if l.click_cooldown_ms > 3000 {
        3000
    } else {
        l.click_cooldown_ms
    };
    let last = LANDMARK_COUNT.saturating_sub(1);
    if l.index_finger_tip > last {
        l.index_finger_tip = last;
    }
    if l.detection_warmup_frames < 1 {
        l.detection_warmup_frames = 1;
    }
    if l.lost_to_reset_roi < 1 {
        l.lost_to_reset_roi = 1;
    }
    l
}

/// Sanitizing leaves settings that are already in range as they are, and so
/// sanitizing twice is sanitizing once; the defaults are in range.
pub proof fn lemma_sanitize_fixed_point(l: TrackingLimits)
    ensures
        limits_in_range(l) ==> sanitized_limits(l) == l,
        sanitized_limits(sanitized_limits(l)) == sanitized_limits(l),
        limits_in_range(default_limits()),
{
}

/// Declares `std::path::PathBuf` to the verifier as an opaque type: paths are
/// only carried through, never looked into.
#[verifier::external_type_specification]
#[verifier::external_body]
pub struct ExPathBuf(PathBuf);

/// Calls `dirs::config_dir`: the user's configuration directory
/// (`$XDG_CONFIG_HOME` or `$HOME/.config` on Linux, the roaming application
/// data folder on Windows, `~/Library/Application Support` on macOS), or
/// `None` when it cannot be determined.  The answer depends on the
/// environment, so nothing is claimed of it.
#[verifier::external_body]
fn user_config_dir() -> (r: Option<PathBuf>) {
    dirs::config_dir()
}

/// Why the settings file cannot be located.
#[derive(Clone, Copy, Debug, PartialEq, Eq, Structural)]
pub enum ConfigError {
    /// The user's configuration directory is unknown.
    ConfigDirUnavailable,
}

/// Where the settings of an application are kept: the file
/// `CONFIG_FILE_NAME` in the directory `app_name` of the user's
/// configuration directory.
#[derive(Debug)]
pub struct ConfigStore {
    pub config_dir: PathBuf,
    pub app_name: String,
}

impl ConfigStore {
    /// The settings location of `app_name`, in the user's configuration
    /// directory.  Whether that directory is known depends on the environment
    /// (see `user_config_dir`), so success is not promised here; given the
    /// directory, `in_config_dir` states the result exactly.
    pub fn new(app_name: &str) -> (r: Result<ConfigStore, ConfigError>)
        ensures
            r matches Ok(store) ==> store.app_name@ == app_name@,
            r matches Err(e) ==> e == ConfigError::ConfigDirUnavailable,
    {
        let dir = user_config_dir();
        ConfigStore::in_config_dir(dir, app_name)
    }

    /// The settings location of `app_name` inside `config_dir`, refused when
    /// there is no configuration directory.
    pub fn in_config_dir(config_dir: Option<PathBuf>, app_name: &str) -> (r: Result<ConfigStore, ConfigError>)
        ensures
            match config_dir {
                None => r == Err::<ConfigStore, ConfigError>(ConfigError::ConfigDirUnavailable),
                Some(dir) => r matches Ok(store) && store.config_dir == dir && store.app_name@ == app_name@,
            },
    {
        match config_dir {
            None => Err(ConfigError::ConfigDirUnavailable),
            Some(dir) => Ok(ConfigStore { config_dir: dir, app_name: app_name.to_owned() }),
        }
    }
}

} // verus!
