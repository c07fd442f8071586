//! The user's settings. A file that is missing or broken gives the defaults:
//! the settings never keep the program from starting.

use vstd::prelude::*;
use crate::text::followed;
use crate::paths::{self, Platform};

verus! {

#[derive(Clone, Debug)]
pub struct Settings {
    /// Where files go; the default place where there is none.
    pub out_dir: Option<String>,
    /// The height of the picture in pixels that is not to be exceeded.
    pub max_height: Option<u32>,
    /// How many downloads run at a time.
    pub concurrency: usize,
    /// The browser whose session is used.
    pub cookies_from: Option<String>,
    /// The browser to start; found by itself where there is none.
    pub browser_path: Option<String>,
    /// The limit of a recording in seconds.
    pub record_max_secs: u64,
    /// The sound when the queue is done.
    pub chime: Chime,
}

#[derive(Clone, Debug)]
pub struct Chime {
    pub enabled: bool,
    /// A sound file; the built-in sound where there is none.
    pub file: Option<String>,
}

impl Chime {
    pub open spec fn is_default(self) -> bool {
        self.enabled && self.file is None
    }
}

impl Settings {
    pub open spec fn is_default(self) -> bool {
        &&& self.out_dir is None
        &&& self.max_height is None
        &&& self.concurrency == 3
        &&& self.cookies_from is None
        &&& self.browser_path is None
        &&& self.record_max_secs == 3 * 3600
        &&& self.chime.is_default()
    }
}

impl Default for Chime {
    fn default() -> (r: Chime)
        ensures
            r.is_default(),
    {
        Chime { enabled: true, file: None }
    }
}

impl Default for Settings {
    fn default() -> (r: Settings)
        ensures
            r.is_default(),
    {
        Settings {
            out_dir: None,
            max_height: None,
            concurrency: 3,
            cookies_from: None,
            browser_path: None,
            record_max_secs: 3 * 3600,
            chime: Chime::default(),
        }
    }
}

impl Settings {
    /// The settings that were read, or the defaults where they could not be.
    pub fn load(stored: Option<Settings>) -> (r: Settings)
        ensures
            match stored {
                Some(s) => r == s,
                None => r.is_default(),
            },
    {
        match stored {
            Some(s) => s,
            None => Settings::default(),
        }
    }

    /// Where the settings are kept, given the program's own directory.
    pub fn path_in(platform: Platform, app_dir: &str) -> (r: String)
        ensures
            r@ == paths::joined(platform, app_dir@, "settings.json"@),
    {
        paths::join(platform, app_dir, "settings.json")
    }
}

/// What holds where the user has set nothing: any height, three downloads at a time,
/// recordings of three hours at most, and the built-in sound at the end.
pub proof fn law_unset_settings(s: Settings)
    requires
        s.is_default(),
    ensures
        s.out_dir is None && s.max_height is None && s.cookies_from is None && s.browser_path is None,
        s.concurrency == 3,
        s.record_max_secs == 10_800,
        s.chime.enabled && s.chime.file is None,
{
}

} // verus!
