//! The preferences record: two flags, persisted write-through.
//!
//! The record itself performs no I/O: it is built from a [`LoadOutcome`]
//! the caller got from the preferences file, and after every change the
//! caller writes [`Config::to_document`] back out.

use vstd::prelude::*;

use crate::codec;
use crate::history::LoadOutcome;

verus! {

/// The two persisted preferences: whether long entries are shortened for
/// display, and whether the history is written to disk.
pub struct Config {
    trim_clips: bool,
    save_history: bool,
}

impl Config {
    /// Whether long entries are shortened for display.
    pub closed spec fn trim_clips(&self) -> bool {
        self.trim_clips
    }

    /// Whether the history is persisted to disk.
    pub closed spec fn save_history(&self) -> bool {
        self.save_history
    }

    /// The record a fresh install starts from: both flags on.
    pub fn enabled_defaults() -> (c: Config)
        ensures
            c.trim_clips(),
            c.save_history(),
    {
        Config { trim_clips: true, save_history: true }
    }

    /// What a read of the preferences file yields.  A file that is
    /// missing, or present but not a preferences document, gives the
    /// enabled defaults; a file that could not be read for any other
    /// reason gives both flags off, so that a broken installation
    /// neither shortens nor writes anything.
    pub fn from_load(outcome: LoadOutcome) -> (c: Config)
        ensures
            outcome matches LoadOutcome::Found(text) ==> {
                match codec::d_config(text@) {
                    Some((t, s)) => c.trim_clips() == t && c.save_history() == s,
                    None => c.trim_clips() && c.save_history(),
                }
            },
            outcome is Missing ==> c.trim_clips() && c.save_history(),
            outcome is Failed ==> !c.trim_clips() && !c.save_history(),
    {
        match outcome {
            LoadOutcome::Found(text) => {
                match codec::parse_config(text.as_str()) {
                    Some((trim_clips, save_history)) => Config { trim_clips, save_history },
                    None => Config { trim_clips: true, save_history: true },
                }
            },
            LoadOutcome::Missing => Config { trim_clips: true, save_history: true },
            LoadOutcome::Failed => Config { trim_clips: false, save_history: false },
        }
    }

    /// Whether long entries are shortened for display.
    pub fn get_trim_clips(&self) -> (r: bool)
        ensures
            r == self.trim_clips(),
    {
        self.trim_clips
    }

    /// Turns display shortening on or off.  The caller must write
    /// [`Self::to_document`] out afterwards: every change is persisted
    /// at once.
    pub fn set_trim_clips(&mut self, trim_clips: bool)
        ensures
            final(self).trim_clips() == trim_clips,
            final(self).save_history() == old(self).save_history(),
    {
        self.trim_clips = trim_clips;
    }

    /// Whether the history is persisted to disk.
    pub fn get_save_history(&self) -> (r: bool)
        ensures
            r == self.save_history(),
    {
        self.save_history
    }

    /// Turns history persistence on or off.  The caller must write
    /// [`Self::to_document`] out afterwards: every change is persisted
    /// at once.
    pub fn set_save_history(&mut self, save_history: bool)
        ensures
            final(self).save_history() == save_history,
            final(self).trim_clips() == old(self).trim_clips(),
    {
        self.save_history = save_history;
    }

    /// The preferences document holding the current flags, ready to be
    /// written to the preferences file.
    pub fn to_document(&self) -> (s: String)
        ensures
            s@ == codec::encode_config_seq(self.trim_clips(), self.save_history()),
    {
        codec::config_document(self.trim_clips, self.save_history)
    }
}

} // verus!
