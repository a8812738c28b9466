//! Durable key/value store for process-wide flags.
//!
//! Two keys matter to the scheduling core: the queue-paused flag and the
//! last-seen change-stream cursor. Values are stored as written; the cursor
//! is validated only when it is read back as a reference.

use vstd::prelude::*;

verus! {

/// The durable configuration store, one optional slot per known key.
///
/// A key that was never written reads back as `None`; readers apply their
/// own defaults. The two keys are independent rows: writing one never
/// touches the other.
#[derive(Debug)]
pub struct ConfigStore {
    pub queue_locked: Option<bool>,
    pub last_seen_reference: Option<String>,
}

/// Abstract contents of the store.
pub struct ConfigView {
    pub queue_locked: Option<bool>,
    pub last_seen_reference: Option<Seq<char>>,
}

impl View for ConfigStore {
    type V = ConfigView;

    open spec fn view(&self) -> ConfigView {
        ConfigView {
            queue_locked: self.queue_locked,
            last_seen_reference: match self.last_seen_reference {
                Some(s) => Some(s@),
                None => None,
            },
        }
    }
}

impl ConfigStore {
    /// A store in which no key has ever been written.
    pub fn new() -> (c: ConfigStore)
        ensures
            c@.queue_locked is None,
            c@.last_seen_reference is None,
    {
        ConfigStore { queue_locked: None, last_seen_reference: None }
    }

    /// Reads the queue-paused flag; `None` when it was never written.
    pub fn get_queue_locked(&self) -> (r: Option<bool>)
        ensures
            r == self@.queue_locked,
    {
        self.queue_locked
    }

    /// Writes the queue-paused flag, leaving the cursor untouched.
    pub fn set_queue_locked(&mut self, v: bool)
        ensures
            final(self)@.queue_locked == Some(v),
            final(self)@.last_seen_reference == old(self)@.last_seen_reference,
    {
        self.queue_locked = Some(v);
    }

    /// Reads the stored cursor value; `None` when it was never written.
    pub fn get_last_seen_reference(&self) -> (r: &Option<String>)
        ensures
            (*r is Some) == (self@.last_seen_reference is Some),
            r matches Some(s) ==> self@.last_seen_reference == Some(s@),
    {
        &self.last_seen_reference
    }

    /// Writes a raw cursor value, leaving the paused flag untouched.
    ///
    /// The value is stored as given; whether it parses back into a valid
    /// reference is the reader's concern.
    pub fn set_last_seen_reference(&mut self, v: String)
        ensures
            final(self)@.last_seen_reference == Some(v@),
            final(self)@.queue_locked == old(self)@.queue_locked,
    {
        self.last_seen_reference = Some(v);
    }
}

} // verus!
