//! The space registry: the current-space pointer and the decisions behind
//! switching, creating and removing spaces. Whether a backing file exists,
//! was created or was deleted is reported by the caller, which does the
//! actual file work; the decisions here are what is verified.

use vstd::prelude::*;
use crate::text::{Answer, trim_spec, resolve_current_space};

verus! {

/// How removing a space ended.
#[derive(Clone, Copy, PartialEq, Eq, Structural, Debug)]
pub enum RemoveOutcome {
    /// The confirmation answer was not `yes`: nothing was touched.
    Aborted,
    /// Deleting the backing file failed: the pointer is unchanged.
    Failed,
    /// The space is gone and the current space is `default` again.
    Removed,
}

/// What removing a space does, given the confirmation answer and whether
/// the backing file could be deleted.
pub open spec fn remove_outcome(answer: Answer, file_deleted: bool) -> RemoveOutcome {
    if answer != Answer::Yes {
        RemoveOutcome::Aborted
    } else if file_deleted {
        RemoveOutcome::Removed
    } else {
        RemoveOutcome::Failed
    }
}

/// The current-space pointer.
pub struct Registry {
    current: String,
}

impl View for Registry {
    type V = Seq<char>;

    closed spec fn view(&self) -> Seq<char> {
        self.current@
    }
}

impl Registry {
    /// The registry read from the pointer file's content: its trimmed text,
    /// or `default` when the file was absent or unreadable.
    pub fn from_pointer(content: Option<&String>) -> (r: Self)
        ensures
            content is None ==> r@ == "default"@,
            content matches Some(c) ==> r@ == trim_spec(c@),
    {
        Registry { current: resolve_current_space(content) }
    }

    /// The name of the current space.
    pub fn current(&self) -> (r: &String)
        ensures
            r@ == self@,
    {
        &self.current
    }

    /// Switches to `name`, which succeeds exactly when the space's backing
    /// file exists; a failed switch leaves the pointer unchanged.
    pub fn switch(&mut self, name: &str, space_exists: bool) -> (ok: bool)
        ensures
            ok == space_exists,
            ok ==> final(self)@ == name@,
            !ok ==> final(self)@ == old(self)@,
    {
        if space_exists {
            self.current = name.to_owned();
            true
        } else {
            false
        }
    }

    /// Creates a space and switches to it, which succeeds exactly when the
    /// empty backing file could be created.
    pub fn create(&mut self, name: &str, file_created: bool) -> (ok: bool)
        ensures
            ok == file_created,
            ok ==> final(self)@ == name@,
            !ok ==> final(self)@ == old(self)@,
    {
        if file_created {
            self.current = name.to_owned();
            true
        } else {
            false
        }
    }

    /// Removes a space: only a `yes` answer lets the deletion go ahead, and
    /// a successful removal resets the current space to `default`, whether
    /// or not a `default` backing file exists.
    pub fn remove(&mut self, answer: Answer, file_deleted: bool) -> (r: RemoveOutcome)
        ensures
            r == remove_outcome(answer, file_deleted),
            r == RemoveOutcome::Removed ==> final(self)@ == "default"@,
            r != RemoveOutcome::Removed ==> final(self)@ == old(self)@,
    {
        match answer {
            Answer::Yes => {
                if file_deleted {
                    self.current = "default".to_owned();
                    RemoveOutcome::Removed
                } else {
                    RemoveOutcome::Failed
                }
            },
            _ => RemoveOutcome::Aborted,
        }
    }
}

} // verus!
