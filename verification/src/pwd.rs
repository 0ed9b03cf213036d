//! The working-directory snapshot read by the prompt.

use vstd::prelude::*;

verus! {

/// The current and the previous absolute path.  Only the external
/// change-directory collaborator writes the pair; the render logic reads
/// the current path for the prompt.
#[derive(Debug, Clone)]
pub struct PwdState {
    current_dir: String,
    old_dir: String,
}

impl PwdState {
    /// The characters of the current path.
    pub closed spec fn current(&self) -> Seq<char> {
        self.current_dir@
    }

    /// The characters of the previous path.
    pub closed spec fn previous(&self) -> Seq<char> {
        self.old_dir@
    }

    pub fn new(current_dir: String, old_dir: String) -> (r: Self)
        ensures
            r.current() == current_dir@,
            r.previous() == old_dir@,
    {
        PwdState { current_dir, old_dir }
    }

    /// Replaces both paths at once.
    pub fn set_states(&mut self, new_current: String, new_old: String)
        ensures
            final(self).current() == new_current@,
            final(self).previous() == new_old@,
    {
        self.current_dir = new_current;
        self.old_dir = new_old;
    }

    pub fn get_current_dir(&self) -> (r: String)
        ensures
            r@ == self.current(),
    {
        self.current_dir.clone()
    }

    pub fn get_old_dir(&self) -> (r: String)
        ensures
            r@ == self.previous(),
    {
        self.old_dir.clone()
    }
}

} // verus!
