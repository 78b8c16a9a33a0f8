//! The task supervisor's registry of named long-running workers: one live
//! worker per label; starting a label again stops and replaces the old one.

use vstd::prelude::*;

use crate::amap::{lookup, AssocMap};

verus! {

/// The labels of the workers currently running.
pub struct TaskRegistry {
    pub running: AssocMap<String, bool>,
}

impl TaskRegistry {
    pub fn new() -> (r: TaskRegistry)
        ensures
            r.running@ == Seq::<(Seq<char>, bool)>::empty(),
    {
        TaskRegistry { running: AssocMap::new() }
    }

    /// Whether a live worker with this label exists.
    pub fn has_task(&self, name: &String) -> (r: bool)
        ensures
            r == (lookup(self.running@, name@) is Some),
    {
        self.running.contains(name)
    }

    /// Record that a worker with this label starts. The result says whether
    /// an old worker held the label: the caller must then send it the
    /// one-shot stop signal before handing the label over.
    pub fn start(&mut self, label: &String) -> (replaced: bool)
        ensures
            replaced == (lookup(old(self).running@, label@) is Some),
            final(self).running@ == old(self).running@.push((label@, true)),
    {
        let replaced = self.running.contains(label);
        self.running.insert(label.clone(), true);
        replaced
    }

    /// Record that the worker with this label finished.
    pub fn finish(&mut self, label: &String)
        ensures
            final(self).running@ == crate::amap::removed(old(self).running@, label@),
    {
        self.running.remove_key(label);
    }
}

/// Whether a job with this label has been registered.
pub fn has_job(registry: &TaskRegistry, name: &String) -> (r: bool)
    ensures
        r == (lookup(registry.running@, name@) is Some),
{
    registry.has_task(name)
}

} // verus!
