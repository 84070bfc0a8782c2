//! The per-task stack of active query frames.
//!
//! A frame is pushed while a cell's compute runs; it collects the dependency
//! edges recorded by nested queries and lets a synchronous re-entry of the
//! same identity be recognised as a cycle. The stack itself is plain data:
//! the shell keeps one per task and hands it to these functions.

use vstd::prelude::*;
use crate::error::PicanteError;
use crate::key::{Dep, DynKey};
use crate::revision::Revision;

verus! {

/// One active query: the identity being computed, the revision it started
/// at, and the dependency edges recorded so far, in insertion order.
#[derive(Debug)]
pub struct Frame {
    /// The identity being computed.
    pub requested: DynKey,
    /// The revision the computation started at.
    pub started_at: Revision,
    /// Dependency edges recorded while this frame was innermost, in order.
    pub deps: Vec<Dep>,
}

impl Frame {
    /// A frame with no recorded dependencies yet.
    pub fn new(requested: DynKey, started_at: Revision) -> (r: Frame)
        ensures
            r.requested@ == requested@,
            r.started_at == started_at,
            r.deps@ =~= Seq::<Dep>::empty(),
    {
        Frame { requested, started_at, deps: Vec::new() }
    }

    /// Remove and return the recorded dependencies, in insertion order.
    pub fn take_deps(self) -> (r: Vec<Dep>)
        ensures
            r == self.deps,
    {
        self.deps
    }
}

/// True when some frame on `frames` has the identity `requested`.
pub open spec fn spec_has_cycle(frames: Seq<Frame>, requested: DynKey) -> bool {
    exists|i: int| 0 <= i < frames.len() && frames[i].requested@ == requested@
}

/// Exactly one dependency edge was appended to the innermost frame's
/// list — or, when the task had no frame, nothing changed.
pub open spec fn spec_recorded_dep(pre: Seq<Frame>, post: Seq<Frame>, dep: (u32, Seq<u8>)) -> bool {
    if pre.len() == 0 {
        post == pre
    } else {
        &&& post.len() == pre.len()
        &&& (forall|i: int| 0 <= i < pre.len() - 1 ==> post[i] == pre[i])
        &&& post.last().requested@ == pre.last().requested@
        &&& post.last().started_at == pre.last().started_at
        &&& post.last().deps@.len() == pre.last().deps@.len() + 1
        &&& (forall|i: int|
            0 <= i < pre.last().deps@.len() ==> post.last().deps@[i] == pre.last().deps@[i])
        &&& post.last().deps@.last()@ == dep
    }
}

/// A task's stack of active frames, root first.
#[derive(Debug)]
pub struct FrameStack {
    /// The active frames, root first; the last one is innermost.
    pub frames: Vec<Frame>,
}

impl FrameStack {
    /// An empty stack: the task is not computing anything.
    pub fn new() -> (r: FrameStack)
        ensures
            r.frames@ =~= Seq::<Frame>::empty(),
    {
        FrameStack { frames: Vec::new() }
    }

    /// Whether the task currently has any active frame.
    pub fn has_active_frame(&self) -> (r: bool)
        ensures
            r == (self.frames@.len() > 0),
    {
        self.frames.len() > 0
    }

    /// Push a frame; it becomes the innermost one.
    pub fn push_frame(&mut self, frame: Frame)
        ensures
            final(self).frames@ == old(self).frames@.push(frame),
    {
        self.frames.push(frame);
    }

    /// Pop the innermost frame, if any.
    pub fn pop_frame(&mut self) -> (r: Option<Frame>)
        ensures
            old(self).frames@.len() == 0 ==> {
                &&& r is None
                &&& final(self).frames@ == old(self).frames@
            },
            old(self).frames@.len() > 0 ==> {
                &&& r == Some(old(self).frames@.last())
                &&& final(self).frames@ == old(self).frames@.drop_last()
            },
    {
        self.frames.pop()
    }

    /// Append a dependency edge to the innermost frame's list; a no-op when
    /// the task has no active frame.
    pub fn record_dep(&mut self, dep: Dep)
        ensures
            spec_recorded_dep(old(self).frames@, final(self).frames@, dep@),
            old(self).frames@.len() == 0 ==> final(self).frames@ == old(self).frames@,
            old(self).frames@.len() > 0 ==> {
                &&& final(self).frames@.len() == old(self).frames@.len()
                &&& forall|i: int|
                    0 <= i < old(self).frames@.len() - 1 ==> final(self).frames@[i]
                        == old(self).frames@[i]
                &&& final(self).frames@.last().requested@ == old(self).frames@.last().requested@
                &&& final(self).frames@.last().started_at == old(self).frames@.last().started_at
                &&& final(self).frames@.last().deps@ == old(self).frames@.last().deps@.push(dep)
            },
    {
        let popped = self.frames.pop();
        match popped {
            Some(mut frame) => {
                frame.deps.push(dep);
                self.frames.push(frame);
            },
            None => {},
        }
    }

    /// Scan the stack for a frame with the identity `requested`; when one is
    /// found, return a snapshot of the whole stack's identities, root first.
    pub fn find_cycle(&self, requested: &DynKey) -> (r: Option<Vec<DynKey>>)
        ensures
            match r {
                Some(stack) => {
                    &&& spec_has_cycle(self.frames@, *requested)
                    &&& stack@.len() == self.frames@.len()
                    &&& forall|i: int|
                        0 <= i < stack@.len() ==> stack@[i]@ == self.frames@[i].requested@
                },
                None => !spec_has_cycle(self.frames@, *requested),
            },
    {
        let n = self.frames.len();
        let mut found = false;
        let mut i: usize = 0;
        while i < n
            invariant
                n == self.frames@.len(),
                i <= n,
                found ==> spec_has_cycle(self.frames@, *requested),
                !found ==> forall|j: int|
                    0 <= j < i ==> self.frames@[j].requested@ != requested@,
            decreases n - i,
        {
            if !found && self.frames[i].requested == *requested {
                found = true;
            }
            i = i + 1;
        }
        if !found {
            return None;
        }
        let mut stack: Vec<DynKey> = Vec::new();
        let mut k: usize = 0;
        while k < n
            invariant
                n == self.frames@.len(),
                k <= n,
                stack@.len() == k,
                forall|i: int| 0 <= i < k ==> stack@[i]@ == self.frames@[i].requested@,
            decreases n - k,
        {
            stack.push(self.frames[k].requested.clone());
            k = k + 1;
        }
        Some(stack)
    }

    /// The first steps of a query: fail with `Cycle` when `requested` is
    /// already being computed by one of the task's frames; otherwise a
    /// dependency edge on `requested` is appended to the innermost frame,
    /// when there is one.
    ///
    /// Cycle errors bypass the cell entirely and are never cached.
    pub fn prepare_query(&mut self, requested: &DynKey) -> (r: Result<(), PicanteError>)
        ensures
            spec_has_cycle(old(self).frames@, *requested) ==> {
                &&& final(self).frames@ == old(self).frames@
                &&& match r {
                    Err(PicanteError::Cycle { requested: rq, stack }) => {
                        &&& rq@ == requested@
                        &&& stack@.len() == old(self).frames@.len()
                        &&& forall|i: int|
                            0 <= i < stack@.len() ==> stack@[i]@ == old(self).frames@[i].requested@
                    },
                    _ => false,
                }
            },
            !spec_has_cycle(old(self).frames@, *requested) ==> {
                &&& r is Ok
                &&& old(self).frames@.len() == 0 ==> final(self).frames@ == old(self).frames@
                &&& old(self).frames@.len() > 0 ==> {
                    &&& final(self).frames@.len() == old(self).frames@.len()
                    &&& forall|i: int|
                        0 <= i < old(self).frames@.len() - 1 ==> final(self).frames@[i]
                            == old(self).frames@[i]
                    &&& final(self).frames@.last().requested@ == old(self).frames@.last().requested@
                    &&& final(self).frames@.last().started_at == old(self).frames@.last().started_at
                    &&& final(self).frames@.last().deps@.len() == old(self).frames@.last().deps@.len() + 1
                    &&& forall|i: int|
                        0 <= i < old(self).frames@.last().deps@.len() ==> final(self).frames@.last().deps@[i] == old(self).frames@.last().deps@[i]
                    &&& final(self).frames@.last().deps@.last()@ == requested@
                }
            },
    {
        if let Some(stack) = self.find_cycle(requested) {
            return Err(PicanteError::Cycle { requested: requested.clone(), stack });
        }
        if self.has_active_frame() {
            self.record_dep(Dep { kind: requested.kind, key: requested.key.clone() });
        }
        Ok(())
    }
}

} // verus!
