use vstd::prelude::*;

use crate::entry::{Entry, ErrorKind, FileType};
use crate::filtering::Filtering;

verus! {

/// What the driver of a traversal must do before the next step.
///
/// The walker never touches the filesystem itself: each action names one
/// blocking (or suspending) operation for the driver to perform on its own
/// stack of open directory-listing handles, whose length always equals the
/// walker's current depth.
pub enum Action {
    /// Open the listing of the root directory and, on success, push the
    /// handle onto the (empty) handle stack.
    OpenRoot,
    /// Read the next raw member from the top (deepest) listing handle,
    /// popping that handle first if it is exhausted.
    ReadTop,
    /// Resolve the file-type classification of the member just read.
    Classify,
    /// Ask the filtering participant for its verdict on the pending entry;
    /// when no filter is attached, the driver answers `Continue`.
    RunFilter,
    /// Open the listing of the pending directory entry and, on success, push
    /// the handle onto the handle stack.
    OpenSubdir,
}

/// What the driver reports back to the walker.
///
/// Each variant answers exactly one [`Action`]; `Pull` is the consumer asking
/// for the next item of the sequence.
pub enum Event {
    /// The consumer pulls the next item.
    Pull,
    /// Answer to [`Action::OpenRoot`]: whether the root listing was opened.
    RootOpened(Result<(), ErrorKind>),
    /// Answer to [`Action::ReadTop`]: `None` when the top listing was
    /// exhausted (and its handle popped), otherwise the next raw member's
    /// path components relative to the root, or the error reading it.
    TopRead(Option<Result<Vec<String>, ErrorKind>>),
    /// Answer to [`Action::Classify`]: the classification of the pending
    /// member, or the error resolving it.
    Classified(Result<FileType, ErrorKind>),
    /// Answer to [`Action::RunFilter`]: the filtering verdict.
    Verdict(Filtering),
    /// Answer to [`Action::OpenSubdir`]: whether the pending directory's
    /// listing was opened and pushed.
    SubdirOpened(Result<(), ErrorKind>),
}

/// The result of one step of the walker.
pub enum Outcome {
    /// Perform this action and report back before anything is yielded.
    Do(Action),
    /// Yield this entry to the consumer as the next item of the sequence.
    Item(Entry),
    /// Yield this error to the consumer as the next item of the sequence.
    Error(ErrorKind),
    /// The sequence is exhausted; every later pull answers the same.
    Finished,
}

/// The traversal state machine.
///
/// It advances monotonically from `Start` through the walking states to
/// `Done` and is never resumed afterwards: one value models one traversal
/// session. The `depth` carried by the walking states equals the number of
/// open listing handles held by the driver (1 is the root's own listing).
pub enum Walker {
    /// Not started: no filesystem call has been made yet.
    Start,
    /// The root listing is being opened.
    AwaitRoot,
    /// Between two pulls, with `depth` listings open.
    Idle {
        /// Number of open listing handles.
        depth: usize,
    },
    /// The top listing is being read.
    AwaitRead {
        /// Number of open listing handles.
        depth: usize,
    },
    /// The member at `path` was read and is being classified.
    AwaitClassify {
        /// Number of open listing handles.
        depth: usize,
        /// Path components, relative to the root, of the pending member.
        path: Vec<String>,
    },
    /// The pending entry is classified and the filter is being consulted.
    AwaitVerdict {
        /// Number of open listing handles.
        depth: usize,
        /// The pending entry.
        entry: Entry,
    },
    /// The pending entry is a directory to descend into and its listing is
    /// being opened.
    AwaitSubdir {
        /// Number of open listing handles.
        depth: usize,
        /// The pending entry.
        entry: Entry,
        /// Whether the verdict was `Continue`, so the entry is yielded once
        /// the listing is opened (`Ignore` descends without yielding).
        yield_entry: bool,
    },
    /// The traversal is over; every pull answers `Finished`.
    Done,
}

/// Which event a walker state awaits: the machine consumes exactly the
/// answer to the action it last issued, or a pull when it is between items.
pub open spec fn expects(s: Walker, ev: Event) -> bool {
    match s {
        Walker::Start => ev is Pull,
        Walker::AwaitRoot => ev is RootOpened,
        Walker::Idle { .. } => ev is Pull,
        Walker::AwaitRead { .. } => ev is TopRead,
        Walker::AwaitClassify { .. } => ev is Classified,
        Walker::AwaitVerdict { .. } => ev is Verdict,
        Walker::AwaitSubdir { .. } => ev is SubdirOpened,
        Walker::Done => ev is Pull,
    }
}

/// Well-formedness of a walker state: while walking, at least the root
/// listing is open.
pub open spec fn wf(s: Walker) -> bool {
    match s {
        Walker::Idle { depth } => depth >= 1,
        Walker::AwaitRead { depth } => depth >= 1,
        Walker::AwaitClassify { depth, .. } => depth >= 1,
        Walker::AwaitVerdict { depth, .. } => depth >= 1,
        Walker::AwaitSubdir { depth, .. } => depth >= 1,
        _ => true,
    }
}

/// The transition relation of the traversal: from a state and the event it
/// awaits, the successor state and the outcome of the step.
///
/// This is the whole walking policy in one place: errors are surfaced as
/// items without losing the stack (except a failure to open the root, which
/// ends the session), an exhausted listing backtracks to its parent,
/// classified entries are filtered, and a directory whose verdict is not
/// `IgnoreDir` is descended into before its remaining siblings.
pub open spec fn step_spec(s: Walker, ev: Event) -> (Walker, Outcome) {
    match (s, ev) {
        (Walker::Start, Event::Pull) => (Walker::AwaitRoot, Outcome::Do(Action::OpenRoot)),
        (Walker::AwaitRoot, Event::RootOpened(r)) => match r {
            Result::Ok(()) => (Walker::AwaitRead { depth: 1 }, Outcome::Do(Action::ReadTop)),
            Result::Err(k) => (Walker::Done, Outcome::Error(k)),
        },
        (Walker::Idle { depth }, Event::Pull) => (
            Walker::AwaitRead { depth },
            Outcome::Do(Action::ReadTop),
        ),
        (Walker::AwaitRead { depth }, Event::TopRead(r)) => match r {
            Option::None => if depth <= 1 {
                (Walker::Done, Outcome::Finished)
            } else {
                (Walker::AwaitRead { depth: (depth - 1) as usize }, Outcome::Do(Action::ReadTop))
            },
            Option::Some(Result::Err(k)) => (Walker::Idle { depth }, Outcome::Error(k)),
            Option::Some(Result::Ok(path)) => (
                Walker::AwaitClassify { depth, path },
                Outcome::Do(Action::Classify),
            ),
        },
        (Walker::AwaitClassify { depth, path }, Event::Classified(r)) => match r {
            Result::Err(k) => (Walker::Idle { depth }, Outcome::Error(k)),
            Result::Ok(kind) => (
                Walker::AwaitVerdict { depth, entry: Entry { path, kind } },
                Outcome::Do(Action::RunFilter),
            ),
        },
        (Walker::AwaitVerdict { depth, entry }, Event::Verdict(v)) => {
            if entry.kind == FileType::Dir && v != Filtering::IgnoreDir {
                (
                    Walker::AwaitSubdir {
                        depth,
                        entry,
                        yield_entry: v == Filtering::Continue,
                    },
                    Outcome::Do(Action::OpenSubdir),
                )
            } else if v == Filtering::Continue {
                (Walker::Idle { depth }, Outcome::Item(entry))
            } else {
                (Walker::AwaitRead { depth }, Outcome::Do(Action::ReadTop))
            }
        },
        (Walker::AwaitSubdir { depth, entry, yield_entry }, Event::SubdirOpened(r)) => match r {
            Result::Err(k) => (Walker::Idle { depth }, Outcome::Error(k)),
            Result::Ok(()) => if yield_entry {
                (Walker::Idle { depth: (depth + 1) as usize }, Outcome::Item(entry))
            } else {
                (
                    Walker::AwaitRead { depth: (depth + 1) as usize },
                    Outcome::Do(Action::ReadTop),
                )
            },
        },
        (Walker::Done, Event::Pull) => (Walker::Done, Outcome::Finished),
        _ => (Walker::Done, Outcome::Finished),
    }
}

impl Walker {
    /// A fresh traversal session that has not touched the filesystem.
    pub fn new() -> (w: Walker)
        ensures
            w == (Walker::Start),
            wf(w),
    {
        Walker::Start
    }

    /// Advances the traversal by one step.
    ///
    /// The driver feeds the event the current state awaits and performs the
    /// action of the outcome (or hands an `Item`, `Error` or `Finished` to
    /// the consumer). The new state and the outcome are exactly those of the
    /// transition relation [`step_spec`].
    pub fn step(self, ev: Event) -> (r: (Walker, Outcome))
        requires
            wf(self),
            expects(self, ev),
            self matches Walker::AwaitSubdir { depth, .. } ==> depth < usize::MAX,
        ensures
            r == step_spec(self, ev),
            wf(r.0),
    {
        match (self, ev) {
            (Walker::Start, Event::Pull) => (Walker::AwaitRoot, Outcome::Do(Action::OpenRoot)),
            (Walker::AwaitRoot, Event::RootOpened(r)) => match r {
                Result::Ok(()) => (Walker::AwaitRead { depth: 1 }, Outcome::Do(Action::ReadTop)),
                Result::Err(k) => (Walker::Done, Outcome::Error(k)),
            },
            (Walker::Idle { depth }, Event::Pull) => (
                Walker::AwaitRead { depth },
                Outcome::Do(Action::ReadTop),
            ),
            (Walker::AwaitRead { depth }, Event::TopRead(r)) => match r {
                Option::None => if depth <= 1 {
                    (Walker::Done, Outcome::Finished)
                } else {
                    (Walker::AwaitRead { depth: depth - 1 }, Outcome::Do(Action::ReadTop))
                },
                Option::Some(Result::Err(k)) => (Walker::Idle { depth }, Outcome::Error(k)),
                Option::Some(Result::Ok(path)) => (
                    Walker::AwaitClassify { depth, path },
                    Outcome::Do(Action::Classify),
                ),
            },
            (Walker::AwaitClassify { depth, path }, Event::Classified(r)) => match r {
                Result::Err(k) => (Walker::Idle { depth }, Outcome::Error(k)),
                Result::Ok(kind) => (
                    Walker::AwaitVerdict { depth, entry: Entry { path, kind } },
                    Outcome::Do(Action::RunFilter),
                ),
            },
            (Walker::AwaitVerdict { depth, entry }, Event::Verdict(v)) => {
                if entry.kind == FileType::Dir && v != Filtering::IgnoreDir {
                    (
                        Walker::AwaitSubdir {
                            depth,
                            entry,
                            yield_entry: v == Filtering::Continue,
                        },
                        Outcome::Do(Action::OpenSubdir),
                    )
                } else if v == Filtering::Continue {
                    (Walker::Idle { depth }, Outcome::Item(entry))
                } else {
                    (Walker::AwaitRead { depth }, Outcome::Do(Action::ReadTop))
                }
            },
            (Walker::AwaitSubdir { depth, entry, yield_entry }, Event::SubdirOpened(r)) => {
                match r {
                    Result::Err(k) => (Walker::Idle { depth }, Outcome::Error(k)),
                    Result::Ok(()) => if yield_entry {
                        (Walker::Idle { depth: depth + 1 }, Outcome::Item(entry))
                    } else {
                        (
                            Walker::AwaitRead { depth: depth + 1 },
                            Outcome::Do(Action::ReadTop),
                        )
                    },
                }
            },
            (Walker::Done, Event::Pull) => (Walker::Done, Outcome::Finished),
            _ => (Walker::Done, Outcome::Finished),
        }
    }
}

/// A traversal whose root cannot be opened surfaces exactly one error item,
/// with the kind the open reported, and then the sequence ends: every later
/// pull answers `Finished` with no further side effects.
pub proof fn lemma_missing_root_yields_one_error(k: ErrorKind)
    ensures
        step_spec(Walker::Start, Event::Pull) == (
            Walker::AwaitRoot,
            Outcome::Do(Action::OpenRoot),
        ),
        step_spec(Walker::AwaitRoot, Event::RootOpened(Result::Err(k))) == (
            Walker::Done,
            Outcome::Error(k),
        ),
        step_spec(Walker::Done, Event::Pull) == (Walker::Done, Outcome::Finished),
{
}

/// A traversal of an empty root directory yields nothing: the root listing
/// opens, is exhausted at once, and the sequence ends without an item.
pub proof fn lemma_empty_root_yields_nothing()
    ensures
        step_spec(Walker::Start, Event::Pull) == (
            Walker::AwaitRoot,
            Outcome::Do(Action::OpenRoot),
        ),
        step_spec(Walker::AwaitRoot, Event::RootOpened(Result::Ok(()))) == (
            (Walker::AwaitRead { depth: 1 }),
            Outcome::Do(Action::ReadTop),
        ),
        step_spec((Walker::AwaitRead { depth: 1 }), Event::TopRead(Option::None)) == (
            Walker::Done,
            Outcome::Finished,
        ),
{
}

} // verus!
