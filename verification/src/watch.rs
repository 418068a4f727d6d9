//! What the watcher does about each event, and which files it takes.

use vstd::prelude::*;
use vstd::string::*;

use crate::paths;
use crate::text;

verus! {

/// What happened to a file.
#[derive(Debug, Clone, Copy, PartialEq, Eq, Structural)]
pub enum ChangeKind {
    Any,
    Access,
    Create,
    Modify,
    Remove,
    Other,
}

/// The change may bring new content.
pub open spec fn brings_content(k: ChangeKind) -> bool {
    k == ChangeKind::Create || k == ChangeKind::Modify || k == ChangeKind::Any
}

/// Whether the change may bring new content.
pub fn is_create_or_modify(kind: ChangeKind) -> (r: bool)
    ensures
        r == brings_content(kind),
{
    match kind {
        ChangeKind::Create | ChangeKind::Modify | ChangeKind::Any => true,
        ChangeKind::Access | ChangeKind::Remove | ChangeKind::Other => false,
    }
}

/// What the watcher heard.
#[derive(Debug, Clone, Copy, PartialEq, Eq, Structural)]
pub enum Heard {
    Change(ChangeKind),
    Error,
    /// Nothing for a while; tells whether a job is waiting.
    Silence(bool),
    Closed,
}

/// What the watcher does.
#[derive(Debug, Clone, Copy, PartialEq, Eq, Structural)]
pub enum Deed {
    /// Nothing.
    Wait,
    /// Wait for the burst to end, enqueue the files, and drain the queue.
    Gather,
    /// Work off one job.
    DrainOne,
    /// Stop.
    Stop,
}

/// What the watcher does about what it heard.
pub open spec fn deed_about(heard: Heard) -> Deed {
    match heard {
        Heard::Change(k) => if brings_content(k) {
            Deed::Gather
        } else {
            Deed::Wait
        },
        Heard::Error => Deed::Wait,
        Heard::Silence(waiting) => if waiting {
            Deed::DrainOne
        } else {
            Deed::Wait
        },
        Heard::Closed => Deed::Stop,
    }
}

/// What the watcher does about what it heard.
pub fn react(heard: Heard) -> (r: Deed)
    ensures
        r == deed_about(heard),
{
    match heard {
        Heard::Change(k) => {
            if is_create_or_modify(k) {
                Deed::Gather
            } else {
                Deed::Wait
            }
        },
        Heard::Error => Deed::Wait,
        Heard::Silence(waiting) => {
            if waiting {
                Deed::DrainOne
            } else {
                Deed::Wait
            }
        },
        Heard::Closed => Deed::Stop,
    }
}

/// What is done when the watcher starts: whether files that lie there are worked off
/// first, whether it goes on watching, and whether it serves the drop meanwhile.
#[derive(Debug, Clone, Copy, PartialEq, Eq, Structural)]
pub struct StartPlan {
    pub drain_first: bool,
    pub watch: bool,
    pub serve: bool,
}

/// What is done when the watcher starts.
pub fn start_plan(process_existing_on_start: bool, once: bool, listen_http: bool) -> (r: StartPlan)
    ensures
        r.drain_first == (process_existing_on_start || once),
        r.watch == !once,
        r.serve == (listen_http && !once),
{
    StartPlan {
        drain_first: process_existing_on_start || once,
        watch: !once,
        serve: listen_http && !once,
    }
}

/// A file that is taken from where files are dropped: any but the one that explains the
/// directory.
pub open spec fn is_source(path: Seq<char>, is_file: bool) -> bool {
    is_file && paths::name_of(path) != Some("README.md"@)
}

/// Whether a file is taken from where files are dropped.
pub fn takes_source(path: &str, is_file: bool) -> (r: bool)
    ensures
        r == is_source(path@, is_file),
{
    if !is_file {
        return false;
    }
    match paths::file_name(path) {
        Some(n) => !text::same(n.as_str(), "README.md"),
        None => true,
    }
}

/// Whether a changed file is enqueued: there must be no open job for it. Where that
/// cannot be found out, it is. `open_job` is what the queue says, if it can.
pub fn enqueues_changed(path: &str, is_file: bool, open_job: Option<bool>) -> (r: bool)
    ensures
        r == wanted_changed(path@, is_file, open_job),
{
    let known = match open_job {
        Some(b) => b,
        None => false,
    };
    takes_source(path, is_file) && !known
}

/// Whether a file that lies there is enqueued: there must be no open job for it, and its
/// content must not have been seen. `seen` is what is known of its hash, if it could be
/// read.
pub fn enqueues_existing(path: &str, is_file: bool, open_job: bool, seen: Option<bool>) -> (r: bool)
    ensures
        r == wanted_existing(path@, is_file, open_job, seen),
{
    let known = match seen {
        Some(b) => b,
        None => false,
    };
    takes_source(path, is_file) && !open_job && !known
}

/// What explains the directory of dropped files is never taken for a source.
pub proof fn the_readme_is_no_source(dir: Seq<char>, is_file: bool)
    ensures
        !is_source(paths::under(dir, "README.md"@), is_file),
{
    reveal_strlit("README.md");
    paths::lemma_name_under(dir, "README.md"@);
}

/// A file that changed is to be worked off: it is a source, and no job is known to be open
/// for it.
pub open spec fn wanted_changed(path: Seq<char>, is_file: bool, open_job: Option<bool>) -> bool {
    is_source(path, is_file) && open_job != Some(true)
}

/// A file that lies there is to be worked off: it is a source, no job is open for it, and its
/// content is not known to have been seen.
pub open spec fn wanted_existing(
    path: Seq<char>,
    is_file: bool,
    open_job: bool,
    seen: Option<bool>,
) -> bool {
    is_source(path, is_file) && !open_job && seen != Some(true)
}

/// New and changed content is gathered, one waiting job is worked off in silence, and the
/// watcher stops only when nothing more can be heard.
pub proof fn watchers_gather_what_changes(kind: ChangeKind, waiting: bool)
    ensures
        deed_about(Heard::Change(kind)) == Deed::Gather <==> kind == ChangeKind::Create || kind
            == ChangeKind::Modify || kind == ChangeKind::Any,
        deed_about(Heard::Change(kind)) == Deed::Gather || deed_about(Heard::Change(kind))
            == Deed::Wait,
        deed_about(Heard::Silence(waiting)) == Deed::DrainOne <==> waiting,
        deed_about(Heard::Silence(waiting)) != Deed::Stop,
        deed_about(Heard::Error) == Deed::Wait,
        deed_about(Heard::Closed) == Deed::Stop,
{
}

/// Every dropped file but the readme is worked off, unless a job is open for it or, where it
/// lay there before, its content was seen. What cannot be told does not keep it back.
pub proof fn dropped_files_are_worked_off(dir: Seq<char>, name: Seq<char>)
    requires
        paths::plain_name(name),
        name != "README.md"@,
    ensures
        wanted_changed(paths::under(dir, name), true, Some(false)),
        wanted_changed(paths::under(dir, name), true, None),
        !wanted_changed(paths::under(dir, name), true, Some(true)),
        !wanted_changed(paths::under(dir, name), false, None),
        wanted_existing(paths::under(dir, name), true, false, Some(false)),
        wanted_existing(paths::under(dir, name), true, false, None),
        !wanted_existing(paths::under(dir, name), true, true, None),
        !wanted_existing(paths::under(dir, name), true, false, Some(true)),
        !wanted_existing(paths::under(dir, name), false, false, None),
{
    paths::lemma_name_under(dir, name);
}

} // verus!
