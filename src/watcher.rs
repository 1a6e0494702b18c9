//! Kinds of file system change reported for a watched folder.
use vstd::prelude::*;
use notify::EventKind;
use std::path::PathBuf;

verus! {

/// `notify::EventKind`, held opaque; `event_class` reads its variant.
#[verifier::external_type_specification]
#[verifier::external_body]
pub struct ExEventKind(EventKind);

/// `std::path::PathBuf`, held opaque and only carried in events.
#[verifier::external_type_specification]
#[verifier::external_body]
pub struct ExPathBuf(PathBuf);

/// Types of file system change.
#[derive(Debug, Clone, Copy, PartialEq, Eq, Structural)]
pub enum WatchEventKind {
    Created,
    Modified,
    Deleted,
    Renamed,
}

/// A file system change event.
#[derive(Debug)]
pub struct WatchEvent {
    pub kind: WatchEventKind,
    pub path: PathBuf,
    /// The former path, for renames.
    pub old_path: Option<PathBuf>,
}

/// The top-level class of a change event as the watcher reports it.
#[derive(Debug, Clone, Copy, PartialEq, Eq, Structural)]
pub enum EventClass {
    Any,
    Access,
    Create,
    Modify,
    Remove,
    Other,
}

/// Relies on `notify::EventKind`'s variants: tells them apart, one class
/// for each.
#[verifier::external_body]
fn event_class(kind: &EventKind) -> EventClass {
    match kind {
        EventKind::Any => EventClass::Any,
        EventKind::Access(_) => EventClass::Access,
        EventKind::Create(_) => EventClass::Create,
        EventKind::Modify(_) => EventClass::Modify,
        EventKind::Remove(_) => EventClass::Remove,
        EventKind::Other => EventClass::Other,
    }
}

/// Creation and removal keep their meaning; every other change counts as a
/// modification.
pub open spec fn watch_kind_of(class: EventClass) -> WatchEventKind {
    match class {
        EventClass::Create => WatchEventKind::Created,
        EventClass::Remove => WatchEventKind::Deleted,
        _ => WatchEventKind::Modified,
    }
}

/// The kind of change reported for an event of the given class.
pub fn watch_kind_for(class: EventClass) -> (r: WatchEventKind)
    ensures
        r == watch_kind_of(class),
{
    match class {
        EventClass::Create => WatchEventKind::Created,
        EventClass::Modify => WatchEventKind::Modified,
        EventClass::Remove => WatchEventKind::Deleted,
        EventClass::Other => WatchEventKind::Modified,
        _ => WatchEventKind::Modified,
    }
}

/// Converts the watcher's event kind to a change kind. Renames are never
/// reported by this conversion.
pub fn convert_event_kind(kind: &EventKind) -> (r: WatchEventKind)
    ensures
        r != WatchEventKind::Renamed,
{
    let class = event_class(kind);
    watch_kind_for(class)
}

} // verus!
