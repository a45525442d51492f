use vstd::prelude::*;
use vstd::string::{StringExecFns, StringSliceAdditionalSpecFns};
use crate::exclude::{has_excluded_component, path_has_excluded_component};

verus! {

/// Payload delivered to the listener when a filesystem change is detected.
#[derive(Clone, Debug)]
pub struct FsChangeEvent {
    /// Absolute path that changed
    pub path: String,
    /// "modify" or "remove"
    pub kind: String,
}

/// The kind of change reported for a path: it is `modify` while the path still
/// exists and `remove` once it is gone.
pub open spec fn change_kind(exists: bool) -> Seq<char> {
    if exists {
        seq!['m', 'o', 'd', 'i', 'f', 'y']
    } else {
        seq!['r', 'e', 'm', 'o', 'v', 'e']
    }
}

/// A deleted path is reported under a kind that no still-existing path gets.
pub proof fn lemma_remove_distinct_from_modify()
    ensures
        change_kind(false) != change_kind(true),
{
    assert(change_kind(false)[0] != change_kind(true)[0]);
}

/// Classifies one debounced raw event. Events under an excluded path never reach
/// the listener; the others are `modify` or `remove` by whether the path exists
/// when the event is delivered.
pub fn classify_event(path: &str, exists: bool) -> (r: Option<FsChangeEvent>)
    ensures
        r is None <==> has_excluded_component(path.spec_bytes()),
        r matches Some(ev) ==> ev.path@ == path@ && ev.kind@ == change_kind(exists),
{
    if path_has_excluded_component(path.as_bytes()) {
        return None;
    }
    let kind = if exists {
        <String as StringExecFns>::from_str("modify")
    } else {
        <String as StringExecFns>::from_str("remove")
    };
    proof {
        reveal_strlit("modify");
        reveal_strlit("remove");
    }
    assert(kind@ =~= change_kind(exists));
    Some(FsChangeEvent { path: <String as StringExecFns>::from_str(path), kind })
}

/// The process-wide slot that holds at most one active subscription. Dropping a
/// subscription stops its deliveries and releases its watches.
pub struct WatcherSlot<T> {
    active: Option<T>,
}

impl<T> WatcherSlot<T> {
    /// The subscription held, if any.
    pub closed spec fn active(&self) -> Option<T> {
        self.active
    }

    /// An idle slot.
    pub fn new() -> (r: Self)
        ensures
            r.active() is None,
    {
        WatcherSlot { active: None }
    }

    /// Installs a new subscription and hands back the one it replaces, so that the
    /// caller can drop it outside the lock.
    pub fn install(&mut self, sub: T) -> (prev: Option<T>)
        ensures
            final(self).active() == Some(sub),
            prev == old(self).active(),
    {
        let prev = self.active.take();
        self.active = Some(sub);
        prev
    }

    /// Returns the slot to idle; clearing an idle slot changes nothing.
    pub fn clear(&mut self) -> (prev: Option<T>)
        ensures
            final(self).active() is None,
            prev == old(self).active(),
    {
        self.active.take()
    }

    pub fn is_watching(&self) -> (r: bool)
        ensures
            r == self.active() is Some,
    {
        self.active.is_some()
    }
}

pub open spec fn not_a_directory_message(hq_path: Seq<char>) -> Seq<char> {
    seq![
        'H', 'Q', ' ', 'p', 'a', 't', 'h', ' ', 'i', 's', ' ', 'n', 'o', 't', ' ', 'a', ' ',
        'd', 'i', 'r', 'e', 'c', 't', 'o', 'r', 'y', ':', ' ',
    ] + hq_path
}

pub open spec fn nothing_to_watch_message() -> Seq<char> {
    seq![
        'N', 'o', ' ', 'v', 'a', 'l', 'i', 'd', ' ', 'd', 'i', 'r', 'e', 'c', 't', 'o', 'r',
        'i', 'e', 's', ' ', 't', 'o', ' ', 'w', 'a', 't', 'c', 'h',
    ]
}

/// The error returned when the HQ root is not a directory.
pub fn not_a_directory_error(hq_path: &str) -> (r: String)
    ensures
        r@ == not_a_directory_message(hq_path@),
{
    let mut msg = <String as StringExecFns>::from_str("HQ path is not a directory: ");
    proof {
        reveal_strlit("HQ path is not a directory: ");
    }
    msg.append(hq_path);
    assert(msg@ =~= not_a_directory_message(hq_path@));
    msg
}

/// Decides whether a watch may start: the HQ root must be a directory and the
/// scopes must resolve to at least one directory. On success the directories to
/// watch are handed back unchanged, in order.
pub fn plan_watch(hq_path: &str, hq_is_dir: bool, dirs: Vec<String>) -> (r: Result<
    Vec<String>,
    String,
>)
    ensures
        !hq_is_dir ==> (r matches Err(m) && m@ == not_a_directory_message(hq_path@)),
        hq_is_dir && dirs@.len() == 0 ==> (r matches Err(m) && m@ == nothing_to_watch_message()),
        hq_is_dir && dirs@.len() > 0 ==> r == Ok::<Vec<String>, String>(dirs),
{
    if !hq_is_dir {
        return Err(not_a_directory_error(hq_path));
    }
    if dirs.len() == 0 {
        let m = <String as StringExecFns>::from_str("No valid directories to watch");
        proof {
            reveal_strlit("No valid directories to watch");
        }
        assert(m@ =~= nothing_to_watch_message());
        return Err(m);
    }
    Ok(dirs)
}

} // verus!
