// modules/workspace/mod.rs — the workspace module: the window managers that it
// supports and the hand-over of workspace lists from the IPC thread.

use vstd::prelude::*;

pub mod i3;

use std::sync::mpsc::Receiver;

use crate::modules::workspace::i3::Workspace;
use crate::modules::AppState;
use crate::util::chars_of;

verus! {

#[verifier::external_type_specification]
#[verifier::external_body]
#[verifier::reject_recursive_types(T)]
pub struct ExReceiver<T>(Receiver<T>);

/// The receiving end of the channel on which the IPC thread sends workspace lists.
pub struct WsHandle {
    rx: Receiver<Vec<Workspace>>,
}

impl WsHandle {
    /// A handle that polls the channel `rx`.
    pub fn new(rx: Receiver<Vec<Workspace>>) -> (r: WsHandle)
        ensures
            r.channel() == rx,
    {
        WsHandle { rx }
    }

    /// The channel that this handle polls.
    pub closed spec fn channel(&self) -> Receiver<Vec<Workspace>> {
        self.rx
    }
}

/// The window managers whose workspaces the module can show.
pub open spec fn supported_wm(kind: Seq<char>) -> bool {
    kind == seq!['i', '3'] || kind == seq!['s', 'w', 'a', 'y']
}

/// Whether the module can show the workspaces of the window manager `kind`: `i3` or `sway`.
pub fn is_supported_wm(kind: &str) -> (r: bool)
    ensures
        r == supported_wm(kind@),
{
    let cs = chars_of(kind);
    if cs.len() == 2 && cs[0] == 'i' && cs[1] == '3' {
        assert(cs@ =~= seq!['i', '3']);
        return true;
    }
    if cs.len() == 4 && cs[0] == 's' && cs[1] == 'w' && cs[2] == 'a' && cs[3] == 'y' {
        assert(cs@ =~= seq!['s', 'w', 'a', 'y']);
        return true;
    }
    assert(cs@ != seq!['i', '3']) by {
        if cs@ == seq!['i', '3'] {
            assert(cs@[0] == 'i' && cs@[1] == '3');
        }
    }
    assert(cs@ != seq!['s', 'w', 'a', 'y']) by {
        if cs@ == seq!['s', 'w', 'a', 'y'] {
            assert(cs@[0] == 's' && cs@[1] == 'w' && cs@[2] == 'a' && cs@[3] == 'y');
        }
    }
    false
}

/// Calls `Receiver::try_iter` and collects what it yields: the lists that were waiting in
/// the channel, oldest first. Which lists those are depends on the IPC thread, so nothing is
/// stated of them.
#[verifier::external_body]
fn pending_lists(rx: &Receiver<Vec<Workspace>>) -> (r: Vec<Vec<Workspace>>) {
    rx.try_iter().collect()
}

/// Takes the lists that arrived, oldest first: the newest one becomes the shown workspace
/// list; with none, the shown list stays.
pub fn apply_pending(state: &mut AppState, lists: Vec<Vec<Workspace>>)
    ensures
        final(state).net == old(state).net,
        lists@.len() == 0 ==> final(state).i3workspace == old(state).i3workspace,
        lists@.len() > 0 ==> final(state).i3workspace == Some(lists@.last()),
{
    let mut lists = lists;
    if let Some(last) = lists.pop() {
        state.i3workspace = Some(last);
    }
}

/// Takes the workspace lists that the IPC thread sent since the last poll; the newest wins.
pub fn poll(handle: &WsHandle, state: &mut AppState)
    ensures
        final(state).net == old(state).net,
        final(state).i3workspace == old(state).i3workspace || final(state).i3workspace is Some,
{
    let lists = pending_lists(&handle.rx);
    apply_pending(state, lists);
}

} // verus!
