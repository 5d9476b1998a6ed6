// tray.rs — the system tray: which icons are docked, how they are laid out on
// the bar, and how the tray answers the X events that concern it.

use vstd::prelude::*;

use crate::util::{be_bytes, be_value, le_bytes, le_value};

verus! {

/// The most icons that the tray holds; further dock requests are ignored.
pub const MAX_CLIENTS: usize = 32;

/// The side of the window that wraps a docked icon, in pixels.
pub const TRAY_SIZE: u16 = 20;

/// The atoms of the tray protocol, as interned on the X server.
#[derive(Clone, Copy, Debug, PartialEq, Eq, Structural)]
pub struct TrayAtoms {
    pub net_system_tray_opcode: u32,
    pub xembed: u32,
    pub xembed_info: u32,
    pub manager: u32,
    pub net_system_tray_orientation: u32,
    pub wm_normal_hints: u32,
}

/// A docked icon: the client's window and the wrapper window that the tray made for it.
#[derive(Clone, Copy, Debug, PartialEq, Eq, Structural)]
pub struct TrayClient {
    pub wrapper: u32,
    pub window: u32,
    pub mapped: bool,
    pub hidden: bool,
    pub xembed: bool,
    pub xembed_version: u32,
    pub xembed_flags: u32,
}

/// What a client's `_XEMBED_INFO` property says: whether it has one, and its version and
/// flags words.
#[derive(Clone, Copy, Debug, PartialEq, Eq, Structural)]
pub struct XembedInfo {
    pub is_xembed: bool,
    pub version: u32,
    pub flags: u32,
}

/// The tray.
pub struct TrayState {
    pub active: bool,
    pub dirty: bool,
    pub tray_width: i32,
    bar: u32,
    tray_atom: u32,
    atoms: Option<TrayAtoms>,
    clients: Vec<TrayClient>,
}

/// The content of a tray.
pub struct TrayModel {
    pub active: bool,
    pub dirty: bool,
    pub tray_width: i32,
    pub bar: u32,
    pub tray_atom: u32,
    pub atoms: Option<TrayAtoms>,
    pub clients: Seq<TrayClient>,
}

impl TrayState {
    pub closed spec fn model(&self) -> TrayModel {
        TrayModel {
            active: self.active,
            dirty: self.dirty,
            tray_width: self.tray_width,
            bar: self.bar,
            tray_atom: self.tray_atom,
            atoms: self.atoms,
            clients: self.clients@,
        }
    }
}

impl View for TrayState {
    type V = TrayModel;

    open spec fn view(&self) -> TrayModel {
        self.model()
    }
}

// ── the tray's invariant ──

/// What every operation of the tray keeps: at most `MAX_CLIENTS` icons, no window docked
/// twice, and a running tray knows its protocol atoms and owns a real selection atom.
pub open spec fn wf(m: TrayModel) -> bool {
    &&& m.active ==> m.atoms is Some && m.tray_atom != 0
    &&& m.clients.len() <= MAX_CLIENTS
    &&& forall|i: int, j: int|
        0 <= i < j < m.clients.len() ==> (#[trigger] m.clients[i]).window != (
        #[trigger] m.clients[j]).window
}

// ── finding clients ──

/// Whether client `c` is the one sought for `w`: by its window, its wrapper, or either.
pub open spec fn hits(c: TrayClient, w: u32, by_window: bool, by_wrapper: bool) -> bool {
    (by_wrapper && c.wrapper == w) || (by_window && c.window == w)
}

/// Whether `i` is the first index of `cs` at which a client is the one sought for `w`.
pub open spec fn is_first_hit(
    cs: Seq<TrayClient>,
    w: u32,
    by_window: bool,
    by_wrapper: bool,
    i: int,
) -> bool {
    &&& 0 <= i < cs.len()
    &&& hits(cs[i], w, by_window, by_wrapper)
    &&& forall|j: int| 0 <= j < i ==> !hits(#[trigger] cs[j], w, by_window, by_wrapper)
}

/// The first index of `cs` at which a client is the one sought for `w`, if any.
pub open spec fn lookup(cs: Seq<TrayClient>, w: u32, by_window: bool, by_wrapper: bool) -> Option<
    int,
> {
    if exists|i: int| is_first_hit(cs, w, by_window, by_wrapper, i) {
        Some(choose|i: int| is_first_hit(cs, w, by_window, by_wrapper, i))
    } else {
        None
    }
}

proof fn lemma_lookup_first(cs: Seq<TrayClient>, w: u32, by_window: bool, by_wrapper: bool, i: int)
    requires
        is_first_hit(cs, w, by_window, by_wrapper, i),
    ensures
        lookup(cs, w, by_window, by_wrapper) == Some(i),
{
    let k = choose|k: int| is_first_hit(cs, w, by_window, by_wrapper, k);
    assert(is_first_hit(cs, w, by_window, by_wrapper, k));
    if k < i {
        assert(!hits(cs[k], w, by_window, by_wrapper));
    }
    if i < k {
        assert(!hits(cs[i], w, by_window, by_wrapper));
    }
}

proof fn lemma_lookup_none(cs: Seq<TrayClient>, w: u32, by_window: bool, by_wrapper: bool)
    requires
        forall|j: int| 0 <= j < cs.len() ==> !hits(#[trigger] cs[j], w, by_window, by_wrapper),
    ensures
        lookup(cs, w, by_window, by_wrapper) is None,
{
    if exists|i: int| is_first_hit(cs, w, by_window, by_wrapper, i) {
        let k = choose|k: int| is_first_hit(cs, w, by_window, by_wrapper, k);
        assert(hits(cs[k], w, by_window, by_wrapper));
    }
}

/// The index in `cs` of the first client sought for `w`.
fn position(cs: &Vec<TrayClient>, w: u32, by_window: bool, by_wrapper: bool) -> (r: Option<usize>)
    ensures
        r matches Some(i) ==> lookup(cs@, w, by_window, by_wrapper) == Some(i as int),
        r is None ==> lookup(cs@, w, by_window, by_wrapper) is None,
{
    let n = cs.len();
    for i in 0..n
        invariant
            n == cs@.len(),
            forall|j: int| 0 <= j < i ==> !hits(#[trigger] cs@[j], w, by_window, by_wrapper),
    {
        let c = cs[i];
        if (by_wrapper && c.wrapper == w) || (by_window && c.window == w) {
            proof {
                lemma_lookup_first(cs@, w, by_window, by_wrapper, i as int);
            }
            return Some(i);
        }
    }
    proof {
        lemma_lookup_none(cs@, w, by_window, by_wrapper);
    }
    None
}

// ── the effect of the operations ──

/// `m` without its client at `i`, and marked for redrawing.
pub open spec fn without_client(m: TrayModel, i: int) -> TrayModel {
    TrayModel { clients: m.clients.remove(i), dirty: true, ..m }
}

/// `m` after it lost the tray selection: inactive, empty, zero wide, marked for redrawing.
pub open spec fn deactivated(m: TrayModel) -> TrayModel {
    TrayModel { active: false, dirty: true, tray_width: 0, clients: Seq::empty(), ..m }
}

/// The record of a client that has just been docked.
pub open spec fn new_client(wrapper: u32, window: u32, info: XembedInfo) -> TrayClient {
    TrayClient {
        wrapper,
        window,
        mapped: false,
        hidden: false,
        xembed: info.is_xembed,
        xembed_version: info.version,
        xembed_flags: info.flags,
    }
}

/// Whether an XEMBED flags word asks for the client to be mapped.
pub open spec fn flags_mapped(flags: u32) -> bool {
    (flags & 1) != 0
}

/// Whether a client is shown after its XEMBED state was read as `info`: never when hidden;
/// as its flags ask when it speaks XEMBED; always otherwise.
pub open spec fn mapped_after(c: TrayClient, info: XembedInfo) -> bool {
    if c.hidden {
        false
    } else if info.is_xembed {
        flags_mapped(info.flags)
    } else {
        true
    }
}

/// Client `c` after its XEMBED state was read as `info` during layout.
pub open spec fn refreshed(c: TrayClient, info: XembedInfo) -> TrayClient {
    TrayClient {
        xembed: info.is_xembed,
        xembed_flags: if info.is_xembed {
            info.flags
        } else {
            c.xembed_flags
        },
        mapped: mapped_after(c, info),
        ..c
    }
}

/// All clients after their XEMBED states were read as `infos`.
pub open spec fn refreshed_all(cs: Seq<TrayClient>, infos: Seq<XembedInfo>) -> Seq<TrayClient> {
    Seq::new(cs.len(), |i: int| refreshed(cs[i], infos[i]))
}

/// The number of shown clients among the first `k` of `cs`.
pub open spec fn mapped_count(cs: Seq<TrayClient>, k: int) -> nat
    decreases k,
{
    if k <= 0 {
        0
    } else {
        mapped_count(cs, k - 1) + if cs[k - 1].mapped {
            1nat
        } else {
            0nat
        }
    }
}

/// The width of `m` icons of side `icon` set 6 pixels apart.
pub open spec fn strip_width(m: nat, icon: int) -> int {
    if m == 0 || icon == 0 {
        0
    } else {
        m * icon + (m - 1) * 6
    }
}

/// The space that the modules leave at the right of the bar for a tray `t` pixels wide.
pub open spec fn margin_for(t: int) -> int {
    if t > 0 {
        t + 18
    } else {
        12
    }
}

/// `v / 2` rounded toward zero, as integer division does.
pub open spec fn half_toward_zero(v: int) -> int {
    if v >= 0 {
        v / 2
    } else {
        -((-v) / 2)
    }
}

/// What layout does with one client.
#[derive(Clone, Copy, Debug, PartialEq, Eq, Structural)]
pub enum LayoutAction {
    /// Unmap the client and its wrapper.
    Hide { window: u32, wrapper: u32 },
    /// Move the wrapper to `(x, y)`, size both windows `size` square, map and expose them.
    Place { wrapper: u32, window: u32, x: i32, y: i32, size: i32 },
}

/// What layout does with client `c`, the `k`-th shown one, when the strip of icons starts at
/// `x0` and icons are `icon` pixels and placed at height `y`.
pub open spec fn action_for(c: TrayClient, k: nat, x0: int, y: int, icon: int) -> LayoutAction {
    if c.mapped {
        LayoutAction::Place {
            wrapper: c.wrapper,
            window: c.window,
            x: (x0 + k * (icon + 6)) as i32,
            y: y as i32,
            size: icon as i32,
        }
    } else {
        LayoutAction::Hide { window: c.window, wrapper: c.wrapper }
    }
}

/// The horizontal position that a layout action gives its icon; 0 for a hidden one.
pub open spec fn place_x(a: LayoutAction) -> int {
    match a {
        LayoutAction::Place { x, .. } => x as int,
        LayoutAction::Hide { .. } => 0,
    }
}

/// Whether the tray is ready to lay icons out: it knows its atoms and its bar.
pub open spec fn ready(m: TrayModel) -> bool {
    m.atoms is Some && m.bar != 0
}

/// Whether laying out the clients `cs`, read as `infos`, on a bar of width `sw` and height
/// `bh` with icons of side `icon` keeps every coordinate within `i32`.
pub open spec fn layout_fits(
    cs: Seq<TrayClient>,
    infos: Seq<XembedInfo>,
    sw: int,
    bh: int,
    icon: int,
) -> bool {
    let rs = refreshed_all(cs, infos);
    let m = mapped_count(rs, rs.len() as int);
    let t = strip_width(m, icon);
    &&& 0 <= icon
    &&& t + 18 <= i32::MAX
    &&& i32::MIN <= sw - t - 6
    &&& sw - t - 6 + m * (icon + 6) <= i32::MAX
    &&& m > 0 ==> i32::MIN <= bh - icon
}

proof fn lemma_mapped_count_le(cs: Seq<TrayClient>, i: int, k: int)
    requires
        0 <= i <= k <= cs.len(),
    ensures
        mapped_count(cs, i) <= mapped_count(cs, k),
        mapped_count(cs, k) <= k,
    decreases k,
{
    if k > 0 {
        let i2 = if i < k {
            i
        } else {
            k - 1
        };
        lemma_mapped_count_le(cs, i2, k - 1);
    }
}

proof fn lemma_mapped_count_prefix(a: Seq<TrayClient>, b: Seq<TrayClient>, k: int)
    requires
        0 <= k <= a.len(),
        k <= b.len(),
        forall|j: int| 0 <= j < k ==> a[j] == b[j],
    ensures
        mapped_count(a, k) == mapped_count(b, k),
    decreases k,
{
    if k > 0 {
        lemma_mapped_count_prefix(a, b, k - 1);
    }
}

proof fn lemma_strip_step(m: nat, icon: int, total: int)
    requires
        icon >= 0,
        total == strip_width(m, icon),
    ensures
        (if total > 0 {
            total + 6
        } else {
            total
        }) + icon == strip_width(m + 1, icon),
        strip_width(m, icon) <= strip_width(m + 1, icon),
{
    if m > 0 && icon > 0 {
        assert(m * icon > 0) by (nonlinear_arith)
            requires
                m > 0,
                icon > 0,
        ;
        assert((m + 1) * icon == m * icon + icon) by (nonlinear_arith);
    }
}

proof fn lemma_strip_mono(a: nat, b: nat, icon: int)
    requires
        a <= b,
        icon >= 0,
    ensures
        strip_width(a, icon) <= strip_width(b, icon),
        0 <= strip_width(a, icon),
    decreases b - a,
{
    if a < b {
        lemma_strip_mono(a, (b - 1) as nat, icon);
        lemma_strip_step((b - 1) as nat, icon, strip_width((b - 1) as nat, icon));
    } else if a > 0 && icon > 0 {
        assert(a * icon > 0) by (nonlinear_arith)
            requires
                a > 0,
                icon > 0,
        ;
    }
}

/// Whether `r` is what `TrayState::handle_event` does in the tray `m` on `ev`, turning it
/// into `n`.
pub open spec fn handled(m: TrayModel, ev: TrayEvent, n: TrayModel, r: TrayAction) -> bool {
    if !m.active {
        n == m && r is Nothing
    } else {
        match ev {
            TrayEvent::ClientMessage { type_, data } => if type_
                == m.atoms->0.net_system_tray_opcode && data@[1] == 0 {
                n == m && r == TrayAction::Dock { window: data@[2] }
            } else {
                n == m && r is Nothing
            },
            TrayEvent::DestroyNotify { window } => match lookup(m.clients, window, true, false) {
                Some(i) => n == without_client(m, i) && r == TrayAction::Removed(m.clients[i]),
                None => match lookup(m.clients, window, false, true) {
                    Some(i) => n == without_client(m, i) && r == TrayAction::Removed(m.clients[i]),
                    None => n == m && r is Nothing,
                },
            },
            TrayEvent::PropertyNotify { window, atom } => if atom == m.atoms->0.xembed_info {
                match lookup(m.clients, window, true, false) {
                    Some(i) => n == TrayModel { dirty: true, ..m } && r == TrayAction::QueryXembed {
                        index: i as usize,
                        window,
                    },
                    None => n == m && r is Nothing,
                }
            } else {
                n == m && r is Nothing
            },
            TrayEvent::ConfigureRequest { window } => n == m && match lookup(
                m.clients,
                window,
                true,
                false,
            ) {
                Some(_) => r == TrayAction::Configure { window },
                None => r is Nothing,
            },
            TrayEvent::ReparentNotify { window, parent } => match lookup(
                m.clients,
                window,
                true,
                false,
            ) {
                Some(i) => if parent != m.clients[i].wrapper {
                    n == without_client(m, i) && r == TrayAction::Removed(m.clients[i])
                } else {
                    n == m && r is Nothing
                },
                None => n == m && r is Nothing,
            },
            TrayEvent::SelectionClear { selection } => if selection == m.tray_atom {
                n == deactivated(m) && (r matches TrayAction::Deactivated(v) && v@ == m.clients)
            } else {
                n == m && r is Nothing
            },
            TrayEvent::Other => n == m && r is Nothing,
        }
    }
}

/// The X events that concern the tray.
pub enum TrayEvent {
    ClientMessage { type_: u32, data: [u32; 5] },
    DestroyNotify { window: u32 },
    PropertyNotify { window: u32, atom: u32 },
    ConfigureRequest { window: u32 },
    ReparentNotify { window: u32, parent: u32 },
    SelectionClear { selection: u32 },
    Other,
}

/// What the X side has to do after the tray handled an event.
pub enum TrayAction {
    /// Nothing.
    Nothing,
    /// A client asked to dock this window.
    Dock { window: u32 },
    /// This client left the tray: unmap it, hand it back to the root window, destroy its
    /// wrapper.
    Removed(TrayClient),
    /// Read the XEMBED state of the client at `index` and record it.
    QueryXembed { index: usize, window: u32 },
    /// Keep this client at the tray size.
    Configure { window: u32 },
    /// The tray lost its selection: release all these clients.
    Deactivated(Vec<TrayClient>),
}

impl TrayState {
    /// An inactive, empty tray.
    pub fn new() -> (r: TrayState)
        ensures
            r@ == (TrayModel {
                active: false,
                dirty: false,
                tray_width: 0,
                bar: 0,
                tray_atom: 0,
                atoms: None,
                clients: Seq::empty(),
            }),
            wf(r@),
    {
        TrayState {
            active: false,
            dirty: false,
            tray_width: 0,
            bar: 0,
            tray_atom: 0,
            atoms: None,
            clients: Vec::new(),
        }
    }

    /// The index of the first client whose wrapper or window is `w`.
    pub fn find(&self, w: u32) -> (r: Option<usize>)
        ensures
            r matches Some(i) ==> lookup(self@.clients, w, true, true) == Some(i as int),
            r is None ==> lookup(self@.clients, w, true, true) is None,
    {
        position(&self.clients, w, true, true)
    }

    /// The index of the first client whose window is `w`.
    pub fn client_by_window(&self, w: u32) -> (r: Option<usize>)
        ensures
            r matches Some(i) ==> lookup(self@.clients, w, true, false) == Some(i as int),
            r is None ==> lookup(self@.clients, w, true, false) is None,
    {
        position(&self.clients, w, true, false)
    }

    /// The index of the first client whose wrapper is `w`.
    pub fn client_by_wrapper(&self, w: u32) -> (r: Option<usize>)
        ensures
            r matches Some(i) ==> lookup(self@.clients, w, false, true) == Some(i as int),
            r is None ==> lookup(self@.clients, w, false, true) is None,
    {
        position(&self.clients, w, false, true)
    }

    /// The number of docked clients.
    pub fn client_count(&self) -> (r: usize)
        ensures
            r == self@.clients.len(),
    {
        self.clients.len()
    }

    /// The client at `idx`.
    pub fn client(&self, idx: usize) -> (r: TrayClient)
        requires
            idx < self@.clients.len(),
        ensures
            r == self@.clients[idx as int],
    {
        self.clients[idx]
    }

    /// The tray's bar window.
    pub fn bar(&self) -> (r: u32)
        ensures
            r == self@.bar,
    {
        self.bar
    }

    /// The selection atom `_NET_SYSTEM_TRAY_S<n>` that the tray owns.
    pub fn tray_atom(&self) -> (r: u32)
        ensures
            r == self@.tray_atom,
    {
        self.tray_atom
    }

    /// The protocol atoms, once they are known.
    pub fn atoms(&self) -> (r: Option<TrayAtoms>)
        ensures
            r == self@.atoms,
    {
        self.atoms
    }

    /// Removes the client at `idx` and marks the tray for redrawing; returns the client, whose
    /// windows the X side then releases.
    pub fn remove_client(&mut self, idx: usize) -> (r: TrayClient)
        requires
            idx < old(self)@.clients.len(),
        ensures
            r == old(self)@.clients[idx as int],
            final(self)@ == without_client(old(self)@, idx as int),
            final(self)@.clients.len() == old(self)@.clients.len() - 1,
            forall|k: int| 0 <= k < idx ==> #[trigger] final(self)@.clients[k] == old(self)@.clients[k],
            forall|k: int|
                idx <= k < final(self)@.clients.len() ==> #[trigger] final(self)@.clients[k] == old(
                    self,
                )@.clients[k + 1],
            final(self)@.dirty,
            wf(old(self)@) ==> wf(final(self)@),
    {
        let c = self.clients.remove(idx);
        self.dirty = true;
        proof {
            let o = old(self)@.clients;
            let n = self@.clients;
            if wf(old(self)@) {
                assert forall|i: int, j: int| 0 <= i < j < n.len() implies (#[trigger] n[i]).window
                    != (#[trigger] n[j]).window by {
                    let oi = if i < idx {
                        i
                    } else {
                        i + 1
                    };
                    let oj = if j < idx {
                        j
                    } else {
                        j + 1
                    };
                    assert(n[i] == o[oi]);
                    assert(n[j] == o[oj]);
                    assert(o[oi].window != o[oj].window);
                }
            }
        }
        c
    }

    /// Starts taking over the tray of the screen for the bar window `bar`.
    pub fn init(&mut self, bar: u32)
        ensures
            final(self)@ == (TrayModel { bar, ..old(self)@ }),
            wf(old(self)@) ==> wf(final(self)@),
    {
        self.bar = bar;
    }

    /// Records the interned selection atom; whether the takeover can go on, which it cannot
    /// when interning failed (atom 0).
    pub fn set_tray_atom(&mut self, atom: u32) -> (r: bool)
        ensures
            final(self)@ == (TrayModel { tray_atom: atom, ..old(self)@ }),
            r == (atom != 0),
            wf(old(self)@) && (!old(self)@.active || atom != 0) ==> wf(final(self)@),
    {
        self.tray_atom = atom;
        atom != 0
    }

    /// Records the interned protocol atoms.
    pub fn set_atoms(&mut self, atoms: TrayAtoms)
        ensures
            final(self)@ == (TrayModel { atoms: Some(atoms), ..old(self)@ }),
            wf(old(self)@) ==> wf(final(self)@),
    {
        self.atoms = Some(atoms);
    }

    /// Whether the bar window got the tray selection, given the selection's owner.
    pub fn owns_selection(&self, owner: u32) -> (r: bool)
        ensures
            r == (owner == self@.bar),
    {
        owner == self.bar
    }

    /// The data of the `MANAGER` message that announces the tray at time `time`.
    pub fn manager_message(&self, time: u32) -> (r: [u32; 5])
        ensures
            r@ == seq![time, self@.tray_atom, self@.bar, 0u32, 0u32],
    {
        let r = [time, self.tray_atom, self.bar, 0u32, 0u32];
        assert(r@ =~= seq![time, self@.tray_atom, self@.bar, 0u32, 0u32]);
        r
    }

    /// Marks the tray as running and in need of drawing, once it knows its protocol atoms
    /// and owns a real selection atom.
    pub fn activate(&mut self)
        requires
            old(self)@.atoms is Some,
            old(self)@.tray_atom != 0,
        ensures
            final(self)@ == (TrayModel { active: true, dirty: true, ..old(self)@ }),
            wf(old(self)@) ==> wf(final(self)@),
    {
        self.active = true;
        self.dirty = true;
    }

    /// Whether a client window may dock: the tray has room and does not hold it yet.
    pub fn can_dock(&self, window: u32) -> (r: bool)
        ensures
            r == (self@.clients.len() < MAX_CLIENTS && lookup(self@.clients, window, true, false)
                is None),
    {
        if self.clients.len() >= MAX_CLIENTS {
            return false;
        }
        self.client_by_window(window).is_none()
    }

    /// Records a docked client: its window, the wrapper made for it and its XEMBED state.
    pub fn dock(&mut self, wrapper: u32, window: u32, info: XembedInfo)
        requires
            old(self)@.clients.len() < MAX_CLIENTS,
            lookup(old(self)@.clients, window, true, false) is None,
        ensures
            final(self)@ == (TrayModel {
                clients: old(self)@.clients.push(new_client(wrapper, window, info)),
                ..old(self)@
            }),
            final(self)@.clients.len() == old(self)@.clients.len() + 1,
            forall|k: int|
                0 <= k < old(self)@.clients.len() ==> #[trigger] final(self)@.clients[k] == old(
                    self,
                )@.clients[k],
            final(self)@.clients.last().wrapper == wrapper,
            final(self)@.clients.last().window == window,
            !final(self)@.clients.last().mapped,
            !final(self)@.clients.last().hidden,
            final(self)@.clients.last().xembed == info.is_xembed,
            final(self)@.clients.last().xembed_version == info.version,
            final(self)@.clients.last().xembed_flags == info.flags,
            wf(old(self)@) ==> wf(final(self)@),
    {
        self.clients.push(
            TrayClient {
                wrapper,
                window,
                mapped: false,
                hidden: false,
                xembed: info.is_xembed,
                xembed_version: info.version,
                xembed_flags: info.flags,
            },
        );
        proof {
            let o = old(self)@.clients;
            let n = self@.clients;
            assert forall|j: int| 0 <= j < o.len() implies (#[trigger] o[j]).window != window by {
                if o[j].window == window {
                    lemma_first_hit_exists(o, window, true, false, j);
                }
            }
            if wf(old(self)@) {
                assert forall|i: int, j: int| 0 <= i < j < n.len() implies (#[trigger] n[i]).window
                    != (#[trigger] n[j]).window by {
                    if j == o.len() {
                        assert(n[i] == o[i]);
                    } else {
                        assert(n[i] == o[i] && n[j] == o[j]);
                    }
                }
            }
        }
    }

    /// Ends a dock whose requests all went out: marks the tray for redrawing.
    pub fn finish_dock(&mut self)
        ensures
            final(self)@ == (TrayModel { dirty: true, ..old(self)@ }),
            wf(old(self)@) ==> wf(final(self)@),
    {
        self.dirty = true;
    }

    /// Records the XEMBED state read for the client at `idx`.
    pub fn update_xembed(&mut self, idx: usize, info: XembedInfo)
        requires
            idx < old(self)@.clients.len(),
        ensures
            final(self)@ == (TrayModel {
                clients: old(self)@.clients.update(
                    idx as int,
                    TrayClient {
                        xembed: info.is_xembed,
                        xembed_version: info.version,
                        xembed_flags: info.flags,
                        ..old(self)@.clients[idx as int]
                    },
                ),
                ..old(self)@
            }),
            wf(old(self)@) ==> wf(final(self)@),
    {
        let mut c = self.clients[idx];
        c.xembed = info.is_xembed;
        c.xembed_version = info.version;
        c.xembed_flags = info.flags;
        self.clients.set(idx, c);
        proof {
            let o = old(self)@.clients;
            let n = self@.clients;
            if wf(old(self)@) {
                assert forall|i: int, j: int| 0 <= i < j < n.len() implies (#[trigger] n[i]).window
                    != (#[trigger] n[j]).window by {
                    assert(n[i].window == o[i].window);
                    assert(n[j].window == o[j].window);
                }
            }
        }
    }

    /// Gives up the tray: inactive, empty and zero wide, marked for redrawing. Returns the
    /// clients that it held, whose windows the X side then releases.
    pub fn deactivate(&mut self) -> (r: Vec<TrayClient>)
        ensures
            final(self)@ == deactivated(old(self)@),
            r@ == old(self)@.clients,
            wf(final(self)@),
    {
        self.active = false;
        self.dirty = true;
        self.tray_width = 0;
        let mut gone: Vec<TrayClient> = Vec::new();
        std::mem::swap(&mut gone, &mut self.clients);
        gone
    }

    /// What layout has to ask the X server first: the `_XEMBED_INFO` atom and the client
    /// windows, in order. `None` when the tray is not ready, and layout does nothing.
    pub fn layout_targets(&self) -> (r: Option<(u32, Vec<u32>)>)
        ensures
            !ready(self@) ==> r is None,
            ready(self@) ==> (r matches Some((atom, ws)) && atom == self@.atoms->0.xembed_info
                && ws@.len() == self@.clients.len() && forall|i: int|
                0 <= i < ws@.len() ==> #[trigger] ws@[i] == self@.clients[i].window),
    {
        match self.atoms {
            None => None,
            Some(a) => {
                if self.bar == 0 {
                    return None;
                }
                let mut ws: Vec<u32> = Vec::new();
                let n = self.clients.len();
                for i in 0..n
                    invariant
                        n == self@.clients.len(),
                        ws@.len() == i,
                        forall|j: int| 0 <= j < i ==> #[trigger] ws@[j] == self@.clients[j].window,
                {
                    ws.push(self.clients[i].window);
                }
                Some((a.xembed_info, ws))
            },
        }
    }

    /// Lays the icons out on a bar `sw` wide and `bh` high, icons being `icon_sz` square,
    /// given the XEMBED state just read for each client. Each client is shown unless hidden
    /// or its XEMBED flags say otherwise; shown icons are set 6 pixels apart, ending 6 pixels
    /// from the right edge, and vertically centred. The tray's width and the modules' right
    /// margin follow from the number shown. Returns what to do with each client, or `None`,
    /// changing nothing, when the tray is not ready.
    pub fn layout(
        &mut self,
        infos: &Vec<XembedInfo>,
        sw: i32,
        bh: i32,
        icon_sz: i32,
        right_margin: &mut i32,
    ) -> (r: Option<Vec<LayoutAction>>)
        requires
            ready(old(self)@) ==> infos@.len() == old(self)@.clients.len() && layout_fits(
                old(self)@.clients,
                infos@,
                sw as int,
                bh as int,
                icon_sz as int,
            ),
        ensures
            !ready(old(self)@) ==> r is None && final(self)@ == old(self)@ && *final(right_margin)
                == *old(right_margin),
            ready(old(self)@) ==> {
                let cs = refreshed_all(old(self)@.clients, infos@);
                let m = mapped_count(cs, cs.len() as int);
                let t = strip_width(m, icon_sz as int);
                &&& final(self)@ == (TrayModel { clients: cs, tray_width: t as i32, ..old(self)@ })
                &&& *final(right_margin) == margin_for(t)
                &&& (r matches Some(acts) && acts@.len() == cs.len() && forall|i: int|
                    0 <= i < cs.len() ==> #[trigger] acts@[i] == action_for(
                        cs[i],
                        mapped_count(cs, i),
                        sw - t - 6,
                        half_toward_zero(bh - icon_sz),
                        icon_sz as int,
                    ))
            },
            ready(old(self)@) ==> (r matches Some(acts) ==> forall|i: int, j: int|
                0 <= i < j < acts@.len() && acts@[i] is Place && acts@[j] is Place ==> place_x(
                    #[trigger] acts@[j],
                ) >= place_x(#[trigger] acts@[i]) + icon_sz + 6),
            ready(old(self)@) && icon_sz > 0 ==> (r matches Some(acts) ==> forall|j: int|
                0 <= j < acts@.len() && #[trigger] acts@[j] is Place && (forall|k: int|
                    j < k < acts@.len() ==> acts@[k] is Hide) ==> place_x(acts@[j]) + icon_sz == sw
                    - 6),
            wf(old(self)@) ==> wf(final(self)@),
    {
        if self.atoms.is_none() || self.bar == 0 {
            return None;
        }
        let ghost old_cs = self@.clients;
        let ghost cs = refreshed_all(old_cs, infos@);
        let ghost m = mapped_count(cs, cs.len() as int);
        let ghost t = strip_width(m, icon_sz as int);
        let pad: i32 = 6;
        let n = self.clients.len();
        assert(0 <= icon_sz && t + 18 <= i32::MAX && i32::MIN <= sw - t - 6 && sw - t - 6 + m * (
        icon_sz + 6) <= i32::MAX && (m > 0 ==> i32::MIN <= bh - icon_sz));

        // Pass 1: refresh the XEMBED state and count the shown clients.
        let mut total_w: i32 = 0;
        let mut i: usize = 0;
        while i < n
            invariant
                n == old_cs.len() == infos@.len() == self.clients@.len(),
                cs == refreshed_all(old_cs, infos@),
                m == mapped_count(cs, cs.len() as int),
                t == strip_width(m, icon_sz as int),
                pad == 6,
                0 <= icon_sz,
                t + 18 <= i32::MAX,
                0 <= i <= n,
                forall|j: int| 0 <= j < i ==> self.clients@[j] == cs[j],
                forall|j: int| i <= j < n ==> self.clients@[j] == old_cs[j],
                total_w == strip_width(mapped_count(cs, i as int), icon_sz as int),
                self.atoms == old(self).atoms,
                self.bar == old(self).bar,
                self.tray_atom == old(self).tray_atom,
                self.active == old(self).active,
                self.dirty == old(self).dirty,
                self.tray_width == old(self).tray_width,
            decreases n - i,
        {
            let info = infos[i];
            let mut c = self.clients[i];
            c.xembed = info.is_xembed;
            if info.is_xembed {
                c.xembed_flags = info.flags;
            }
            let should_map = if c.hidden {
                false
            } else if info.is_xembed {
                is_xembed_mapped(info.flags)
            } else {
                true
            };
            c.mapped = should_map;
            assert(c == cs[i as int]);
            self.clients.set(i, c);
            proof {
                lemma_mapped_count_le(cs, i + 1, cs.len() as int);
                lemma_strip_step(mapped_count(cs, i as int), icon_sz as int, total_w as int);
                lemma_strip_mono(mapped_count(cs, i + 1), m, icon_sz as int);
                lemma_strip_mono(mapped_count(cs, i as int), mapped_count(cs, i + 1), icon_sz as int);
                assert(mapped_count(cs, i + 1) == mapped_count(cs, i as int) + if should_map {
                    1nat
                } else {
                    0nat
                });
                assert(strip_width(mapped_count(cs, i + 1), icon_sz as int) <= t);
            }
            if should_map {
                if total_w > 0 {
                    total_w = total_w + pad;
                }
                total_w = total_w + icon_sz;
            }
            i = i + 1;
        }
        proof {
            assert(self.clients@ =~= cs);
        }
        self.tray_width = total_w;
        *right_margin = if total_w > 0 {
            total_w + 18
        } else {
            12
        };

        // Pass 2: place the shown icons from the right edge of the bar leftwards.
        let x0: i32 = sw - total_w - 6;
        let mut x: i32 = x0;
        assert(mapped_count(cs, 0) * (icon_sz + 6) == 0);
        let mut acts: Vec<LayoutAction> = Vec::new();
        let mut i: usize = 0;
        while i < n
            invariant
                n == cs.len(),
                self.clients@ == cs,
                m == mapped_count(cs, cs.len() as int),
                t == strip_width(m, icon_sz as int),
                total_w == t,
                x0 == sw - t - 6,
                pad == 6,
                0 <= icon_sz,
                t + 18 <= i32::MAX,
                i32::MIN <= sw - t - 6,
                sw - t - 6 + m * (icon_sz + 6) <= i32::MAX,
                m > 0 ==> i32::MIN <= bh - icon_sz,
                cs == refreshed_all(old_cs, infos@),
                0 <= i <= n,
                x == x0 + mapped_count(cs, i as int) * (icon_sz + 6),
                acts@.len() == i,
                forall|j: int|
                    0 <= j < i ==> #[trigger] acts@[j] == action_for(
                        cs[j],
                        mapped_count(cs, j),
                        x0 as int,
                        half_toward_zero(bh - icon_sz),
                        icon_sz as int,
                    ),
            decreases n - i,
        {
            let c = self.clients[i];
            proof {
                lemma_mapped_count_le(cs, i + 1, cs.len() as int);
                assert(c == cs[i as int]);
                assert(mapped_count(cs, i + 1) == mapped_count(cs, i as int) + if c.mapped {
                    1nat
                } else {
                    0nat
                });
            }
            if !c.mapped {
                acts.push(LayoutAction::Hide { window: c.window, wrapper: c.wrapper });
            } else {
                proof {
                    let k = mapped_count(cs, i as int);
                    assert(k + 1 <= m);
                    assert(0 <= k * (icon_sz + 6) <= (k + 1) * (icon_sz + 6) <= m * (icon_sz + 6)
                        && (k + 1) * (icon_sz + 6) == k * (icon_sz + 6) + icon_sz + 6)
                        by (nonlinear_arith)
                        requires
                            k + 1 <= m,
                            icon_sz >= 0,
                    ;
                }
                let d = bh - icon_sz;
                let y: i32 = if d >= 0 {
                    d / 2
                } else {
                    -((-(d as i64)) / 2) as i32
                };
                acts.push(
                    LayoutAction::Place { wrapper: c.wrapper, window: c.window, x, y, size: icon_sz },
                );
                x = x + icon_sz + pad;
            }
            i = i + 1;
        }
        proof {
            if wf(old(self)@) {
                let n2 = self@.clients;
                assert forall|a: int, b: int| 0 <= a < b < n2.len() implies (#[trigger] n2[a]).window
                    != (#[trigger] n2[b]).window by {
                    assert(n2[a].window == old_cs[a].window);
                    assert(n2[b].window == old_cs[b].window);
                }
            }
            let x0i = x0 as int;
            let y = half_toward_zero(bh - icon_sz);
            assert forall|a: int, b: int|
                0 <= a < b < acts@.len() && acts@[a] is Place && acts@[b] is Place implies place_x(
                #[trigger] acts@[b],
            ) >= place_x(#[trigger] acts@[a]) + icon_sz + 6 by {
                lemma_layout_spacing(old_cs, infos@, sw as int, bh as int, icon_sz as int, a, b);
            }
            if icon_sz > 0 {
                assert forall|b: int|
                    0 <= b < acts@.len() && #[trigger] acts@[b] is Place && (forall|k: int|
                        b < k < acts@.len() ==> acts@[k] is Hide) implies place_x(acts@[b]) + icon_sz
                    == sw - 6 by {
                    assert forall|k: int| b < k < cs.len() implies !(#[trigger] cs[k]).mapped by {
                        assert(acts@[k] is Hide);
                    }
                    lemma_layout_last_edge(old_cs, infos@, sw as int, bh as int, icon_sz as int, b);
                }
            }
        }
        Some(acts)
    }

    /// Handles an X event: see `handled` for what happens on each. Events reach an inactive
    /// tray without effect.
    pub fn handle_event(&mut self, ev: &TrayEvent) -> (r: TrayAction)
        requires
            old(self)@.active && old(self)@.atoms is None ==> !(ev is ClientMessage
                || ev is PropertyNotify),
        ensures
            handled(old(self)@, *ev, final(self)@, r),
            wf(old(self)@) ==> wf(final(self)@),
    {
        if !self.active {
            return TrayAction::Nothing;
        }
        match ev {
            TrayEvent::ClientMessage { type_, data } => {
                let atoms = self.atoms.unwrap();
                if *type_ == atoms.net_system_tray_opcode && data[1] == 0 {
                    TrayAction::Dock { window: data[2] }
                } else {
                    TrayAction::Nothing
                }
            },
            TrayEvent::DestroyNotify { window } => {
                if let Some(i) = self.client_by_window(*window) {
                    TrayAction::Removed(self.remove_client(i))
                } else if let Some(i) = self.client_by_wrapper(*window) {
                    TrayAction::Removed(self.remove_client(i))
                } else {
                    TrayAction::Nothing
                }
            },
            TrayEvent::PropertyNotify { window, atom } => {
                let atoms = self.atoms.unwrap();
                if *atom == atoms.xembed_info {
                    if let Some(i) = self.client_by_window(*window) {
                        self.dirty = true;
                        TrayAction::QueryXembed { index: i, window: *window }
                    } else {
                        TrayAction::Nothing
                    }
                } else {
                    TrayAction::Nothing
                }
            },
            TrayEvent::ConfigureRequest { window } => {
                if self.client_by_window(*window).is_some() {
                    TrayAction::Configure { window: *window }
                } else {
                    TrayAction::Nothing
                }
            },
            TrayEvent::ReparentNotify { window, parent } => {
                if let Some(i) = self.client_by_window(*window) {
                    if *parent != self.clients[i].wrapper {
                        TrayAction::Removed(self.remove_client(i))
                    } else {
                        TrayAction::Nothing
                    }
                } else {
                    TrayAction::Nothing
                }
            },
            TrayEvent::SelectionClear { selection } => {
                if *selection == self.tray_atom {
                    TrayAction::Deactivated(self.deactivate())
                } else {
                    TrayAction::Nothing
                }
            },
            TrayEvent::Other => TrayAction::Nothing,
        }
    }
}

proof fn lemma_first_hit_exists(cs: Seq<TrayClient>, w: u32, by_window: bool, by_wrapper: bool, j: int)
    requires
        0 <= j < cs.len(),
        hits(cs[j], w, by_window, by_wrapper),
    ensures
        lookup(cs, w, by_window, by_wrapper) is Some,
    decreases j,
{
    if forall|k: int| 0 <= k < j ==> !hits(#[trigger] cs[k], w, by_window, by_wrapper) {
        assert(is_first_hit(cs, w, by_window, by_wrapper, j));
    } else {
        let k = choose|k: int| 0 <= k < j && hits(#[trigger] cs[k], w, by_window, by_wrapper);
        lemma_first_hit_exists(cs, w, by_window, by_wrapper, k);
    }
}

// ── the XEMBED and tray protocol data ──

/// Whether an XEMBED flags word asks for the client to be mapped.
pub fn is_xembed_mapped(flags: u32) -> (r: bool)
    ensures
        r == flags_mapped(flags),
{
    (flags & 1) != 0
}

/// Calls `u32::from_ne_bytes` on the first and on the second four bytes: the two numbers
/// they spell in the machine's byte order. That order is the same for both, and is little- or
/// big-endian; which one depends on the machine, so only that much is stated.
#[verifier::external_body]
fn u32_pair_from_ne_bytes(b: [u8; 8]) -> (r: (u32, u32))
    ensures
        same_order_words(b@, r.0, r.1),
{
    (u32::from_ne_bytes([b[0], b[1], b[2], b[3]]), u32::from_ne_bytes([b[4], b[5], b[6], b[7]]))
}

/// Calls `u32::to_ne_bytes`: the bytes of `x` in the machine's byte order, which is little-
/// or big-endian; which one depends on the machine, so only that much is stated.
#[verifier::external_body]
fn u32_to_ne_bytes(x: u32) -> (r: [u8; 4])
    ensures
        r@ == le_bytes(x) || r@ == be_bytes(x),
{
    x.to_ne_bytes()
}

/// Whether `v` and `f` are the first two words of `value`, both read in one byte order,
/// little- or big-endian.
pub open spec fn same_order_words(value: Seq<u8>, v: u32, f: u32) -> bool {
    ||| v as int == le_value(value.subrange(0, 4)) && f as int == le_value(value.subrange(4, 8))
    ||| v as int == be_value(value.subrange(0, 4)) && f as int == be_value(value.subrange(4, 8))
}

/// The XEMBED state that an `_XEMBED_INFO` property value gives: none when it is shorter
/// than two words; else its version and flags words.
pub fn decode_xembed_info(value: &[u8]) -> (r: XembedInfo)
    ensures
        r.is_xembed == (value@.len() >= 8),
        !r.is_xembed ==> r.version == 0 && r.flags == 0,
        r.is_xembed ==> same_order_words(value@, r.version, r.flags),
{
    if value.len() < 8 {
        return XembedInfo { is_xembed: false, version: 0, flags: 0 };
    }
    let b: [u8; 8] = [value[0], value[1], value[2], value[3], value[4], value[5], value[6], value[7]];
    let (v, f) = u32_pair_from_ne_bytes(b);
    assert(b@.subrange(0, 4) =~= value@.subrange(0, 4));
    assert(b@.subrange(4, 8) =~= value@.subrange(4, 8));
    XembedInfo { is_xembed: true, version: v, flags: f }
}

/// The `VisibilityNotify` event (code 15) for `window` in visibility `state`, as 32 bytes;
/// the window is written in the machine's byte order.
pub fn visibility_event(window: u32, state: u8) -> (r: [u8; 32])
    ensures
        r@[0] == 15u8,
        r@.subrange(4, 8) == le_bytes(window) || r@.subrange(4, 8) == be_bytes(window),
        r@[8] == state,
        forall|i: int| 0 <= i < 32 && !(i == 0 || 4 <= i <= 8) ==> r@[i] == 0u8,
{
    let w = u32_to_ne_bytes(window);
    let r: [u8; 32] = [
        15u8,
        0u8,
        0u8,
        0u8,
        w[0],
        w[1],
        w[2],
        w[3],
        state,
        0u8,
        0u8,
        0u8,
        0u8,
        0u8,
        0u8,
        0u8,
        0u8,
        0u8,
        0u8,
        0u8,
        0u8,
        0u8,
        0u8,
        0u8,
        0u8,
        0u8,
        0u8,
        0u8,
        0u8,
        0u8,
        0u8,
        0u8,
    ];
    assert(r@.subrange(4, 8) =~= w@);
    r
}

/// The `WM_NORMAL_HINTS` of a docked client: position and size set by the user, and minimum
/// and maximum size both `TRAY_SIZE` square.
pub fn size_hints() -> (r: [u32; 18])
    ensures
        r@ == seq![3u32, 0, 0, 0, 0, 20, 20, 20, 20, 0, 0, 0, 0, 0, 0, 0, 0, 0],
{
    let s = TRAY_SIZE as u32;
    let r: [u32; 18] = [3u32, 0, 0, 0, 0, s, s, s, s, 0, 0, 0, 0, 0, 0, 0, 0, 0];
    assert(r@ =~= seq![3u32, 0, 0, 0, 0, 20, 20, 20, 20, 0, 0, 0, 0, 0, 0, 0, 0, 0]);
    r
}

/// The data of the XEMBED `EMBEDDED_NOTIFY` message (opcode 0) that tells a client which
/// wrapper embeds it, at time `time`.
pub fn embedded_notify(time: u32, wrapper: u32) -> (r: [u32; 5])
    ensures
        r@ == seq![time, 0u32, wrapper, 0u32, 0u32],
{
    let r = [time, 0u32, wrapper, 0u32, 0u32];
    assert(r@ =~= seq![time, 0u32, wrapper, 0u32, 0u32]);
    r
}

// ── laws ──

/// A client that was just docked is the one found by its window, at the end of the list;
/// removing it again gives back the clients from before.
pub proof fn lemma_dock_then_find(m: TrayModel, wrapper: u32, window: u32, info: XembedInfo)
    requires
        m.clients.len() < MAX_CLIENTS,
        lookup(m.clients, window, true, false) is None,
    ensures
        lookup(m.clients.push(new_client(wrapper, window, info)), window, true, false) == Some(
            m.clients.len() as int,
        ),
        m.clients.push(new_client(wrapper, window, info)).remove(m.clients.len() as int)
            == m.clients,
{
    let cs = m.clients.push(new_client(wrapper, window, info));
    assert forall|j: int| 0 <= j < m.clients.len() implies !hits(
        #[trigger] cs[j],
        window,
        true,
        false,
    ) by {
        assert(cs[j] == m.clients[j]);
        if hits(m.clients[j], window, true, false) {
            lemma_first_hit_exists(m.clients, window, true, false, j);
        }
    }
    assert(is_first_hit(cs, window, true, false, m.clients.len() as int));
    lemma_lookup_first(cs, window, true, false, m.clients.len() as int);
    assert(cs.remove(m.clients.len() as int) =~= m.clients);
}

/// The shown icons end 6 pixels from the right edge of the bar: the last of `m` icons of
/// side `icon`, placed from `sw - strip_width(m, icon) - 6` on, ends at `sw - 6`.
pub proof fn lemma_layout_right_edge(m: nat, icon: int, sw: int)
    requires
        m > 0,
        icon > 0,
    ensures
        (sw - strip_width(m, icon) - 6) + (m - 1) * (icon + 6) + icon == sw - 6,
{
    assert((m - 1) * (icon + 6) == (m - 1) * icon + (m - 1) * 6) by (nonlinear_arith);
    assert(m * icon == (m - 1) * icon + icon) by (nonlinear_arith);
}

/// Shown icons do not overlap: a shown client before another has a smaller rank among the
/// shown ones, so the later icon starts at least `icon + 6` pixels further right.
pub proof fn lemma_layout_apart(cs: Seq<TrayClient>, i: int, j: int, icon: int)
    requires
        0 <= i < j <= cs.len(),
        cs[i].mapped,
        icon >= 0,
    ensures
        mapped_count(cs, j) >= mapped_count(cs, i) + 1,
        mapped_count(cs, j) * (icon + 6) >= mapped_count(cs, i) * (icon + 6) + icon + 6,
{
    lemma_mapped_count_le(cs, i + 1, j);
    let a = mapped_count(cs, i);
    let b = mapped_count(cs, j);
    assert(b * (icon + 6) >= a * (icon + 6) + icon + 6) by (nonlinear_arith)
        requires
            b >= a + 1,
            icon >= 0,
    ;
}

/// Laying out twice with the same XEMBED states gives the same clients as laying out once.
pub proof fn lemma_layout_idempotent(cs: Seq<TrayClient>, infos: Seq<XembedInfo>)
    requires
        infos.len() == cs.len(),
    ensures
        refreshed_all(refreshed_all(cs, infos), infos) == refreshed_all(cs, infos),
{
    assert(refreshed_all(refreshed_all(cs, infos), infos) =~= refreshed_all(cs, infos));
}

/// A running tray that keeps its invariant knows its protocol atoms and owns a real
/// selection atom, so every event may be handed to `handle_event`.
pub proof fn lemma_active_tray_ready(m: TrayModel, ev: TrayEvent)
    requires
        wf(m),
        m.active,
    ensures
        m.atoms is Some,
        m.tray_atom != 0,
        m.active && m.atoms is None ==> !(ev is ClientMessage || ev is PropertyNotify),
{
}

/// The horizontal position of the `k`-th shown icon lies within the bar's coordinates.
proof fn lemma_place_in_range(cs: Seq<TrayClient>, infos: Seq<XembedInfo>, sw: int, bh: int, icon: int, i: int)
    requires
        infos.len() == cs.len(),
        layout_fits(cs, infos, sw, bh, icon),
        0 <= i < cs.len(),
        refreshed_all(cs, infos)[i].mapped,
    ensures
        ({
            let rs = refreshed_all(cs, infos);
            let m = mapped_count(rs, rs.len() as int);
            let x0 = sw - strip_width(m, icon) - 6;
            &&& mapped_count(rs, i) + 1 <= m
            &&& place_x(action_for(rs[i], mapped_count(rs, i), x0, half_toward_zero(bh - icon), icon))
                == x0 + mapped_count(rs, i) * (icon + 6)
        }),
{
    let rs = refreshed_all(cs, infos);
    let m = mapped_count(rs, rs.len() as int);
    let k = mapped_count(rs, i);
    lemma_mapped_count_le(rs, i + 1, rs.len() as int);
    assert(mapped_count(rs, i + 1) == k + 1);
    assert(0 <= k * (icon + 6) <= m * (icon + 6)) by (nonlinear_arith)
        requires
            k + 1 <= m,
            icon >= 0,
    ;
}

/// Shown icons are set apart by the icon size and the 6-pixel gap: of two shown clients, the
/// later one's icon starts at least `icon + 6` pixels right of the earlier one's.
pub proof fn lemma_layout_spacing(
    cs: Seq<TrayClient>,
    infos: Seq<XembedInfo>,
    sw: int,
    bh: int,
    icon: int,
    i: int,
    j: int,
)
    requires
        infos.len() == cs.len(),
        layout_fits(cs, infos, sw, bh, icon),
        0 <= i < j < cs.len(),
    ensures
        ({
            let rs = refreshed_all(cs, infos);
            let m = mapped_count(rs, rs.len() as int);
            let x0 = sw - strip_width(m, icon) - 6;
            let y = half_toward_zero(bh - icon);
            rs[i].mapped && rs[j].mapped ==> place_x(action_for(rs[j], mapped_count(rs, j), x0, y, icon))
                >= place_x(action_for(rs[i], mapped_count(rs, i), x0, y, icon)) + icon + 6
        }),
{
    let rs = refreshed_all(cs, infos);
    if rs[i].mapped && rs[j].mapped {
        lemma_place_in_range(cs, infos, sw, bh, icon, i);
        lemma_place_in_range(cs, infos, sw, bh, icon, j);
        lemma_layout_apart(rs, i, j, icon);
    }
}

/// The last shown icon ends 6 pixels from the right edge of the bar.
pub proof fn lemma_layout_last_edge(
    cs: Seq<TrayClient>,
    infos: Seq<XembedInfo>,
    sw: int,
    bh: int,
    icon: int,
    j: int,
)
    requires
        infos.len() == cs.len(),
        layout_fits(cs, infos, sw, bh, icon),
        icon > 0,
        0 <= j < cs.len(),
        refreshed_all(cs, infos)[j].mapped,
        forall|k: int| j < k < cs.len() ==> !(#[trigger] refreshed_all(cs, infos)[k]).mapped,
    ensures
        ({
            let rs = refreshed_all(cs, infos);
            let m = mapped_count(rs, rs.len() as int);
            let x0 = sw - strip_width(m, icon) - 6;
            place_x(action_for(rs[j], mapped_count(rs, j), x0, half_toward_zero(bh - icon), icon))
                + icon == sw - 6
        }),
{
    let rs = refreshed_all(cs, infos);
    let m = mapped_count(rs, rs.len() as int);
    lemma_place_in_range(cs, infos, sw, bh, icon, j);
    lemma_count_hidden_tail(rs, j + 1);
    assert(mapped_count(rs, j + 1) == mapped_count(rs, j) + 1);
    lemma_layout_right_edge(m, icon, sw);
}

proof fn lemma_count_hidden_tail(cs: Seq<TrayClient>, k: int)
    requires
        0 <= k <= cs.len(),
        forall|i: int| k <= i < cs.len() ==> !(#[trigger] cs[i]).mapped,
    ensures
        mapped_count(cs, cs.len() as int) == mapped_count(cs, k),
    decreases cs.len() - k,
{
    if k < cs.len() {
        lemma_count_hidden_tail(cs, k + 1);
    }
}

/// Removing the client at `i` keeps the other clients in their order: those before it stay
/// where they are and those after it move one place down; the tray is marked for redrawing.
pub proof fn lemma_remove_keeps_order(m: TrayModel, i: int)
    requires
        0 <= i < m.clients.len(),
    ensures
        without_client(m, i).clients.len() == m.clients.len() - 1,
        forall|k: int| 0 <= k < i ==> #[trigger] without_client(m, i).clients[k] == m.clients[k],
        forall|k: int|
            i <= k < m.clients.len() - 1 ==> #[trigger] without_client(m, i).clients[k]
                == m.clients[k + 1],
        without_client(m, i).dirty,
{
}

/// A docked client records what it was docked with: its wrapper and window, its XEMBED state
/// as given, and neither mapped nor hidden until layout decides.
pub proof fn lemma_docked_record(wrapper: u32, window: u32, info: XembedInfo)
    ensures
        new_client(wrapper, window, info).wrapper == wrapper,
        new_client(wrapper, window, info).window == window,
        new_client(wrapper, window, info).xembed == info.is_xembed,
        new_client(wrapper, window, info).xembed_version == info.version,
        new_client(wrapper, window, info).xembed_flags == info.flags,
        !new_client(wrapper, window, info).mapped,
        !new_client(wrapper, window, info).hidden,
{
}

} // verus!
