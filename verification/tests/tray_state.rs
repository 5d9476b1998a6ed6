use statusbar::tray::{
    decode_xembed_info, embedded_notify, is_xembed_mapped, size_hints, visibility_event,
    LayoutAction, TrayAction, TrayAtoms, TrayEvent, TrayState, XembedInfo, MAX_CLIENTS,
};

const ATOMS: TrayAtoms = TrayAtoms {
    net_system_tray_opcode: 101,
    xembed: 102,
    xembed_info: 103,
    manager: 104,
    net_system_tray_orientation: 105,
    wm_normal_hints: 106,
};

const PLAIN: XembedInfo = XembedInfo { is_xembed: false, version: 0, flags: 0 };

fn running_tray() -> TrayState {
    let mut t = TrayState::new();
    t.init(7);
    assert!(t.set_tray_atom(50));
    t.set_atoms(ATOMS);
    assert!(t.owns_selection(7));
    t.activate();
    t
}

#[test]
fn new_tray_is_inactive_and_empty() {
    let t = TrayState::new();
    assert!(!t.active);
    assert!(!t.dirty);
    assert_eq!(t.tray_width, 0);
    assert_eq!(t.client_count(), 0);
    assert_eq!(t.find(1), None);
    assert!(t.atoms().is_none());
}

#[test]
fn init_steps() {
    let mut t = TrayState::new();
    t.init(9);
    assert_eq!(t.bar(), 9);
    assert!(!t.set_tray_atom(0));
    assert!(t.set_tray_atom(77));
    assert_eq!(t.tray_atom(), 77);
    assert!(!t.owns_selection(8));
    assert!(t.owns_selection(9));
    assert_eq!(t.manager_message(0), [0, 77, 9, 0, 0]);
    t.set_atoms(ATOMS);
    assert_eq!(t.atoms(), Some(ATOMS));
    t.activate();
    assert!(t.active && t.dirty);
}

#[test]
fn dock_and_find() {
    let mut t = running_tray();
    assert!(t.can_dock(1000));
    t.dock(2000, 1000, PLAIN);
    assert_eq!(t.client_count(), 1);
    assert_eq!(t.find(1000), Some(0));
    assert_eq!(t.find(2000), Some(0));
    assert_eq!(t.client_by_window(1000), Some(0));
    assert_eq!(t.client_by_window(2000), None);
    assert_eq!(t.client_by_wrapper(2000), Some(0));
    assert!(!t.can_dock(1000));
    let c = t.client(0);
    assert_eq!((c.wrapper, c.window, c.mapped, c.hidden), (2000, 1000, false, false));
}

#[test]
fn find_takes_the_first_match() {
    let mut t = running_tray();
    t.dock(5, 1, PLAIN);
    t.dock(6, 5, PLAIN);
    assert_eq!(t.find(5), Some(0));
    assert_eq!(t.client_by_window(5), Some(1));
}

#[test]
fn tray_holds_at_most_max_clients() {
    let mut t = running_tray();
    for i in 0..MAX_CLIENTS as u32 {
        assert!(t.can_dock(i + 1));
        t.dock(1000 + i, i + 1, PLAIN);
    }
    assert_eq!(t.client_count(), MAX_CLIENTS);
    assert!(!t.can_dock(9999));
}

#[test]
fn remove_client_marks_dirty() {
    let mut t = running_tray();
    t.dock(20, 10, PLAIN);
    t.dock(21, 11, PLAIN);
    t.dirty = false;
    let c = t.remove_client(0);
    assert_eq!(c.window, 10);
    assert!(t.dirty);
    assert_eq!(t.client_count(), 1);
    assert_eq!(t.find(11), Some(0));
}

#[test]
fn dock_then_remove_restores_clients() {
    let mut t = running_tray();
    t.dock(20, 10, PLAIN);
    t.dock(21, 11, PLAIN);
    let c = t.remove_client(1);
    assert_eq!(c.window, 11);
    assert_eq!(t.client_count(), 1);
    assert_eq!(t.client(0).window, 10);
}

#[test]
fn layout_places_icons_from_the_right() {
    let mut t = running_tray();
    t.dock(20, 10, PLAIN);
    t.dock(21, 11, XembedInfo { is_xembed: true, version: 0, flags: 0 });
    t.dock(22, 12, PLAIN);
    let (atom, windows) = t.layout_targets().unwrap();
    assert_eq!(atom, 103);
    assert_eq!(windows, vec![10, 11, 12]);
    let infos = vec![PLAIN, XembedInfo { is_xembed: true, version: 0, flags: 0 }, PLAIN];
    let mut margin = 0;
    let acts = t.layout(&infos, 1000, 30, 20, &mut margin).unwrap();
    assert_eq!(t.tray_width, 46);
    assert_eq!(margin, 64);
    assert_eq!(
        acts,
        vec![
            LayoutAction::Place { wrapper: 20, window: 10, x: 948, y: 5, size: 20 },
            LayoutAction::Hide { window: 11, wrapper: 21 },
            LayoutAction::Place { wrapper: 22, window: 12, x: 974, y: 5, size: 20 },
        ]
    );
    // the last icon ends 6 pixels from the right edge
    assert_eq!(974 + 20, 1000 - 6);
    assert!(t.client(0).mapped);
    assert!(!t.client(1).mapped);
}

#[test]
fn layout_follows_xembed_flags() {
    let mut t = running_tray();
    t.dock(20, 10, PLAIN);
    let infos = vec![XembedInfo { is_xembed: true, version: 1, flags: 1 }];
    let mut margin = 0;
    let acts = t.layout(&infos, 500, 25, 18, &mut margin).unwrap();
    assert_eq!(acts, vec![LayoutAction::Place { wrapper: 20, window: 10, x: 476, y: 3, size: 18 }]);
    assert_eq!(margin, 36);
    let c = t.client(0);
    assert!(c.xembed && c.mapped);
    assert_eq!(c.xembed_flags, 1);
}

#[test]
fn layout_rounds_height_toward_zero() {
    let mut t = running_tray();
    t.dock(20, 10, PLAIN);
    let mut margin = 0;
    let acts = t.layout(&vec![PLAIN], 100, 5, 20, &mut margin).unwrap();
    assert_eq!(acts, vec![LayoutAction::Place { wrapper: 20, window: 10, x: 74, y: -7, size: 20 }]);
    assert_eq!(-15 / 2, -7);
}

#[test]
fn layout_twice_is_layout_once() {
    let mut t = running_tray();
    t.dock(20, 10, PLAIN);
    t.dock(21, 11, PLAIN);
    let infos = vec![PLAIN, XembedInfo { is_xembed: true, version: 0, flags: 0 }];
    let mut m1 = 0;
    let a1 = t.layout(&infos, 800, 30, 20, &mut m1).unwrap();
    let mut m2 = 0;
    let a2 = t.layout(&infos, 800, 30, 20, &mut m2).unwrap();
    assert_eq!(a1, a2);
    assert_eq!(m1, m2);
}

#[test]
fn empty_layout_leaves_a_small_margin() {
    let mut t = running_tray();
    let mut margin = 99;
    let acts = t.layout(&vec![], 800, 30, 20, &mut margin).unwrap();
    assert!(acts.is_empty());
    assert_eq!(margin, 12);
    assert_eq!(t.tray_width, 0);
}

#[test]
fn layout_waits_until_ready() {
    let mut t = TrayState::new();
    assert!(t.layout_targets().is_none());
    let mut margin = 99;
    assert!(t.layout(&vec![], 800, 30, 20, &mut margin).is_none());
    assert_eq!(margin, 99);
    t.set_atoms(ATOMS);
    assert!(t.layout_targets().is_none());
}

#[test]
fn inactive_tray_ignores_events() {
    let mut t = TrayState::new();
    let a = t.handle_event(&TrayEvent::ClientMessage { type_: 101, data: [0, 0, 42, 0, 0] });
    assert!(matches!(a, TrayAction::Nothing));
}

#[test]
fn dock_request() {
    let mut t = running_tray();
    let a = t.handle_event(&TrayEvent::ClientMessage { type_: 101, data: [0, 0, 42, 0, 0] });
    assert!(matches!(a, TrayAction::Dock { window: 42 }));
    let a = t.handle_event(&TrayEvent::ClientMessage { type_: 101, data: [0, 1, 42, 0, 0] });
    assert!(matches!(a, TrayAction::Nothing));
    let a = t.handle_event(&TrayEvent::ClientMessage { type_: 999, data: [0, 0, 42, 0, 0] });
    assert!(matches!(a, TrayAction::Nothing));
}

#[test]
fn destroy_removes_by_window_or_wrapper() {
    let mut t = running_tray();
    t.dock(20, 10, PLAIN);
    t.dock(21, 11, PLAIN);
    let a = t.handle_event(&TrayEvent::DestroyNotify { window: 21 });
    assert!(matches!(a, TrayAction::Removed(c) if c.window == 11));
    let a = t.handle_event(&TrayEvent::DestroyNotify { window: 10 });
    assert!(matches!(a, TrayAction::Removed(c) if c.wrapper == 20));
    assert_eq!(t.client_count(), 0);
    let a = t.handle_event(&TrayEvent::DestroyNotify { window: 10 });
    assert!(matches!(a, TrayAction::Nothing));
}

#[test]
fn xembed_property_change() {
    let mut t = running_tray();
    t.dock(20, 10, PLAIN);
    t.dirty = false;
    let a = t.handle_event(&TrayEvent::PropertyNotify { window: 10, atom: 103 });
    assert!(matches!(a, TrayAction::QueryXembed { index: 0, window: 10 }));
    assert!(t.dirty);
    t.update_xembed(0, XembedInfo { is_xembed: true, version: 2, flags: 1 });
    let c = t.client(0);
    assert!(c.xembed);
    assert_eq!((c.xembed_version, c.xembed_flags), (2, 1));
    t.dirty = false;
    let a = t.handle_event(&TrayEvent::PropertyNotify { window: 10, atom: 3 });
    assert!(matches!(a, TrayAction::Nothing));
    assert!(!t.dirty);
}

#[test]
fn configure_requests_of_clients() {
    let mut t = running_tray();
    t.dock(20, 10, PLAIN);
    let a = t.handle_event(&TrayEvent::ConfigureRequest { window: 10 });
    assert!(matches!(a, TrayAction::Configure { window: 10 }));
    let a = t.handle_event(&TrayEvent::ConfigureRequest { window: 20 });
    assert!(matches!(a, TrayAction::Nothing));
}

#[test]
fn reparent_away_removes() {
    let mut t = running_tray();
    t.dock(20, 10, PLAIN);
    let a = t.handle_event(&TrayEvent::ReparentNotify { window: 10, parent: 20 });
    assert!(matches!(a, TrayAction::Nothing));
    let a = t.handle_event(&TrayEvent::ReparentNotify { window: 10, parent: 1 });
    assert!(matches!(a, TrayAction::Removed(c) if c.window == 10));
    assert_eq!(t.client_count(), 0);
}

#[test]
fn losing_the_selection_deactivates() {
    let mut t = running_tray();
    t.dock(20, 10, PLAIN);
    t.dock(21, 11, PLAIN);
    t.tray_width = 46;
    let a = t.handle_event(&TrayEvent::SelectionClear { selection: 49 });
    assert!(matches!(a, TrayAction::Nothing));
    let a = t.handle_event(&TrayEvent::SelectionClear { selection: 50 });
    match a {
        TrayAction::Deactivated(cs) => assert_eq!(cs.len(), 2),
        _ => panic!("expected deactivation"),
    }
    assert!(!t.active && t.dirty);
    assert_eq!(t.tray_width, 0);
    assert_eq!(t.client_count(), 0);
    let a = t.handle_event(&TrayEvent::ClientMessage { type_: 101, data: [0, 0, 42, 0, 0] });
    assert!(matches!(a, TrayAction::Nothing));
}

#[test]
fn other_events_do_nothing() {
    let mut t = running_tray();
    assert!(matches!(t.handle_event(&TrayEvent::Other), TrayAction::Nothing));
}

#[test]
fn deactivate_returns_clients() {
    let mut t = running_tray();
    t.dock(20, 10, PLAIN);
    let gone = t.deactivate();
    assert_eq!(gone.len(), 1);
    assert_eq!(gone[0].wrapper, 20);
    assert!(!t.active);
}

#[test]
fn xembed_mapped_flag() {
    assert!(is_xembed_mapped(1));
    assert!(is_xembed_mapped(3));
    assert!(!is_xembed_mapped(2));
    assert!(!is_xembed_mapped(0));
}

#[test]
fn xembed_info_words() {
    assert_eq!(decode_xembed_info(&[1, 2, 3, 4, 5, 6, 7]), XembedInfo { is_xembed: false, version: 0, flags: 0 });
    let mut v = Vec::new();
    v.extend_from_slice(&0x0000_0001u32.to_ne_bytes());
    v.extend_from_slice(&0x0000_0001u32.to_ne_bytes());
    v.push(9);
    assert_eq!(decode_xembed_info(&v), XembedInfo { is_xembed: true, version: 1, flags: 1 });
    let raw = [0x10, 0x20, 0x30, 0x40, 0xaa, 0xbb, 0xcc, 0xdd];
    let got = decode_xembed_info(&raw);
    assert_eq!(got.version, u32::from_ne_bytes([0x10, 0x20, 0x30, 0x40]));
    assert_eq!(got.flags, u32::from_ne_bytes([0xaa, 0xbb, 0xcc, 0xdd]));
}

#[test]
fn visibility_event_bytes() {
    let ev = visibility_event(0x0102_0304, 2);
    assert_eq!(ev[0], 15);
    assert_eq!(&ev[4..8], &0x0102_0304u32.to_ne_bytes());
    assert_eq!(ev[8], 2);
    assert!(ev[1..4].iter().all(|&b| b == 0));
    assert!(ev[9..].iter().all(|&b| b == 0));
}

#[test]
fn protocol_data() {
    assert_eq!(size_hints(), [3, 0, 0, 0, 0, 20, 20, 20, 20, 0, 0, 0, 0, 0, 0, 0, 0, 0]);
    assert_eq!(embedded_notify(0, 77), [0, 0, 77, 0, 0]);
}

#[test]
fn finished_dock_marks_dirty() {
    let mut t = running_tray();
    t.dirty = false;
    t.dock(20, 10, PLAIN);
    assert!(!t.dirty);
    t.finish_dock();
    assert!(t.dirty);
    assert_eq!(t.client_count(), 1);
}

#[test]
fn xembed_words_share_one_byte_order() {
    let raw = [0x01, 0x00, 0x00, 0x02, 0x03, 0x00, 0x00, 0x04];
    let got = decode_xembed_info(&raw);
    let le = (u32::from_le_bytes([1, 0, 0, 2]), u32::from_le_bytes([3, 0, 0, 4]));
    let be = (u32::from_be_bytes([1, 0, 0, 2]), u32::from_be_bytes([3, 0, 0, 4]));
    assert!((got.version, got.flags) == le || (got.version, got.flags) == be);
}
