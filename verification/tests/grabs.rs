use autokey_rs::events::WindowRef;
use autokey_rs::key::Keycode;
use autokey_rs::key::ModSet;
use autokey_rs::key::Modifier;
use autokey_rs::key_grabber::GrabEntry;
use autokey_rs::key_grabber::KeyGrabber;

fn kc(n: u8) -> Keycode {
    Keycode::new(n).unwrap()
}

fn entries(g: &KeyGrabber) -> Vec<GrabEntry> {
    g.active_entries()
}

#[test]
fn grab_is_idempotent() {
    let w = WindowRef::new(1);
    let mut g = KeyGrabber::new();
    let first = g.grab_key(w, kc(38), ModSet::empty());
    // Exactly one underlying server grab call.
    assert_eq!(first.len(), 1);
    assert!(first[0].is_grabbed);
    assert_eq!(first[0].keycode.value(), 38);
    let second = g.grab_key(w, kc(38), ModSet::empty());
    // The repeat reaches the server not at all.
    assert_eq!(second.len(), 0);
    // The combination is registered exactly once.
    let active = entries(&g);
    assert_eq!(active.len(), 1);
    assert_eq!(active[0].keycode.value(), 38);
}

#[test]
fn ungrab_releases_every_active_combination() {
    let w = WindowRef::new(1);
    let mut g = KeyGrabber::new();
    let shift = ModSet::empty().insert(Modifier::Shift);
    g.grab_key(w, kc(38), ModSet::empty());
    g.grab_key(w, kc(38), shift);
    g.grab_key(w, kc(39), ModSet::empty());
    let cmds = g.ungrab_key(w, kc(38));
    assert_eq!(cmds.len(), 2);
    for c in &cmds {
        assert!(!c.is_grabbed);
        assert_eq!(c.keycode.value(), 38);
    }
    let active = entries(&g);
    assert_eq!(active.len(), 1);
    assert_eq!(active[0].keycode.value(), 39);
    // Releasing a key with no registration is a no-op.
    let none = g.ungrab_key(w, kc(38));
    assert_eq!(none.len(), 0);
}

#[test]
fn push_pop_restores_the_exact_table() {
    let w = WindowRef::new(1);
    let mut g = KeyGrabber::new();
    let shift = ModSet::empty().insert(Modifier::Shift);
    g.grab_key(w, kc(38), ModSet::empty());
    g.grab_key(w, kc(38), shift);
    let before: Vec<GrabEntry> = entries(&g);

    g.push_state();
    g.ungrab_key(w, kc(38));
    g.grab_key(w, kc(40), ModSet::empty());
    g.grab_key(w, kc(41), shift);
    g.ungrab_key(w, kc(41));
    assert_eq!(entries(&g).len(), 1);
    g.pop_state();

    let after = entries(&g);
    assert_eq!(after.len(), before.len());
    for e in &before {
        assert!(after.contains(e));
    }
    for e in &after {
        assert!(before.contains(e));
    }
}

#[test]
fn nested_transactions_restore_in_order() {
    let w = WindowRef::new(1);
    let mut g = KeyGrabber::new();
    g.grab_key(w, kc(38), ModSet::empty());

    g.push_state();
    g.ungrab_key(w, kc(38));
    g.push_state();
    g.grab_key(w, kc(39), ModSet::empty());
    assert_eq!(entries(&g).len(), 1);
    g.pop_state();
    // The inner pop removes only the inner change.
    assert_eq!(entries(&g).len(), 0);
    g.pop_state();
    // The outer pop restores the original registration.
    let active = entries(&g);
    assert_eq!(active.len(), 1);
    assert_eq!(active[0].keycode.value(), 38);
}

#[test]
fn pop_commands_carry_the_restoration() {
    let w = WindowRef::new(1);
    let mut g = KeyGrabber::new();
    g.grab_key(w, kc(38), ModSet::empty());
    g.push_state();
    g.ungrab_key(w, kc(38));
    let cmds = g.pop_state();
    // Restoring the released grab takes exactly one server call.
    assert_eq!(cmds.len(), 1);
    assert!(cmds[0].is_grabbed);
    assert_eq!(cmds[0].keycode.value(), 38);
}
