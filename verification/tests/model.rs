use autokey_rs::config::ModDisposition;
use autokey_rs::config::ModDisposition::Allowed;
use autokey_rs::config::ModDisposition::Forbidden;
use autokey_rs::config::ModDisposition::Required;
use autokey_rs::config::ModSpec;
use autokey_rs::events::Button;
use autokey_rs::events::Event;
use autokey_rs::events::RecordedEvent;
use autokey_rs::events::UpOrDown;
use autokey_rs::events::WindowRef;
use autokey_rs::key::KeyboardMapping;
use autokey_rs::key::Keycode;
use autokey_rs::key::Keysym;
use autokey_rs::key::ModSet;
use autokey_rs::key::Modifier;
use autokey_rs::key::ModifierMapping;

fn kc(n: u8) -> Keycode {
    Keycode::new(n).unwrap()
}

fn spec(
    shift: ModDisposition,
    capslock: ModDisposition,
    ctrl: ModDisposition,
    alt: ModDisposition,
    numlock: ModDisposition,
    mod3: ModDisposition,
    super_: ModDisposition,
    mod5: ModDisposition,
) -> ModSpec {
    ModSpec { shift, capslock, ctrl, alt, numlock, mod3, super_, mod5 }
}

#[test]
fn keycode_zero_is_invalid() {
    assert!(Keycode::new(0).is_none());
    assert_eq!(Keycode::new(38).unwrap().value(), 38);
}

#[test]
fn mod_set_operations() {
    let a = ModSet::empty().insert(Modifier::Shift).insert(Modifier::Ctrl);
    let b = ModSet::empty().insert(Modifier::Shift);
    assert!(a.contains(Modifier::Shift));
    assert!(a.contains(Modifier::Ctrl));
    assert!(!a.contains(Modifier::Alt));
    assert!(b.is_subset(&a));
    assert!(!a.is_subset(&b));
    assert!(a.is_disjoint(&ModSet::empty().insert(Modifier::Alt)));
    assert!(!a.is_disjoint(&b));
    assert_eq!(a.union(&b), a);
    assert_eq!(a.intersect(&b), b);
    assert_eq!(a.difference(&b), ModSet::empty().insert(Modifier::Ctrl));
}

#[test]
fn mod_set_bits_roundtrip() {
    let a = ModSet::empty().insert(Modifier::Shift).insert(Modifier::Ctrl);
    assert_eq!(a.to_bits(), 0x05);
    assert_eq!(ModSet::from_bits_truncated(0x0005), a);
    // Bits beyond the eight modifiers are discarded.
    assert_eq!(ModSet::from_bits_truncated(0x0101), ModSet::empty().insert(Modifier::Shift));
}

#[test]
fn dispositions_partition_the_modifiers() {
    let s = spec(Required, Allowed, Forbidden, Allowed, Forbidden, Forbidden, Forbidden, Forbidden);
    let req = s.required_set();
    let all = s.allowed_set();
    let forb = s.forbidden_set();
    assert_eq!(req, ModSet::empty().insert(Modifier::Shift));
    assert_eq!(all, ModSet::empty().insert(Modifier::CapsLock).insert(Modifier::Alt));
    assert!(req.is_disjoint(&all));
    assert!(req.is_disjoint(&forb));
    assert!(all.is_disjoint(&forb));
    assert_eq!(req.union(&all).union(&forb).to_bits(), 0xff);
}

#[test]
fn mod_sets_enumerates_every_allowed_subset() {
    let s = spec(Required, Allowed, Forbidden, Allowed, Forbidden, Forbidden, Forbidden, Forbidden);
    let sets = s.mod_sets();
    // Two allowed modifiers: two to the power of two combinations.
    assert_eq!(sets.len(), 4);
    for a in &sets {
        assert!(s.required_set().is_subset(a));
        assert!(a.is_disjoint(&s.forbidden_set()));
    }
    for i in 0..sets.len() {
        for j in 0..sets.len() {
            if i != j {
                assert_ne!(sets[i], sets[j]);
            }
        }
    }
    let shift = ModSet::empty().insert(Modifier::Shift);
    assert!(sets.contains(&shift));
    assert!(sets.contains(&shift.insert(Modifier::CapsLock)));
    assert!(sets.contains(&shift.insert(Modifier::Alt)));
    assert!(sets.contains(&shift.insert(Modifier::CapsLock).insert(Modifier::Alt)));
}

#[test]
fn matches_requires_and_forbids() {
    let s = spec(Required, Allowed, Forbidden, Allowed, Allowed, Allowed, Allowed, Allowed);
    let shift = ModSet::empty().insert(Modifier::Shift);
    assert!(s.matches(shift));
    assert!(s.matches(shift.insert(Modifier::CapsLock)));
    assert!(!s.matches(ModSet::empty()));
    assert!(!s.matches(shift.insert(Modifier::Ctrl)));
    // The set formulation agrees.
    for active in [ModSet::empty(), shift, shift.insert(Modifier::Ctrl)] {
        assert_eq!(
            s.matches(active),
            s.required_set().is_subset(&active) && s.forbidden_set().is_disjoint(&active)
        );
    }
}

#[test]
fn disposition_round_trips_through_array() {
    let s = spec(Required, Allowed, Forbidden, Allowed, Required, Allowed, Forbidden, Allowed);
    let arr = s.to_array();
    assert_eq!(arr[0], Required);
    assert_eq!(arr[2], Forbidden);
    assert_eq!(ModSpec::from_slice(&arr), s);
    assert_eq!(s.disposition_of(Modifier::NumLock), Required);
}

#[test]
fn combine_with_keeps_the_constrained_side() {
    let group = spec(Required, Allowed, Allowed, Allowed, Allowed, Allowed, Allowed, Allowed);
    let item = spec(Required, Allowed, Forbidden, Allowed, Allowed, Allowed, Allowed, Allowed);
    assert!(group.compatible_with(&item));
    let merged = group.combine_with(&item);
    assert_eq!(merged.shift, Required);
    assert_eq!(merged.ctrl, Forbidden);
    assert_eq!(merged.alt, Allowed);
    let clash = spec(Forbidden, Allowed, Allowed, Allowed, Allowed, Allowed, Allowed, Allowed);
    assert!(!group.compatible_with(&clash));
}

#[test]
fn from_flag_is_sugar() {
    assert_eq!(ModDisposition::from_flag(true), ModDisposition::Required);
    assert_eq!(ModDisposition::from_flag(false), ModDisposition::Forbidden);
}

#[test]
fn default_mod_spec_is_unconstrained() {
    let s: ModSpec = Default::default();
    assert_eq!(s.shift, ModDisposition::Allowed);
    assert_eq!(s.mod5, ModDisposition::Allowed);
    assert!(s.matches(ModSet::empty()));
    assert!(s.matches(ModSet::from_bits_truncated(0x00ff)));
}

#[test]
fn keyboard_mapping_lookups() {
    let mut km = KeyboardMapping::new();
    let sym = Keysym::new(0x61);
    km.insert(sym, kc(38));
    km.insert(sym, kc(48));
    km.insert_name("a".to_string(), sym);
    let codes = km.keysym_to_keycodes(sym);
    assert_eq!(codes.len(), 2);
    assert_eq!(codes[0].value(), 38);
    assert_eq!(codes[1].value(), 48);
    assert_eq!(km.keycode_to_keysym(kc(38)), Some(sym));
    assert_eq!(km.keycode_to_keysym(kc(40)), None);
    assert_eq!(km.name_to_keysym(&"a".to_string()), Some(sym));
    assert_eq!(km.name_to_keysym(&"b".to_string()), None);
    // A later registration for the same keycode wins.
    let sym2 = Keysym::new(0x62);
    km.insert(sym2, kc(38));
    assert_eq!(km.keycode_to_keysym(kc(38)), Some(sym2));
    assert_eq!(sym2.value(), 0x62);
}

#[test]
fn modifier_mapping_lookups() {
    let mut mm = ModifierMapping::new();
    mm.insert(kc(50), Modifier::Shift);
    mm.insert(kc(62), Modifier::Shift);
    mm.insert(kc(37), Modifier::Ctrl);
    assert_eq!(mm.keycode_to_modifier(kc(50)), Some(Modifier::Shift));
    assert_eq!(mm.keycode_to_modifier(kc(38)), None);
    let codes = mm.modifier_to_keycodes(Modifier::Shift);
    assert_eq!(codes.len(), 2);
    assert_eq!(codes[0].value(), 50);
    assert_eq!(codes[1].value(), 62);
}

#[test]
fn decode_recorded_events() {
    let press = RecordedEvent::decode(2, 38, 0x0001).unwrap();
    assert_eq!(press.input.direction, UpOrDown::Down);
    assert_eq!(press.input.button, Button::Key(kc(38)));
    assert!(press.state.contains(Modifier::Shift));
    let release = RecordedEvent::decode(3, 38, 0).unwrap();
    assert_eq!(release.input.direction, UpOrDown::Up);
    let button_press = RecordedEvent::decode(4, 1, 0).unwrap();
    assert_eq!(button_press.input.button, Button::MouseButton(1));
    assert_eq!(button_press.input.direction, UpOrDown::Down);
    let button_release = RecordedEvent::decode(5, 3, 0).unwrap();
    assert_eq!(button_release.input.direction, UpOrDown::Up);
    // A key record with the reserved zero keycode is dropped.
    assert!(RecordedEvent::decode(2, 0, 0).is_err());
    // A record outside the press/release range is dropped.
    assert!(RecordedEvent::decode(6, 10, 0).is_err());
    assert!(RecordedEvent::decode(17, 10, 0).is_err());
}

#[test]
fn decode_primary_events() {
    let w = WindowRef::new(99);
    match Event::decode(16, w) {
        Ok(Event::CreateNotify { window }) => assert_eq!(window, w),
        _ => panic!("expected a window-creation event"),
    }
    assert!(Event::decode(2, w).is_err());
}
