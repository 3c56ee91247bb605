use autokey_rs::config::Conditions;
use autokey_rs::config::ModDisposition;
use autokey_rs::config::ModDisposition::Allowed;
use autokey_rs::config::ModDisposition::Forbidden;
use autokey_rs::config::ModDisposition::Required;
use autokey_rs::config::ModSpec;
use autokey_rs::config::ValidConfig;
use autokey_rs::config::ValidKeyMapping;
use autokey_rs::engine::build_output_events;
use autokey_rs::engine::Action;
use autokey_rs::engine::Engine;
use autokey_rs::events::Button;
use autokey_rs::events::InputEvent;
use autokey_rs::events::RecordedEvent;
use autokey_rs::events::UpOrDown;
use autokey_rs::events::WindowRef;
use autokey_rs::key::Keycode;
use autokey_rs::key::ModSet;
use autokey_rs::key::Modifier;
use autokey_rs::key::ModifierMapping;

fn kc(n: u8) -> Keycode {
    Keycode::new(n).unwrap()
}

fn down(n: u8) -> InputEvent {
    InputEvent { direction: UpOrDown::Down, button: Button::Key(kc(n)) }
}

fn up(n: u8) -> InputEvent {
    InputEvent { direction: UpOrDown::Up, button: Button::Key(kc(n)) }
}

fn observed(input: InputEvent) -> RecordedEvent {
    RecordedEvent { state: ModSet::empty(), input }
}

fn rule(mods: ModSpec, input: u8, output: Vec<Vec<u8>>) -> ValidKeyMapping {
    ValidKeyMapping {
        conditions: Conditions { window_title: None },
        mods,
        input: kc(input),
        output: output
            .into_iter()
            .map(|chord| chord.into_iter().map(kc).collect())
            .collect(),
    }
}

fn engine(rules: Vec<ValidKeyMapping>, modifier_keys: Vec<(u8, Modifier)>) -> Engine {
    let mut mm = ModifierMapping::new();
    for (code, m) in modifier_keys {
        mm.insert(kc(code), m);
    }
    Engine::new(ValidConfig { key_mappings: rules }, mm, WindowRef::new(1))
}

fn sends(plan: &[Action]) -> Vec<InputEvent> {
    plan.iter()
        .filter_map(|a| match a {
            Action::Send(e) => Some(*e),
            _ => None,
        })
        .collect()
}

fn allowed() -> ModSpec {
    Default::default()
}

fn shift_required() -> ModSpec {
    ModSpec { shift: ModDisposition::Required, ..allowed() }
}

#[test]
fn chord_reversal_law() {
    let output = vec![vec![kc(10), kc(11), kc(12)]];
    let events = build_output_events(&output);
    assert_eq!(events, vec![down(10), down(11), down(12), up(12), up(11), up(10)]);
}

#[test]
fn chord_sequence_plays_chords_in_turn() {
    let output = vec![vec![kc(10)], vec![kc(11), kc(12)]];
    let events = build_output_events(&output);
    assert_eq!(events, vec![down(10), up(10), down(11), down(12), up(12), up(11)]);
}

#[test]
fn shift_required_rule_fires_on_release() {
    // First rule wins; the later rule with the same trigger never fires.
    let mut e = engine(
        vec![
            rule(shift_required(), 38, vec![vec![30]]),
            rule(allowed(), 38, vec![vec![31]]),
        ],
        vec![(50, Modifier::Shift)],
    );
    assert!(e.handle_recorded_event(observed(down(50))).is_empty());
    assert!(e.handle_recorded_event(observed(down(38))).is_empty());
    let plan = e.handle_recorded_event(observed(up(38)));
    // The held shift key is outside the retained set (shift is required,
    // not allowed), so it is virtually released around the output.
    assert_eq!(sends(&plan), vec![up(50), down(30), up(30), down(50)]);
    for ev in sends(&plan) {
        assert_ne!(ev.button, Button::Key(kc(31)));
    }
}

#[test]
fn forbidden_modifier_blocks_the_rule() {
    let mut e = engine(
        vec![rule(
            ModSpec { ctrl: ModDisposition::Forbidden, ..allowed() },
            38,
            vec![vec![30]],
        )],
        vec![(37, Modifier::Ctrl)],
    );
    // While Ctrl is held the rule never matches.
    assert!(e.handle_recorded_event(observed(down(37))).is_empty());
    assert!(e.handle_recorded_event(observed(down(38))).is_empty());
    assert!(e.handle_recorded_event(observed(up(38))).is_empty());
    // Once Ctrl is released the same gesture fires.
    assert!(e.handle_recorded_event(observed(up(37))).is_empty());
    assert!(e.handle_recorded_event(observed(down(38))).is_empty());
    let plan = e.handle_recorded_event(observed(up(38)));
    assert_eq!(sends(&plan), vec![down(30), up(30)]);
}

#[test]
fn disjoint_required_sets_pick_the_satisfied_rule() {
    let shift_rule = rule(shift_required(), 38, vec![vec![30]]);
    let ctrl_rule = rule(
        ModSpec { ctrl: ModDisposition::Required, ..allowed() },
        38,
        vec![vec![31]],
    );
    let mut e = engine(
        vec![shift_rule, ctrl_rule],
        vec![(50, Modifier::Shift), (37, Modifier::Ctrl)],
    );
    // With Ctrl held, only the Ctrl rule fires.
    e.handle_recorded_event(observed(down(37)));
    e.handle_recorded_event(observed(down(38)));
    let plan = e.handle_recorded_event(observed(up(38)));
    assert_eq!(sends(&plan), vec![up(37), down(31), up(31), down(37)]);
    e.handle_recorded_event(observed(up(37)));
    // With Shift held, only the Shift rule fires.
    e.handle_recorded_event(observed(down(50)));
    e.handle_recorded_event(observed(down(38)));
    let plan = e.handle_recorded_event(observed(up(38)));
    assert_eq!(sends(&plan), vec![up(50), down(30), up(30), down(50)]);
}

#[test]
fn ignore_queue_suppresses_exact_echoes_only() {
    let mut e = engine(vec![rule(allowed(), 38, vec![vec![30]])], vec![]);
    // The engine sent down(30) successfully, so its echo must be swallowed.
    e.note_send_result(down(30), true);
    // A different event is not consumed: it still reaches matching.
    e.handle_recorded_event(observed(down(38)));
    let plan = e.handle_recorded_event(observed(up(38)));
    assert_eq!(sends(&plan), vec![down(30), up(30)]);
    // The queued echo itself is consumed without reaching matching.
    let echo_plan = e.handle_recorded_event(observed(down(30)));
    assert!(echo_plan.is_empty());
    // Once consumed, the queue is empty and the same event is real input
    // again: releasing key 30 matches no rule and plans nothing, while the
    // gesture on key 38 still fires.
    e.handle_recorded_event(observed(down(38)));
    let plan = e.handle_recorded_event(observed(up(38)));
    assert!(!plan.is_empty());
}

#[test]
fn failed_sends_are_not_queued() {
    let mut e = engine(vec![rule(allowed(), 38, vec![vec![30]])], vec![]);
    e.note_send_result(down(30), false);
    // Nothing was queued: the observed event is treated as real input.
    assert!(e.handle_recorded_event(observed(down(30))).is_empty());
    e.handle_recorded_event(observed(up(30)));
    // The engine still dispatches normally afterwards.
    e.handle_recorded_event(observed(down(38)));
    assert!(!e.handle_recorded_event(observed(up(38))).is_empty());
}

#[test]
fn press_events_and_mouse_buttons_do_not_trigger() {
    let mut e = engine(vec![rule(allowed(), 38, vec![vec![30]])], vec![]);
    assert!(e.handle_recorded_event(observed(down(38))).is_empty());
    let mouse_up = InputEvent { direction: UpOrDown::Up, button: Button::MouseButton(2) };
    assert!(e.handle_recorded_event(observed(mouse_up)).is_empty());
}

#[test]
fn matched_burst_ungrabs_before_sending_and_restores() {
    let mut e = engine(vec![rule(allowed(), 38, vec![vec![30]])], vec![]);
    // Register the grabs a running engine would hold, including one for the
    // synthesized key so the burst must release and re-acquire it.
    e.grab_keys_for_window(WindowRef::new(1));
    e.handle_recorded_event(observed(down(38)));
    let plan = e.handle_recorded_event(observed(up(38)));
    let ungrabs: Vec<_> = plan
        .iter()
        .filter(|a| matches!(a, Action::GrabCmd(g) if !g.is_grabbed))
        .collect();
    let regrabs: Vec<_> = plan
        .iter()
        .filter(|a| matches!(a, Action::GrabCmd(g) if g.is_grabbed))
        .collect();
    // Nothing was grabbed for key 30, so no bracket is needed for it; the
    // grabs for key 38 stay untouched because 38 is not synthesized.
    assert_eq!(ungrabs.len(), regrabs.len());
    assert_eq!(sends(&plan), vec![down(30), up(30)]);
}

#[test]
fn grab_keys_registers_every_combination() {
    let mods = ModSpec {
        shift: Required,
        capslock: Allowed,
        ctrl: Forbidden,
        alt: Forbidden,
        numlock: Forbidden,
        mod3: Forbidden,
        super_: Forbidden,
        mod5: Forbidden,
    };
    let mut e = engine(vec![rule(mods, 38, vec![vec![30]])], vec![]);
    let cmds = e.grab_keys_for_window(WindowRef::new(7));
    assert_eq!(cmds.len(), 2);
    let shift = ModSet::empty().insert(Modifier::Shift);
    for c in &cmds {
        assert!(c.is_grabbed);
        assert_eq!(c.window, WindowRef::new(7));
        assert_eq!(c.keycode.value(), 38);
    }
    let states: Vec<ModSet> = cmds.iter().map(|c| c.state).collect();
    assert!(states.contains(&shift));
    assert!(states.contains(&shift.insert(Modifier::CapsLock)));
}

#[test]
fn burst_presses_missing_required_modifier_keys() {
    // The rule retains CapsLock if held; with CapsLock held it is kept
    // pressed through the burst, so nothing is released or pressed.
    let mut e = engine(
        vec![rule(allowed(), 38, vec![vec![30]])],
        vec![(66, Modifier::CapsLock)],
    );
    e.handle_recorded_event(observed(down(66)));
    e.handle_recorded_event(observed(down(38)));
    let plan = e.handle_recorded_event(observed(up(38)));
    // CapsLock is allowed and held: it stays down across the burst.
    assert_eq!(sends(&plan), vec![down(30), up(30)]);
}
