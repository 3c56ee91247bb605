use autokey_rs::config::Conditions;
use autokey_rs::config::Config;
use autokey_rs::config::ConfigError;
use autokey_rs::config::ConfigItem;
use autokey_rs::config::ItemBody;
use autokey_rs::config::KeyMapping;
use autokey_rs::config::KeySeq;
use autokey_rs::config::KeySpec;
use autokey_rs::config::ModDisposition;
use autokey_rs::config::ModSpec;
use autokey_rs::config::VisitKeyMappingsState;
use autokey_rs::key::KeyboardMapping;
use autokey_rs::key::Keycode;
use autokey_rs::key::Keysym;

fn kc(n: u8) -> Keycode {
    Keycode::new(n).unwrap()
}

fn no_conditions() -> Conditions {
    Conditions { window_title: None }
}

fn allowed() -> ModSpec {
    Default::default()
}

fn shift_required() -> ModSpec {
    ModSpec { shift: ModDisposition::Required, ..allowed() }
}

fn rule_item(mods: ModSpec, input: KeySpec, output: KeySeq) -> ConfigItem {
    ConfigItem {
        name: None,
        enabled: true,
        conditions: no_conditions(),
        mods,
        body: ItemBody::KeyMapping(KeyMapping { input, output }),
    }
}

fn layout() -> KeyboardMapping {
    let mut km = KeyboardMapping::new();
    let a = Keysym::new(0x61);
    km.insert(a, kc(38));
    km.insert_name("a".to_string(), a);
    // A keysym that is named but has no keycode in this layout.
    km.insert_name("orphan".to_string(), Keysym::new(0x1234));
    km
}

#[test]
fn validate_resolves_names_and_codes() {
    let km = layout();
    let config = Config(vec![rule_item(
        shift_required(),
        KeySpec::Sym("a".to_string()),
        KeySeq::Key(KeySpec::Code(30)),
    )]);
    let valid = config.validate(&km).unwrap();
    assert_eq!(valid.key_mappings.len(), 1);
    let m = &valid.key_mappings[0];
    assert_eq!(m.input.value(), 38);
    assert_eq!(m.output.len(), 1);
    assert_eq!(m.output[0].len(), 1);
    assert_eq!(m.output[0][0].value(), 30);
    assert_eq!(m.mods.shift, ModDisposition::Required);
    assert!(m.conditions.window_title.is_none());
}

#[test]
fn validate_normalizes_chords_and_sequences() {
    let km = layout();
    let config = Config(vec![rule_item(
        allowed(),
        KeySpec::Code(38),
        KeySeq::ChordSeq(vec![
            vec![KeySpec::Code(30), KeySpec::Code(31)],
            vec![KeySpec::Sym("a".to_string())],
        ]),
    )]);
    let valid = config.validate(&km).unwrap();
    let out = &valid.key_mappings[0].output;
    assert_eq!(out.len(), 2);
    assert_eq!(out[0].iter().map(|k| k.value()).collect::<Vec<u8>>(), vec![30, 31]);
    assert_eq!(out[1][0].value(), 38);
}

#[test]
fn groups_merge_dispositions_and_conditions() {
    let km = layout();
    let nested = rule_item(
        ModSpec { ctrl: ModDisposition::Forbidden, ..allowed() },
        KeySpec::Code(38),
        KeySeq::Key(KeySpec::Code(30)),
    );
    let config = Config(vec![ConfigItem {
        name: Some("group".to_string()),
        enabled: true,
        conditions: Conditions { window_title: Some("editor".to_string()) },
        mods: shift_required(),
        body: ItemBody::Group { contents: vec![nested] },
    }]);
    let valid = config.validate(&km).unwrap();
    let m = &valid.key_mappings[0];
    assert_eq!(m.mods.shift, ModDisposition::Required);
    assert_eq!(m.mods.ctrl, ModDisposition::Forbidden);
    assert_eq!(m.conditions.window_title.as_deref(), Some("editor"));
}

#[test]
fn disabled_items_contribute_nothing() {
    let km = layout();
    let mut item = rule_item(allowed(), KeySpec::Code(38), KeySeq::Key(KeySpec::Code(30)));
    item.enabled = false;
    let config = Config(vec![item]);
    let valid = config.validate(&km).unwrap();
    assert_eq!(valid.key_mappings.len(), 0);
}

#[test]
fn zero_keycode_is_a_fatal_config_error() {
    let km = layout();
    let config = Config(vec![rule_item(
        allowed(),
        KeySpec::Code(0),
        KeySeq::Key(KeySpec::Code(30)),
    )]);
    assert_eq!(config.validate(&km).unwrap_err(), ConfigError::InvalidKeycode);
}

#[test]
fn unknown_key_name_is_a_fatal_config_error() {
    let km = layout();
    let config = Config(vec![rule_item(
        allowed(),
        KeySpec::Sym("nope".to_string()),
        KeySeq::Key(KeySpec::Code(30)),
    )]);
    assert_eq!(config.validate(&km).unwrap_err(), ConfigError::UnknownKeyName);
}

#[test]
fn keysym_without_keycode_is_a_fatal_config_error() {
    let km = layout();
    let config = Config(vec![rule_item(
        allowed(),
        KeySpec::Sym("orphan".to_string()),
        KeySeq::Key(KeySpec::Code(30)),
    )]);
    assert_eq!(config.validate(&km).unwrap_err(), ConfigError::UnresolvedKeysym);
}

#[test]
fn contradictory_dispositions_are_a_fatal_config_error() {
    let km = layout();
    let nested = rule_item(
        ModSpec { shift: ModDisposition::Forbidden, ..allowed() },
        KeySpec::Code(38),
        KeySeq::Key(KeySpec::Code(30)),
    );
    let config = Config(vec![ConfigItem {
        name: None,
        enabled: true,
        conditions: no_conditions(),
        mods: shift_required(),
        body: ItemBody::Group { contents: vec![nested] },
    }]);
    assert_eq!(config.validate(&km).unwrap_err(), ConfigError::IncompatibleDispositions);
}

#[test]
fn doubly_conditioned_groups_are_a_fatal_config_error() {
    let km = layout();
    let inner = ConfigItem {
        name: None,
        enabled: true,
        conditions: Conditions { window_title: Some("inner".to_string()) },
        mods: allowed(),
        body: ItemBody::KeyMapping(KeyMapping {
            input: KeySpec::Code(38),
            output: KeySeq::Key(KeySpec::Code(30)),
        }),
    };
    let config = Config(vec![ConfigItem {
        name: None,
        enabled: true,
        conditions: Conditions { window_title: Some("outer".to_string()) },
        mods: allowed(),
        body: ItemBody::Group { contents: vec![inner] },
    }]);
    assert_eq!(config.validate(&km).unwrap_err(), ConfigError::ConflictingConditions);
}

#[test]
fn visit_collects_rules_in_document_order() {
    let first = rule_item(allowed(), KeySpec::Code(38), KeySeq::Key(KeySpec::Code(30)));
    let second = rule_item(allowed(), KeySpec::Code(39), KeySeq::Key(KeySpec::Code(31)));
    let config = Config(vec![first, second]);
    let pairs = config.visit_key_mappings().unwrap();
    assert_eq!(pairs.len(), 2);
    match &pairs[0].0.input {
        KeySpec::Code(c) => assert_eq!(*c, 38),
        _ => panic!("expected a literal keycode"),
    }
    match &pairs[1].0.input {
        KeySpec::Code(c) => assert_eq!(*c, 39),
        _ => panic!("expected a literal keycode"),
    }
}

#[test]
fn visit_with_state_merges_the_inherited_state() {
    let item = rule_item(
        ModSpec { ctrl: ModDisposition::Forbidden, ..allowed() },
        KeySpec::Code(38),
        KeySeq::Key(KeySpec::Code(30)),
    );
    let state = VisitKeyMappingsState { mods: shift_required(), conditions: no_conditions() };
    let pairs = item.visit_key_mappings(&state).unwrap();
    assert_eq!(pairs.len(), 1);
    assert_eq!(pairs[0].1.mods.shift, ModDisposition::Required);
    assert_eq!(pairs[0].1.mods.ctrl, ModDisposition::Forbidden);
}

#[test]
fn conditions_combine_keeps_the_constrained_side() {
    let none = no_conditions();
    let some = Conditions { window_title: Some("term".to_string()) };
    assert_eq!(none.combine_with(&some).window_title.as_deref(), Some("term"));
    assert_eq!(some.combine_with(&none).window_title.as_deref(), Some("term"));
    assert!(none.combine_with(&none).window_title.is_none());
}
