//! The remap dispatch engine: tracks which keys are down and which
//! modifiers are active, suppresses echoes of its own synthesized events,
//! matches release events against the compiled rules, and plans the exact
//! burst of server commands and synthetic events a match emits.
//!
//! The engine performs no I/O: `handle_recorded_event` returns the ordered
//! action plan for the shell to execute, and `note_send_result` records
//! which synthetic events were actually accepted by the server.

use vstd::prelude::*;

use crate::config::ValidConfig;
use crate::config::ValidKeyMapping;
use crate::events::Button;
use crate::events::InputEvent;
use crate::events::RecordedEvent;
use crate::events::UpOrDown;
use crate::events::WindowRef;
use crate::key::all_modifiers;
use crate::key::Keycode;
use crate::key::ModSet;
use crate::key::Modifier;
use crate::key::ModifierMapping;
use crate::key_grabber::actions_effective;
use crate::key_grabber::apply_actions;
use crate::key_grabber::entry_of;
use crate::key_grabber::lemma_actions_effective_add;
use crate::key_grabber::lemma_apply_actions_add;
use crate::key_grabber::Grab;
use crate::key_grabber::GrabEntry;
use crate::key_grabber::KeyGrabber;

verus! {

broadcast use vstd::set::group_set_axioms, vstd::seq::group_seq_axioms;

/// One step of a dispatch plan, in execution order: flush the output
/// connection, issue a grab command, or send a synthetic input event.
#[derive(Clone, Copy, Debug, PartialEq, Eq, Structural)]
pub enum Action {
    Flush,
    GrabCmd(Grab),
    Send(InputEvent),
}

/// The synthetic events a plan sends, in order.
pub open spec fn sends_of(plan: Seq<Action>) -> Seq<InputEvent>
    decreases plan.len(),
{
    if plan.len() == 0 {
        Seq::empty()
    } else {
        let rest = sends_of(plan.drop_last());
        match plan.last() {
            Action::Send(e) => rest.push(e),
            _ => rest,
        }
    }
}

/// The grab commands a plan issues, in order.
pub open spec fn grabs_of(plan: Seq<Action>) -> Seq<Grab>
    decreases plan.len(),
{
    if plan.len() == 0 {
        Seq::empty()
    } else {
        let rest = grabs_of(plan.drop_last());
        match plan.last() {
            Action::GrabCmd(g) => rest.push(g),
            _ => rest,
        }
    }
}

/// The modifiers derived from a list of held keys: the union of the
/// modifier, if any, that each held key triggers.
pub open spec fn derived_modifiers(mm: ModifierMapping, keys: Seq<Keycode>) -> ModSet
    decreases keys.len(),
{
    if keys.len() == 0 {
        ModSet::spec_empty()
    } else {
        let rest = derived_modifiers(mm, keys.drop_last());
        match mm.spec_modifier_of(keys.last()) {
            Some(m) => rest.spec_insert(m),
            None => rest,
        }
    }
}

/// Keys in strictly ascending keycode order, each at most once.
pub open spec fn sorted_keys(keys: Seq<Keycode>) -> bool {
    forall|i: int, j: int|
        0 <= i < j < keys.len() ==> (#[trigger] keys[i]).spec_value() < (
        #[trigger] keys[j]).spec_value()
}

/// A key-down event for `k`.
pub open spec fn down_event(k: Keycode) -> InputEvent {
    InputEvent { direction: UpOrDown::Down, button: Button::Key(k) }
}

/// A key-up event for `k`.
pub open spec fn up_event(k: Keycode) -> InputEvent {
    InputEvent { direction: UpOrDown::Up, button: Button::Key(k) }
}

/// The events that play one chord: press every key in order, then release
/// them in reverse order, so the chord closes inside itself.
pub open spec fn chord_events(chord: Seq<Keycode>) -> Seq<InputEvent> {
    Seq::new(chord.len(), |i: int| down_event(chord[i])) + Seq::new(
        chord.len(),
        |i: int| up_event(chord[chord.len() - 1 - i]),
    )
}

/// The events that play a sequence of chords, one chord after the other.
pub open spec fn output_events(chords: Seq<Seq<Keycode>>) -> Seq<InputEvent>
    decreases chords.len(),
{
    if chords.len() == 0 {
        Seq::empty()
    } else {
        output_events(chords.drop_last()) + chord_events(chords.last())
    }
}

/// Builds the flat event list that plays the given chords.
pub fn build_output_events(output: &Vec<Vec<Keycode>>) -> (r: Vec<InputEvent>)
    ensures
        r@ == output_events(output@.map_values(|chord: Vec<Keycode>| chord@)),
{
    let ghost mapped = output@.map_values(|chord: Vec<Keycode>| chord@);
    let mut r: Vec<InputEvent> = Vec::new();
    let mut i: usize = 0;
    proof {
        assert(mapped.take(0) =~= Seq::<Seq<Keycode>>::empty());
    }
    while i < output.len()
        invariant
            i <= output@.len(),
            mapped == output@.map_values(|chord: Vec<Keycode>| chord@),
            output@.len() == mapped.len(),
            r@ == output_events(mapped.take(i as int)),
        decreases output@.len() - i,
    {
        let chord = &output[i];
        let ghost before_chord = r@;
        let mut j: usize = 0;
        while j < chord.len()
            invariant
                j <= chord@.len(),
                r@ == before_chord + Seq::new(j as nat, |t: int| down_event(chord@[t])),
            decreases chord@.len() - j,
        {
            r.push(InputEvent { direction: UpOrDown::Down, button: Button::Key(chord[j]) });
            proof {
                assert(r@ =~= before_chord + Seq::new((j + 1) as nat, |t: int| down_event(chord@[t])));
            }
            j = j + 1;
        }
        let ghost mid = r@;
        let mut t: usize = chord.len();
        while t > 0
            invariant
                t <= chord@.len(),
                mid == before_chord + Seq::new(chord@.len(), |u: int| down_event(chord@[u])),
                r@ == mid + Seq::new(
                    (chord@.len() - t) as nat,
                    |u: int| up_event(chord@[chord@.len() - 1 - u]),
                ),
            decreases t,
        {
            t = t - 1;
            r.push(InputEvent { direction: UpOrDown::Up, button: Button::Key(chord[t]) });
            proof {
                assert(r@ =~= mid + Seq::new(
                    (chord@.len() - t) as nat,
                    |u: int| up_event(chord@[chord@.len() - 1 - u]),
                ));
            }
        }
        proof {
            assert(mapped.take(i + 1).drop_last() =~= mapped.take(i as int));
            assert(mapped.take(i + 1).last() == mapped[i as int]);
            assert(mapped[i as int] == chord@);
            assert(r@ =~= output_events(mapped.take(i as int)) + chord_events(chord@));
        }
        i = i + 1;
    }
    proof {
        assert(mapped.take(mapped.len() as int) =~= mapped);
    }
    r
}


/// The dispatch engine's state: the compiled rules, the layout's modifier
/// table, the keys currently down with their derived modifier set, the
/// queue of self-synthesized events to ignore when they echo back, and the
/// grab state machine.
pub struct Engine {
    valid_config: ValidConfig,
    modifier_mapping: ModifierMapping,
    root_window: WindowRef,
    keys_down: Vec<Keycode>,
    modifiers: ModSet,
    ignore_queue: Vec<InputEvent>,
    grabber: KeyGrabber,
}

impl Engine {
    /// The compiled rules, in match order.
    pub closed spec fn rules(self) -> Seq<ValidKeyMapping> {
        self.valid_config.key_mappings@
    }

    /// The layout's modifier table.
    pub closed spec fn mapping(self) -> ModifierMapping {
        self.modifier_mapping
    }

    /// The window synthetic events are ungrabbed at.
    pub closed spec fn root(self) -> WindowRef {
        self.root_window
    }

    /// The keys currently tracked as held, ascending.
    pub closed spec fn keys(self) -> Seq<Keycode> {
        self.keys_down@
    }

    /// The modifier set derived from the held keys.
    pub closed spec fn mods(self) -> ModSet {
        self.modifiers
    }

    /// The queued self-synthesized events awaiting their echo, oldest first.
    pub closed spec fn queue(self) -> Seq<InputEvent> {
        self.ignore_queue@
    }

    /// The grab registrations currently held.
    pub closed spec fn table(self) -> Set<GrabEntry> {
        self.grabber.table()
    }

    /// The engine's invariant: held keys are sorted and unique, the stored
    /// modifier set is exactly the one derived from them, and the grab
    /// machine is well formed with no transaction left open.
    pub closed spec fn wf(self) -> bool {
        &&& sorted_keys(self.keys_down@)
        &&& self.modifiers == derived_modifiers(self.modifier_mapping, self.keys_down@)
        &&& self.grabber.wf()
        &&& self.grabber.depth() == 0
    }

    /// Builds an engine over a compiled rule set and modifier layout; no
    /// key is held, nothing is queued, nothing is grabbed.
    pub fn new(valid_config: ValidConfig, modifier_mapping: ModifierMapping, root_window: WindowRef)
        -> (r: Engine)
        ensures
            r.wf(),
            r.rules() == valid_config.key_mappings@,
            r.mapping() == modifier_mapping,
            r.root() == root_window,
            r.keys() == Seq::<Keycode>::empty(),
            r.mods() == ModSet::spec_empty(),
            r.queue() == Seq::<InputEvent>::empty(),
            r.table() == Set::<GrabEntry>::empty(),
    {
        Engine {
            valid_config,
            modifier_mapping,
            root_window,
            keys_down: Vec::new(),
            modifiers: ModSet::empty(),
            ignore_queue: Vec::new(),
            grabber: KeyGrabber::new(),
        }
    }
}

/// Inserts a key into a sorted unique key list, keeping it sorted; a key
/// already present is left alone.
#[verifier::rlimit(60)]
fn insert_key(keys: &mut Vec<Keycode>, k: Keycode)
    requires
        sorted_keys(old(keys)@),
    ensures
        sorted_keys(final(keys)@),
        final(keys)@.contains(k),
        forall|x: Keycode| old(keys)@.contains(x) ==> final(keys)@.contains(x),
        forall|x: Keycode|
            #[trigger] final(keys)@.contains(x) ==> (old(keys)@.contains(x) || x == k),
{
    let mut i: usize = 0;
    while i < keys.len() && keys[i].value() < k.value()
        invariant
            keys@ == old(keys)@,
            i <= keys@.len(),
            sorted_keys(keys@),
            forall|t: int| 0 <= t < i ==> (#[trigger] keys@[t]).spec_value() < k.spec_value(),
        decreases keys@.len() - i,
    {
        i = i + 1;
    }
    if i < keys.len() && keys[i].value() == k.value() {
        proof {
            Keycode::lemma_value_injective(keys@[i as int], k);
            assert(keys@.contains(k));
        }
        return ;
    }
    let ghost prev = keys@;
    keys.insert(i, k);
    proof {
        prev.insert_ensures(i as int, k);
        assert(keys@ == prev.insert(i as int, k));
        assert(keys@[i as int] == k);
        assert(keys@.contains(k));
        assert forall|x: Keycode| prev.contains(x) implies keys@.contains(x) by {
            let t = choose|t: int| 0 <= t < prev.len() && prev[t] == x;
            if t < i {
                assert(keys@[t] == x);
            } else {
                assert(keys@[t + 1] == x);
            }
        }
        assert forall|x: Keycode|
            #[trigger] keys@.contains(x) implies (prev.contains(x) || x == k) by {
            let t = choose|t: int| 0 <= t < keys@.len() && keys@[t] == x;
            if t < i {
                assert(prev[t] == x);
                assert(prev.contains(x));
            } else if t > i {
                assert(prev[t - 1] == x);
                assert(prev.contains(x));
            } else {
                assert(keys@[i as int] == k);
            }
        }
        assert forall|a: int, b: int|
            0 <= a < b < keys@.len() implies (#[trigger] keys@[a]).spec_value() < (
        #[trigger] keys@[b]).spec_value() by {
            if b < i {
            } else if a < i && b == i {
            } else if a == i {
                assert(keys@[b] == prev[b - 1]);
                if b - 1 > i {
                    assert(prev[i as int].spec_value() < prev[b - 1].spec_value());
                }
            } else if a < i {
                assert(keys@[a] == prev[a]);
                assert(keys@[b] == prev[b - 1]);
            } else {
                assert(keys@[a] == prev[a - 1]);
                assert(keys@[b] == prev[b - 1]);
            }
        }
    }
}

/// Removes a key from a sorted unique key list; an absent key is a no-op.
fn remove_key(keys: &mut Vec<Keycode>, k: Keycode)
    requires
        sorted_keys(old(keys)@),
    ensures
        sorted_keys(final(keys)@),
        forall|x: Keycode| final(keys)@.contains(x) == (old(keys)@.contains(x) && x != k),
{
    let mut i: usize = 0;
    while i < keys.len()
        invariant
            keys@ == old(keys)@,
            i <= keys@.len(),
            sorted_keys(keys@),
            forall|t: int| 0 <= t < i ==> keys@[t] != k,
        decreases keys@.len() - i,
    {
        if keys[i] == k {
            let ghost prev = keys@;
            keys.remove(i);
            proof {
                assert forall|a: int, b: int|
                    0 <= a < b < keys@.len() implies (#[trigger] keys@[a]).spec_value() < (
                #[trigger] keys@[b]).spec_value() by {
                    let pa: int = if a < i { a } else { a + 1 };
                    let pb: int = if b < i { b } else { b + 1 };
                    assert(keys@[a] == prev[pa]);
                    assert(keys@[b] == prev[pb]);
                }
                assert forall|x: Keycode| keys@.contains(x) == (prev.contains(x) && x != k) by {
                    if keys@.contains(x) {
                        let t = choose|t: int| 0 <= t < keys@.len() && keys@[t] == x;
                        let pt: int = if t < i { t } else { t + 1 };
                        assert(prev[pt] == x);
                        if pt != i {
                            assert(prev[pt].spec_value() != prev[i as int].spec_value());
                        }
                    }
                    if prev.contains(x) && x != k {
                        let t = choose|t: int| 0 <= t < prev.len() && prev[t] == x;
                        if t < i {
                            assert(keys@[t] == x);
                        } else {
                            assert(t != i);
                            assert(keys@[t - 1] == x);
                        }
                    }
                }
            }
            return ;
        }
        i = i + 1;
    }
    proof {
        assert(!keys@.contains(k));
    }
}

/// Recomputes the modifier set derived from the held keys.
fn derive_modifiers(mm: &ModifierMapping, keys: &Vec<Keycode>) -> (r: ModSet)
    ensures
        r == derived_modifiers(*mm, keys@),
{
    let mut r = ModSet::empty();
    let mut i: usize = 0;
    proof {
        assert(keys@.take(0) =~= Seq::<Keycode>::empty());
    }
    while i < keys.len()
        invariant
            i <= keys@.len(),
            r == derived_modifiers(*mm, keys@.take(i as int)),
        decreases keys@.len() - i,
    {
        proof {
            assert(keys@.take(i + 1).drop_last() =~= keys@.take(i as int));
            assert(keys@.take(i + 1).last() == keys@[i as int]);
        }
        match mm.keycode_to_modifier(keys[i]) {
            Some(m) => {
                r = r.insert(m);
            },
            None => {},
        }
        i = i + 1;
    }
    proof {
        assert(keys@.take(keys@.len() as int) =~= keys@);
    }
    r
}

/// Whether rule `r` fires for a release of `key` under active modifiers
/// `mods`.
pub open spec fn rule_matches(r: ValidKeyMapping, key: Keycode, mods: ModSet) -> bool {
    r.input == key && r.mods.spec_matches(mods)
}

/// Finds the first rule that fires for a release of `key` under `mods`.
fn find_match(rules: &Vec<ValidKeyMapping>, key: Keycode, mods: ModSet) -> (r: Option<usize>)
    ensures
        match r {
            Some(i) => i < rules@.len() && rule_matches(rules@[i as int], key, mods)
                && forall|j: int| 0 <= j < i ==> !rule_matches(rules@[j], key, mods),
            None => forall|j: int| 0 <= j < rules@.len() ==> !rule_matches(rules@[j], key, mods),
        },
{
    let mut i: usize = 0;
    while i < rules.len()
        invariant
            i <= rules@.len(),
            forall|j: int| 0 <= j < i ==> !rule_matches(rules@[j], key, mods),
        decreases rules@.len() - i,
    {
        let rule = &rules[i];
        if rule.input == key && rule.mods.matches(mods) {
            return Some(i);
        }
        i = i + 1;
    }
    None
}


/// Key-up events for each key, in order.
pub open spec fn ups(keys: Seq<Keycode>) -> Seq<InputEvent> {
    keys.map_values(|k: Keycode| up_event(k))
}

/// Key-down events for each key, in order.
pub open spec fn downs(keys: Seq<Keycode>) -> Seq<InputEvent> {
    keys.map_values(|k: Keycode| down_event(k))
}

/// The held keys whose modifier must not stay asserted: each key that
/// triggers a modifier outside the desired set, in held order.
pub open spec fn release_keys(mm: ModifierMapping, keys: Seq<Keycode>, desired: ModSet) -> Seq<
    Keycode,
>
    decreases keys.len(),
{
    if keys.len() == 0 {
        Seq::empty()
    } else {
        let rest = release_keys(mm, keys.drop_last(), desired);
        match mm.spec_modifier_of(keys.last()) {
            Some(m) => if !desired.has(m) {
                rest.push(keys.last())
            } else {
                rest
            },
            None => rest,
        }
    }
}

/// The modifier at one bit position.
pub open spec fn modifier_index(i: int) -> Modifier {
    if i == 0 {
        Modifier::Shift
    } else if i == 1 {
        Modifier::CapsLock
    } else if i == 2 {
        Modifier::Ctrl
    } else if i == 3 {
        Modifier::Alt
    } else if i == 4 {
        Modifier::NumLock
    } else if i == 5 {
        Modifier::Mod3
    } else {
        if i == 6 {
            Modifier::Super
        } else {
            Modifier::Mod5
        }
    }
}

/// One trigger key for each wanted modifier from bit position `i` on: the
/// first keycode the layout lists for it, skipping modifiers the layout
/// gives no key.
pub open spec fn press_keys(mm: ModifierMapping, want: ModSet, i: int) -> Seq<Keycode>
    decreases 8 - i,
{
    if i >= 8 {
        Seq::empty()
    } else {
        let rest = press_keys(mm, want, i + 1);
        let m = modifier_index(i);
        if want.has(m) && mm.spec_keycodes_of(m).len() > 0 {
            seq![mm.spec_keycodes_of(m)[0]] + rest
        } else {
            rest
        }
    }
}

/// The exact synthetic events a matched rule's burst sends: release the
/// stray modifier keys, press the missing ones, play the output, then undo
/// the modifier adjustment symmetrically.
pub open spec fn planned_sends(
    mm: ModifierMapping,
    keys: Seq<Keycode>,
    current: ModSet,
    desired: ModSet,
    inner: Seq<InputEvent>,
) -> Seq<InputEvent> {
    let rel = release_keys(mm, keys, desired);
    let prs = press_keys(mm, desired.spec_difference(current), 0);
    ups(rel) + downs(prs) + inner + ups(prs) + downs(rel)
}

/// Appends grab commands to a plan, in order.
fn append_grab_cmds(plan: &mut Vec<Action>, cmds: &Vec<Grab>)
    ensures
        sends_of(final(plan)@) == sends_of(old(plan)@),
        grabs_of(final(plan)@) == grabs_of(old(plan)@) + cmds@,
{
    let mut i: usize = 0;
    proof {
        assert(grabs_of(plan@) + cmds@.take(0) =~= grabs_of(plan@));
    }
    while i < cmds.len()
        invariant
            i <= cmds@.len(),
            sends_of(plan@) == sends_of(old(plan)@),
            grabs_of(plan@) == grabs_of(old(plan)@) + cmds@.take(i as int),
        decreases cmds@.len() - i,
    {
        let ghost prev = plan@;
        plan.push(Action::GrabCmd(cmds[i]));
        proof {
            assert(plan@.drop_last() =~= prev);
            assert(cmds@.take(i + 1) =~= cmds@.take(i as int).push(cmds@[i as int]));
            assert(grabs_of(old(plan)@) + cmds@.take(i + 1) =~= (grabs_of(old(plan)@)
                + cmds@.take(i as int)).push(cmds@[i as int]));
        }
        i = i + 1;
    }
    proof {
        assert(cmds@.take(cmds@.len() as int) =~= cmds@);
    }
}

impl Engine {
    fn compute_release(&self, desired: ModSet) -> (r: Vec<Keycode>)
        ensures
            r@ == release_keys(self.mapping(), self.keys(), desired),
    {
        let mut r: Vec<Keycode> = Vec::new();
        let mut i: usize = 0;
        proof {
            assert(self.keys_down@.take(0) =~= Seq::<Keycode>::empty());
        }
        while i < self.keys_down.len()
            invariant
                i <= self.keys_down@.len(),
                r@ == release_keys(self.modifier_mapping, self.keys_down@.take(i as int), desired),
            decreases self.keys_down@.len() - i,
        {
            proof {
                assert(self.keys_down@.take(i + 1).drop_last() =~= self.keys_down@.take(i as int));
                assert(self.keys_down@.take(i + 1).last() == self.keys_down@[i as int]);
            }
            let k = self.keys_down[i];
            match self.modifier_mapping.keycode_to_modifier(k) {
                Some(m) => {
                    if !desired.contains(m) {
                        r.push(k);
                    }
                },
                None => {},
            }
            i = i + 1;
        }
        proof {
            assert(self.keys_down@.take(self.keys_down@.len() as int) =~= self.keys_down@);
        }
        r
    }

    fn compute_press(&self, want: ModSet) -> (r: Vec<Keycode>)
        ensures
            r@ == press_keys(self.mapping(), want, 0),
    {
        let mods = all_modifiers();
        let mut r: Vec<Keycode> = Vec::new();
        let mut i: usize = 0;
        proof {
            assert(r@ + press_keys(self.modifier_mapping, want, 0) =~= press_keys(
                self.modifier_mapping,
                want,
                0,
            ));
        }
        while i < 8
            invariant
                i <= 8,
                mods@ =~= seq![
                    Modifier::Shift,
                    Modifier::CapsLock,
                    Modifier::Ctrl,
                    Modifier::Alt,
                    Modifier::NumLock,
                    Modifier::Mod3,
                    Modifier::Super,
                    Modifier::Mod5,
                ],
                press_keys(self.modifier_mapping, want, 0) == r@ + press_keys(
                    self.modifier_mapping,
                    want,
                    i as int,
                ),
            decreases 8 - i,
        {
            let m = mods[i];
            proof {
                assert(mods@[i as int] == modifier_index(i as int));
            }
            if want.contains(m) {
                let codes = self.modifier_mapping.modifier_to_keycodes(m);
                if codes.len() > 0 {
                    let ghost prev = r@;
                    r.push(codes[0]);
                    proof {
                        assert(prev + (seq![codes@[0]] + press_keys(
                            self.modifier_mapping,
                            want,
                            i + 1,
                        )) =~= r@ + press_keys(self.modifier_mapping, want, i + 1));
                    }
                }
            }
            i = i + 1;
        }
        proof {
            assert(r@ + press_keys(self.modifier_mapping, want, 8) =~= r@);
        }
        r
    }

    /// Plans the modifier-reconciliation bracket around an inner event
    /// burst: stray modifier keys are virtually released and missing ones
    /// virtually pressed before the burst, the adjustment is undone after
    /// it, every sent key is first ungrabbed at the root window, and the
    /// grab table ends exactly where it started.
    fn with_modifiers(&mut self, modifiers: ModSet, inner: &Vec<InputEvent>) -> (plan: Vec<Action>)
        requires
            old(self).grabber.wf(),
        ensures
            final(self).grabber.wf(),
            final(self).grabber.depth() == old(self).grabber.depth(),
            forall|k: int|
                0 <= k < old(self).grabber.depth() ==> final(self).grabber.snapshot_at(k)
                    == old(self).grabber.snapshot_at(k),
            final(self).grabber.table() == old(self).grabber.table(),
            final(self).valid_config == old(self).valid_config,
            final(self).modifier_mapping == old(self).modifier_mapping,
            final(self).root_window == old(self).root_window,
            final(self).keys_down == old(self).keys_down,
            final(self).modifiers == old(self).modifiers,
            final(self).ignore_queue == old(self).ignore_queue,
            sends_of(plan@) == planned_sends(
                old(self).mapping(),
                old(self).keys(),
                old(self).mods(),
                modifiers,
                inner@,
            ),
            apply_actions(old(self).grabber.table(), grabs_of(plan@))
                == final(self).grabber.table(),
            actions_effective(old(self).grabber.table(), grabs_of(plan@)),
    {
        let ghost t0 = self.grabber.table();
        let to_release = self.compute_release(modifiers);
        let want = modifiers.difference(&self.modifiers);
        let to_press = self.compute_press(want);
        let ghost rel = to_release@;
        let ghost prs = to_press@;
        self.grabber.push_state();
        let mut plan: Vec<Action> = Vec::new();
        let root = self.root_window;
        let mut i: usize = 0;
        proof {
            assert(sends_of(plan@) =~= ups(rel.take(0)));
            assert(grabs_of(plan@) =~= Seq::<Grab>::empty());
        }
        while i < to_release.len()
            invariant
                i <= rel.len(),
                rel == to_release@,
                root == self.root_window,
                self.grabber.wf(),
                self.grabber.depth() == old(self).grabber.depth() + 1,
                forall|k: int|
                    0 <= k < old(self).grabber.depth() ==> self.grabber.snapshot_at(k)
                        == old(self).grabber.snapshot_at(k),
                self.grabber.snapshot_at(old(self).grabber.depth() as int) == t0,
                self.valid_config == old(self).valid_config,
                self.modifier_mapping == old(self).modifier_mapping,
                self.root_window == old(self).root_window,
                self.keys_down == old(self).keys_down,
                self.modifiers == old(self).modifiers,
                self.ignore_queue == old(self).ignore_queue,
                t0 == old(self).grabber.table(),
                sends_of(plan@) == ups(rel.take(i as int)),
                apply_actions(t0, grabs_of(plan@)) == self.grabber.table(),
                actions_effective(t0, grabs_of(plan@)),
            decreases rel.len() - i,
        {
            let k = to_release[i];
            let ghost table_before = self.grabber.table();
            let ghost grabs_before = grabs_of(plan@);
            let cmds = self.grabber.ungrab_key(root, k);
            append_grab_cmds(&mut plan, &cmds);
            proof {
                lemma_apply_actions_add(t0, grabs_before, cmds@);
                lemma_actions_effective_add(t0, grabs_before, cmds@);
            }
            let ghost prev = plan@;
            plan.push(Action::Send(InputEvent { direction: UpOrDown::Up, button: Button::Key(k) }));
            proof {
                assert(plan@.drop_last() =~= prev);
                assert(rel.take(i + 1).drop_last() =~= rel.take(i as int));
                assert(ups(rel.take(i + 1)) =~= ups(rel.take(i as int)).push(up_event(k)));
            }
            i = i + 1;
        }
        proof {
            assert(rel.take(rel.len() as int) =~= rel);
        }
        let mut i: usize = 0;
        let ghost sends0 = sends_of(plan@);
        while i < to_press.len()
            invariant
                i <= prs.len(),
                prs == to_press@,
                root == self.root_window,
                self.grabber.wf(),
                self.grabber.depth() == old(self).grabber.depth() + 1,
                forall|k: int|
                    0 <= k < old(self).grabber.depth() ==> self.grabber.snapshot_at(k)
                        == old(self).grabber.snapshot_at(k),
                self.grabber.snapshot_at(old(self).grabber.depth() as int) == t0,
                self.valid_config == old(self).valid_config,
                self.modifier_mapping == old(self).modifier_mapping,
                self.root_window == old(self).root_window,
                self.keys_down == old(self).keys_down,
                self.modifiers == old(self).modifiers,
                self.ignore_queue == old(self).ignore_queue,
                t0 == old(self).grabber.table(),
                sends0 == ups(rel),
                sends_of(plan@) == sends0 + downs(prs.take(i as int)),
                apply_actions(t0, grabs_of(plan@)) == self.grabber.table(),
                actions_effective(t0, grabs_of(plan@)),
            decreases prs.len() - i,
        {
            let k = to_press[i];
            let ghost grabs_before = grabs_of(plan@);
            let cmds = self.grabber.ungrab_key(root, k);
            append_grab_cmds(&mut plan, &cmds);
            proof {
                lemma_apply_actions_add(t0, grabs_before, cmds@);
                lemma_actions_effective_add(t0, grabs_before, cmds@);
            }
            let ghost prev = plan@;
            plan.push(
                Action::Send(InputEvent { direction: UpOrDown::Down, button: Button::Key(k) }),
            );
            proof {
                assert(plan@.drop_last() =~= prev);
                assert(prs.take(i + 1).drop_last() =~= prs.take(i as int));
                assert(downs(prs.take(i + 1)) =~= downs(prs.take(i as int)).push(down_event(k)));
                assert(sends0 + downs(prs.take(i + 1)) =~= (sends0 + downs(prs.take(i as int))).push(
                    down_event(k),
                ));
            }
            i = i + 1;
        }
        proof {
            assert(prs.take(prs.len() as int) =~= prs);
        }
        let mut i: usize = 0;
        let ghost sends1 = sends_of(plan@);
        while i < inner.len()
            invariant
                i <= inner@.len(),
                root == self.root_window,
                self.grabber.wf(),
                self.grabber.depth() == old(self).grabber.depth() + 1,
                forall|k: int|
                    0 <= k < old(self).grabber.depth() ==> self.grabber.snapshot_at(k)
                        == old(self).grabber.snapshot_at(k),
                self.grabber.snapshot_at(old(self).grabber.depth() as int) == t0,
                self.valid_config == old(self).valid_config,
                self.modifier_mapping == old(self).modifier_mapping,
                self.root_window == old(self).root_window,
                self.keys_down == old(self).keys_down,
                self.modifiers == old(self).modifiers,
                self.ignore_queue == old(self).ignore_queue,
                t0 == old(self).grabber.table(),
                sends1 == ups(rel) + downs(prs),
                sends_of(plan@) == sends1 + inner@.take(i as int),
                apply_actions(t0, grabs_of(plan@)) == self.grabber.table(),
                actions_effective(t0, grabs_of(plan@)),
            decreases inner@.len() - i,
        {
            let e = inner[i];
            match e.button {
                Button::Key(kc) => {
                    let ghost grabs_before = grabs_of(plan@);
                    let cmds = self.grabber.ungrab_key(root, kc);
                    append_grab_cmds(&mut plan, &cmds);
                    proof {
                        lemma_apply_actions_add(t0, grabs_before, cmds@);
                        lemma_actions_effective_add(t0, grabs_before, cmds@);
                    }
                },
                Button::MouseButton(_) => {},
            }
            let ghost prev = plan@;
            plan.push(Action::Send(e));
            proof {
                assert(plan@.drop_last() =~= prev);
                assert(inner@.take(i + 1).drop_last() =~= inner@.take(i as int));
                assert(sends1 + inner@.take(i + 1) =~= (sends1 + inner@.take(i as int)).push(
                    inner@[i as int],
                ));
            }
            i = i + 1;
        }
        proof {
            assert(inner@.take(inner@.len() as int) =~= inner@);
        }
        let mut i: usize = 0;
        let ghost sends2 = sends_of(plan@);
        while i < to_press.len()
            invariant
                i <= prs.len(),
                prs == to_press@,
                root == self.root_window,
                self.grabber.wf(),
                self.grabber.depth() == old(self).grabber.depth() + 1,
                forall|k: int|
                    0 <= k < old(self).grabber.depth() ==> self.grabber.snapshot_at(k)
                        == old(self).grabber.snapshot_at(k),
                self.grabber.snapshot_at(old(self).grabber.depth() as int) == t0,
                self.valid_config == old(self).valid_config,
                self.modifier_mapping == old(self).modifier_mapping,
                self.root_window == old(self).root_window,
                self.keys_down == old(self).keys_down,
                self.modifiers == old(self).modifiers,
                self.ignore_queue == old(self).ignore_queue,
                t0 == old(self).grabber.table(),
                sends2 == ups(rel) + downs(prs) + inner@,
                sends_of(plan@) == sends2 + ups(prs.take(i as int)),
                apply_actions(t0, grabs_of(plan@)) == self.grabber.table(),
                actions_effective(t0, grabs_of(plan@)),
            decreases prs.len() - i,
        {
            let k = to_press[i];
            let ghost prev = plan@;
            plan.push(Action::Send(InputEvent { direction: UpOrDown::Up, button: Button::Key(k) }));
            proof {
                assert(plan@.drop_last() =~= prev);
                assert(prs.take(i + 1).drop_last() =~= prs.take(i as int));
                assert(sends2 + ups(prs.take(i + 1)) =~= (sends2 + ups(prs.take(i as int))).push(
                    up_event(k),
                ));
            }
            i = i + 1;
        }
        proof {
            assert(prs.take(prs.len() as int) =~= prs);
        }
        let mut i: usize = 0;
        let ghost sends3 = sends_of(plan@);
        while i < to_release.len()
            invariant
                i <= rel.len(),
                rel == to_release@,
                root == self.root_window,
                self.grabber.wf(),
                self.grabber.depth() == old(self).grabber.depth() + 1,
                forall|k: int|
                    0 <= k < old(self).grabber.depth() ==> self.grabber.snapshot_at(k)
                        == old(self).grabber.snapshot_at(k),
                self.grabber.snapshot_at(old(self).grabber.depth() as int) == t0,
                self.valid_config == old(self).valid_config,
                self.modifier_mapping == old(self).modifier_mapping,
                self.root_window == old(self).root_window,
                self.keys_down == old(self).keys_down,
                self.modifiers == old(self).modifiers,
                self.ignore_queue == old(self).ignore_queue,
                t0 == old(self).grabber.table(),
                sends3 == ups(rel) + downs(prs) + inner@ + ups(prs),
                sends_of(plan@) == sends3 + downs(rel.take(i as int)),
                apply_actions(t0, grabs_of(plan@)) == self.grabber.table(),
                actions_effective(t0, grabs_of(plan@)),
            decreases rel.len() - i,
        {
            let k = to_release[i];
            let ghost prev = plan@;
            plan.push(
                Action::Send(InputEvent { direction: UpOrDown::Down, button: Button::Key(k) }),
            );
            proof {
                assert(plan@.drop_last() =~= prev);
                assert(rel.take(i + 1).drop_last() =~= rel.take(i as int));
                assert(sends3 + downs(rel.take(i + 1)) =~= (sends3 + downs(rel.take(i as int))).push(
                    down_event(k),
                ));
            }
            i = i + 1;
        }
        proof {
            assert(rel.take(rel.len() as int) =~= rel);
        }
        let ghost grabs_before = grabs_of(plan@);
        let cmds = self.grabber.pop_state();
        append_grab_cmds(&mut plan, &cmds);
        proof {
            lemma_apply_actions_add(t0, grabs_before, cmds@);
            lemma_actions_effective_add(t0, grabs_before, cmds@);
            assert(sends_of(plan@) =~= planned_sends(
                old(self).mapping(),
                old(self).keys(),
                old(self).mods(),
                modifiers,
                inner@,
            ));
        }
        plan
    }
}


/// The sends of a concatenation are the concatenated sends.
pub proof fn lemma_sends_of_add(a: Seq<Action>, b: Seq<Action>)
    ensures
        sends_of(a + b) == sends_of(a) + sends_of(b),
    decreases b.len(),
{
    if b.len() == 0 {
        assert(a + b =~= a);
        assert(sends_of(a) + sends_of(b) =~= sends_of(a));
    } else {
        assert((a + b).drop_last() =~= a + b.drop_last());
        assert((a + b).last() == b.last());
        lemma_sends_of_add(a, b.drop_last());
        match b.last() {
            Action::Send(e) => {
                assert(sends_of(a) + sends_of(b) =~= (sends_of(a) + sends_of(b.drop_last())).push(
                    e,
                ));
            },
            _ => {},
        }
    }
}

/// The grab commands of a concatenation are the concatenated commands.
pub proof fn lemma_grabs_of_add(a: Seq<Action>, b: Seq<Action>)
    ensures
        grabs_of(a + b) == grabs_of(a) + grabs_of(b),
    decreases b.len(),
{
    if b.len() == 0 {
        assert(a + b =~= a);
        assert(grabs_of(a) + grabs_of(b) =~= grabs_of(a));
    } else {
        assert((a + b).drop_last() =~= a + b.drop_last());
        assert((a + b).last() == b.last());
        lemma_grabs_of_add(a, b.drop_last());
        match b.last() {
            Action::GrabCmd(g) => {
                assert(grabs_of(a) + grabs_of(b) =~= (grabs_of(a) + grabs_of(b.drop_last())).push(
                    g,
                ));
            },
            _ => {},
        }
    }
}

/// The keycode whose release may trigger a remap: matching happens only on
/// key releases.
pub open spec fn spec_trigger_key(input: InputEvent) -> Option<Keycode> {
    if input.direction is Up {
        match input.button {
            Button::Key(k) => Some(k),
            Button::MouseButton(_) => None,
        }
    } else {
        None
    }
}

impl Engine {
    /// Handles one decoded capture record: updates the held-key and
    /// modifier state, consumes the event silently if it is the expected
    /// echo of a self-synthesized event, and otherwise, for a key release
    /// matching a rule (modifiers as held at release time govern matching),
    /// plans the full output burst; the grab table always ends exactly
    /// where it started.
    pub fn handle_recorded_event(&mut self, event: RecordedEvent) -> (plan: Vec<Action>)
        requires
            old(self).wf(),
        ensures
            final(self).wf(),
            final(self).rules() == old(self).rules(),
            final(self).mapping() == old(self).mapping(),
            final(self).root() == old(self).root(),
            final(self).table() == old(self).table(),
            (match event.input.button {
                Button::Key(k) => {
                    &&& (event.input.direction is Down ==> ((forall|x: Keycode|
                        old(self).keys().contains(x) ==> final(self).keys().contains(x))
                        && final(self).keys().contains(k) && (forall|x: Keycode|
                        #[trigger] final(self).keys().contains(x) ==> (old(self).keys().contains(x)
                            || x == k))))
                    &&& (event.input.direction is Up ==> (forall|x: Keycode|
                        #[trigger] final(self).keys().contains(x) == (old(self).keys().contains(x)
                            && x != k)))
                },
                Button::MouseButton(_) => final(self).keys() == old(self).keys(),
            }),
            final(self).mods() == derived_modifiers(old(self).mapping(), final(self).keys()),
            (old(self).queue().len() > 0 && old(self).queue()[0] == event.input)
                ==> (final(self).queue() == old(self).queue().drop_first() && plan@
                == Seq::<Action>::empty()),
            !(old(self).queue().len() > 0 && old(self).queue()[0] == event.input) ==> ({
                &&& final(self).queue() == old(self).queue()
                &&& (match spec_trigger_key(event.input) {
                    Some(k) => {
                        &&& ((forall|j: int|
                            0 <= j < old(self).rules().len() ==> !rule_matches(
                                old(self).rules()[j],
                                k,
                                old(self).mods(),
                            )) ==> plan@ == Seq::<Action>::empty())
                        &&& (forall|i: int|
                            (0 <= i < old(self).rules().len() && rule_matches(
                                #[trigger] old(self).rules()[i],
                                k,
                                old(self).mods(),
                            ) && (forall|j: int|
                                0 <= j < i ==> !rule_matches(
                                    old(self).rules()[j],
                                    k,
                                    old(self).mods(),
                                ))) ==> (sends_of(plan@) == planned_sends(
                                old(self).mapping(),
                                final(self).keys(),
                                final(self).mods(),
                                old(self).mods().spec_intersect(
                                    old(self).rules()[i].mods.spec_allowed_set(),
                                ),
                                output_events(
                                    old(self).rules()[i].output@.map_values(
                                        |chord: Vec<Keycode>| chord@,
                                    ),
                                ),
                            ) && apply_actions(old(self).table(), grabs_of(plan@))
                                == final(self).table() && actions_effective(
                                old(self).table(),
                                grabs_of(plan@),
                            )))
                    },
                    None => plan@ == Seq::<Action>::empty(),
                })
            }),
    {
        let input = event.input;
        match input.button {
            Button::Key(code) => {
                match input.direction {
                    UpOrDown::Up => remove_key(&mut self.keys_down, code),
                    UpOrDown::Down => insert_key(&mut self.keys_down, code),
                }
            },
            Button::MouseButton(_) => {},
        }
        let mods_before = self.modifiers;
        self.modifiers = derive_modifiers(&self.modifier_mapping, &self.keys_down);
        if self.ignore_queue.len() > 0 && self.ignore_queue[0] == input {
            let ghost q = self.ignore_queue@;
            self.ignore_queue.remove(0);
            proof {
                assert(self.ignore_queue@ =~= q.drop_first());
            }
            return Vec::new();
        }
        let keycode = match input.direction {
            UpOrDown::Down => {
                return Vec::new();
            },
            UpOrDown::Up => match input.button {
                Button::Key(keycode) => keycode,
                Button::MouseButton(_) => {
                    return Vec::new();
                },
            },
        };
        let matched = find_match(&self.valid_config.key_mappings, keycode, mods_before);
        let i = match matched {
            None => {
                return Vec::new();
            },
            Some(i) => i,
        };
        let rule_mods = self.valid_config.key_mappings[i].mods;
        proof {
            // The matched rule's constraints hold of the modifiers at
            // release time.
            assert(rule_mods.spec_required_set().le(old(self).mods()));
            assert(rule_mods.spec_forbidden_set().disjoint(old(self).mods()));
        }
        let to_send = build_output_events(&self.valid_config.key_mappings[i].output);
        let desired = mods_before.intersect(&rule_mods.allowed_set());
        let ghost t0 = self.grabber.table();
        let mut plan: Vec<Action> = Vec::new();
        plan.push(Action::Flush);
        proof {
            assert(plan@.drop_last() =~= Seq::<Action>::empty());
            assert(plan@.last() == Action::Flush);
            assert(sends_of(Seq::<Action>::empty()) =~= Seq::<InputEvent>::empty());
            assert(grabs_of(Seq::<Action>::empty()) =~= Seq::<Grab>::empty());
            assert(sends_of(plan@) =~= Seq::<InputEvent>::empty());
            assert(grabs_of(plan@) =~= Seq::<Grab>::empty());
        }
        self.grabber.push_state();
        let mut wm = self.with_modifiers(desired, &to_send);
        let ghost wm_view = wm@;
        let ghost plan_before = plan@;
        plan.append(&mut wm);
        proof {
            lemma_sends_of_add(plan_before, wm_view);
            lemma_grabs_of_add(plan_before, wm_view);
        }
        let ghost plan_mid = plan@;
        plan.push(Action::Flush);
        proof {
            assert(plan@.drop_last() =~= plan_mid);
        }
        let ghost grabs_before_pop = grabs_of(plan@);
        let cmds = self.grabber.pop_state();
        append_grab_cmds(&mut plan, &cmds);
        proof {
            lemma_apply_actions_add(t0, grabs_before_pop, cmds@);
            lemma_actions_effective_add(t0, grabs_before_pop, cmds@);
            assert(sends_of(plan@) =~= planned_sends(
                old(self).mapping(),
                final(self).keys(),
                final(self).mods(),
                old(self).mods().spec_intersect(rule_mods.spec_allowed_set()),
                to_send@,
            ));
            assert forall|i2: int|
                (0 <= i2 < old(self).rules().len() && rule_matches(
                    #[trigger] old(self).rules()[i2],
                    keycode,
                    old(self).mods(),
                ) && (forall|j: int|
                    0 <= j < i2 ==> !rule_matches(
                        old(self).rules()[j],
                        keycode,
                        old(self).mods(),
                    ))) implies i2 == i by {
                if i2 < i {
                    assert(!rule_matches(old(self).rules()[i2], keycode, old(self).mods()));
                } else if i2 > i {
                    assert(!rule_matches(old(self).rules()[i as int], keycode, old(self).mods()));
                }
            }
        }
        plan
    }

    /// Records the outcome of sending one synthetic event: an accepted
    /// event is queued so its echo is later ignored; a refused event is
    /// not, and nothing else changes.
    pub fn note_send_result(&mut self, event: InputEvent, ok: bool)
        requires
            old(self).wf(),
        ensures
            final(self).wf(),
            final(self).rules() == old(self).rules(),
            final(self).mapping() == old(self).mapping(),
            final(self).root() == old(self).root(),
            final(self).table() == old(self).table(),
            final(self).keys() == old(self).keys(),
            final(self).mods() == old(self).mods(),
            final(self).queue() == if ok {
                old(self).queue().push(event)
            } else {
                old(self).queue()
            },
    {
        if ok {
            self.ignore_queue.push(event);
        }
    }
}


impl Engine {
    /// Registers, for every rule, its trigger key at the window under every
    /// admissible modifier combination: each combination that contains the
    /// rule's required modifiers and none of its forbidden ones. Nothing is
    /// removed, and nothing outside those combinations is added.
    pub fn grab_keys_for_window(&mut self, window: WindowRef) -> (cmds: Vec<Grab>)
        requires
            old(self).wf(),
        ensures
            final(self).wf(),
            final(self).rules() == old(self).rules(),
            final(self).mapping() == old(self).mapping(),
            final(self).root() == old(self).root(),
            final(self).keys() == old(self).keys(),
            final(self).mods() == old(self).mods(),
            final(self).queue() == old(self).queue(),
            forall|e: GrabEntry| old(self).table().contains(e) ==> final(self).table().contains(e),
            forall|j: int, s: ModSet|
                #![trigger old(self).rules()[j].mods.spec_required_set().le(s)]
                0 <= j < old(self).rules().len() && old(self).rules()[j].mods.spec_required_set().le(
                    s,
                ) && s.disjoint(old(self).rules()[j].mods.spec_forbidden_set())
                    ==> final(self).table().contains(
                        entry_of(window, old(self).rules()[j].input, s),
                    ),
            forall|e: GrabEntry|
                #[trigger] final(self).table().contains(e) ==> (old(self).table().contains(e) || (
                e.window == window && exists|j: int|
                    0 <= j < old(self).rules().len() && e.keycode == (#[trigger] old(
                        self,
                    ).rules()[j]).input && old(self).rules()[j].mods.spec_required_set().le(e.state)
                        && e.state.disjoint(old(self).rules()[j].mods.spec_forbidden_set()))),
            apply_actions(old(self).table(), cmds@) == final(self).table(),
            actions_effective(old(self).table(), cmds@),
    {
        let ghost t0 = self.grabber.table();
        let mut cmds: Vec<Grab> = Vec::new();
        let n = self.valid_config.key_mappings.len();
        let mut j: usize = 0;
        while j < n
            invariant
                j <= n,
                n == self.valid_config.key_mappings@.len(),
                self.grabber.wf(),
                self.grabber.depth() == old(self).grabber.depth(),
                forall|k: int|
                    0 <= k < old(self).grabber.depth() ==> self.grabber.snapshot_at(k)
                        == old(self).grabber.snapshot_at(k),
                self.valid_config == old(self).valid_config,
                self.modifier_mapping == old(self).modifier_mapping,
                self.root_window == old(self).root_window,
                self.keys_down == old(self).keys_down,
                self.modifiers == old(self).modifiers,
                self.ignore_queue == old(self).ignore_queue,
                t0 == old(self).grabber.table(),
                forall|e: GrabEntry| t0.contains(e) ==> self.grabber.table().contains(e),
                forall|j2: int, s: ModSet|
                    #![trigger self.rules()[j2].mods.spec_required_set().le(s)]
                    0 <= j2 < j && self.rules()[j2].mods.spec_required_set().le(s) && s.disjoint(
                        self.rules()[j2].mods.spec_forbidden_set(),
                    ) ==> self.grabber.table().contains(entry_of(window, self.rules()[j2].input, s)),
                forall|e: GrabEntry|
                    #[trigger] self.grabber.table().contains(e) ==> (t0.contains(e) || (e.window
                        == window && exists|j2: int|
                        0 <= j2 < self.rules().len() && e.keycode == (
                        #[trigger] self.rules()[j2]).input
                            && self.rules()[j2].mods.spec_required_set().le(e.state)
                            && e.state.disjoint(self.rules()[j2].mods.spec_forbidden_set()))),
                apply_actions(t0, cmds@) == self.grabber.table(),
                actions_effective(t0, cmds@),
            decreases n - j,
        {
            let input = self.valid_config.key_mappings[j].input;
            let mods_spec = self.valid_config.key_mappings[j].mods;
            let states = mods_spec.mod_sets();
            let ghost sets = states@;
            let mut i: usize = 0;
            while i < states.len()
                invariant
                    i <= sets.len(),
                    sets == states@,
                    j < n,
                    n == self.valid_config.key_mappings@.len(),
                    input == self.rules()[j as int].input,
                    mods_spec == self.rules()[j as int].mods,
                    forall|s: ModSet|
                        sets.contains(s) <==> (mods_spec.spec_required_set().le(s) && s.disjoint(
                            mods_spec.spec_forbidden_set(),
                        )),
                    self.grabber.wf(),
                    self.grabber.depth() == old(self).grabber.depth(),
                    forall|k: int|
                        0 <= k < old(self).grabber.depth() ==> self.grabber.snapshot_at(k)
                            == old(self).grabber.snapshot_at(k),
                    self.valid_config == old(self).valid_config,
                    self.modifier_mapping == old(self).modifier_mapping,
                    self.root_window == old(self).root_window,
                    self.keys_down == old(self).keys_down,
                    self.modifiers == old(self).modifiers,
                    self.ignore_queue == old(self).ignore_queue,
                    t0 == old(self).grabber.table(),
                    forall|e: GrabEntry| t0.contains(e) ==> self.grabber.table().contains(e),
                    forall|j2: int, s: ModSet|
                        #![trigger self.rules()[j2].mods.spec_required_set().le(s)]
                        0 <= j2 < j && self.rules()[j2].mods.spec_required_set().le(s)
                            && s.disjoint(self.rules()[j2].mods.spec_forbidden_set())
                            ==> self.grabber.table().contains(
                            entry_of(window, self.rules()[j2].input, s),
                        ),
                    forall|t: int|
                        0 <= t < i ==> self.grabber.table().contains(
                            entry_of(window, input, #[trigger] sets[t]),
                        ),
                    forall|e: GrabEntry|
                        #[trigger] self.grabber.table().contains(e) ==> (t0.contains(e) || (
                        e.window == window && exists|j2: int|
                            0 <= j2 < self.rules().len() && e.keycode == (
                            #[trigger] self.rules()[j2]).input
                                && self.rules()[j2].mods.spec_required_set().le(e.state)
                                && e.state.disjoint(self.rules()[j2].mods.spec_forbidden_set()))),
                    apply_actions(t0, cmds@) == self.grabber.table(),
                    actions_effective(t0, cmds@),
                decreases sets.len() - i,
            {
                let state = states[i];
                let ghost table_before = self.grabber.table();
                let ghost cmds_before = cmds@;
                let mut new_cmds = self.grabber.grab_key(window, input, state);
                let ghost new_view = new_cmds@;
                cmds.append(&mut new_cmds);
                proof {
                    assert(cmds@ =~= cmds_before + new_view);
                    lemma_apply_actions_add(t0, cmds_before, new_view);
                    lemma_actions_effective_add(t0, cmds_before, new_view);
                    assert(sets.contains(sets[i as int]));
                    assert forall|e: GrabEntry|
                        #[trigger] self.grabber.table().contains(e) implies (t0.contains(e) || (
                        e.window == window && exists|j2: int|
                            0 <= j2 < self.rules().len() && e.keycode == (
                            #[trigger] self.rules()[j2]).input
                                && self.rules()[j2].mods.spec_required_set().le(e.state)
                                && e.state.disjoint(self.rules()[j2].mods.spec_forbidden_set())))
                        by {
                        if e == entry_of(window, input, sets[i as int]) {
                            assert(self.rules()[j as int].input == e.keycode);
                            assert(self.rules()[j as int].mods.spec_required_set().le(e.state));
                            assert(e.state.disjoint(
                                self.rules()[j as int].mods.spec_forbidden_set(),
                            ));
                        } else {
                            assert(table_before.contains(e));
                        }
                    }
                }
                i = i + 1;
            }
            proof {
                assert forall|j2: int, s: ModSet|
                    #![trigger self.rules()[j2].mods.spec_required_set().le(s)]
                    0 <= j2 < j + 1 && self.rules()[j2].mods.spec_required_set().le(s)
                        && s.disjoint(self.rules()[j2].mods.spec_forbidden_set())
                    implies self.grabber.table().contains(
                    entry_of(window, self.rules()[j2].input, s),
                ) by {
                    if j2 == j {
                        assert(sets.contains(s));
                        let t = choose|t: int| 0 <= t < sets.len() && sets[t] == s;
                        assert(self.grabber.table().contains(entry_of(window, input, sets[t])));
                    }
                }
            }
            j = j + 1;
        }
        cmds
    }
}

} // verus!
