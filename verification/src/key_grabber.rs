//! The grab state machine: tracks which (window, keycode, modifier
//! combination) triples are exclusively captured, makes grab and ungrab
//! idempotent, and offers transactional push/pop so a caller can temporarily
//! release keys and restore the exact prior registration set.
//!
//! The machine never talks to a server itself: every mutating call returns
//! the list of grab commands the shell must issue, and the tracked table is
//! exactly the set of registrations a server that executes those commands
//! will hold.

use vstd::prelude::*;

use crate::events::WindowRef;
use crate::key::Keycode;
use crate::key::ModSet;

verus! {

broadcast use vstd::set::group_set_axioms, vstd::seq::group_seq_axioms;

/// One grab command for the server: a registration triple and the direction
/// to apply it in.
#[derive(Clone, Copy, Debug, PartialEq, Eq, Structural)]
pub struct Grab {
    pub window: WindowRef,
    pub keycode: Keycode,
    pub state: ModSet,
    pub is_grabbed: bool,
}

/// One active registration with the server.
#[derive(Clone, Copy, Debug, PartialEq, Eq, Structural)]
pub struct GrabEntry {
    pub window: WindowRef,
    pub keycode: Keycode,
    pub state: ModSet,
}

impl Grab {
    /// The registration triple this command concerns.
    pub open spec fn entry(self) -> GrabEntry {
        GrabEntry { window: self.window, keycode: self.keycode, state: self.state }
    }

    /// The command that undoes this one.
    pub open spec fn inverse(self) -> Grab {
        Grab { is_grabbed: !self.is_grabbed, ..self }
    }
}

/// The registration set after a server executes one command.
pub open spec fn apply_action(t: Set<GrabEntry>, g: Grab) -> Set<GrabEntry> {
    if g.is_grabbed {
        t.insert(g.entry())
    } else {
        t.remove(g.entry())
    }
}

/// The registration set after a server executes a command list in order.
pub open spec fn apply_actions(t: Set<GrabEntry>, cmds: Seq<Grab>) -> Set<GrabEntry>
    decreases cmds.len(),
{
    if cmds.len() == 0 {
        t
    } else {
        apply_action(apply_actions(t, cmds.drop_last()), cmds.last())
    }
}

/// Every command in the list changes the registration set as it is applied:
/// no command is redundant against the state it meets.
pub open spec fn actions_effective(t: Set<GrabEntry>, cmds: Seq<Grab>) -> bool
    decreases cmds.len(),
{
    if cmds.len() == 0 {
        true
    } else {
        actions_effective(t, cmds.drop_last()) && apply_action(
            apply_actions(t, cmds.drop_last()),
            cmds.last(),
        ) != apply_actions(t, cmds.drop_last())
    }
}

/// The registration set after undoing recorded actions, most recent first.
pub open spec fn restore(t: Set<GrabEntry>, undo: Seq<Grab>) -> Set<GrabEntry>
    decreases undo.len(),
{
    if undo.len() == 0 {
        t
    } else {
        restore(apply_action(t, undo.last()), undo.drop_last())
    }
}

/// One open transaction: the actions that undo what happened since its
/// start, and the registration set it will restore.
struct Frame {
    undo: Vec<Grab>,
    snapshot: Ghost<Set<GrabEntry>>,
}

/// Each frame's undo actions restore its snapshot, starting from the state
/// above it: the current table for the top frame, the snapshot of the frame
/// above for the others.
spec fn frames_ok_from(frames: Seq<Frame>, above: Set<GrabEntry>) -> bool {
    forall|k: int|
        0 <= k < frames.len() ==> restore(
            if k == frames.len() - 1 {
                above
            } else {
                frames[k + 1].snapshot@
            },
            (#[trigger] frames[k]).undo@,
        ) == frames[k].snapshot@
}

/// The grab state machine.
pub struct KeyGrabber {
    active: Vec<GrabEntry>,
    undo_stack: Vec<Frame>,
}

impl KeyGrabber {
    /// The set of registrations currently held with the server.
    pub closed spec fn table(self) -> Set<GrabEntry> {
        self.active@.to_set()
    }

    /// How many transactions are open.
    pub closed spec fn depth(self) -> nat {
        self.undo_stack@.len()
    }

    /// The registration set that popping down to transaction `k` restores.
    pub closed spec fn snapshot_at(self, k: int) -> Set<GrabEntry> {
        self.undo_stack@[k].snapshot@
    }

    spec fn nodup(self) -> bool {
        forall|i: int, j: int|
            0 <= i < j < self.active@.len() ==> self.active@[i] != self.active@[j]
    }

    /// The machine's invariant: the table holds each registration once, and
    /// every open transaction can restore its snapshot exactly.
    pub closed spec fn wf(self) -> bool {
        self.nodup() && frames_ok_from(self.undo_stack@, self.table())
    }

    pub fn new() -> (r: KeyGrabber)
        ensures
            r.wf(),
            r.table() == Set::<GrabEntry>::empty(),
            r.depth() == 0,
    {
        let r = KeyGrabber { active: Vec::new(), undo_stack: Vec::new() };
        proof {
            assert(r.active@.to_set() =~= Set::<GrabEntry>::empty());
        }
        r
    }

    /// The registrations currently held, one entry each.
    pub fn active_entries(&self) -> (r: Vec<GrabEntry>)
        requires
            self.wf(),
        ensures
            r@.to_set() == self.table(),
            forall|i: int, j: int| 0 <= i < j < r@.len() ==> r@[i] != r@[j],
    {
        let mut r: Vec<GrabEntry> = Vec::new();
        let mut i: usize = 0;
        while i < self.active.len()
            invariant
                i <= self.active@.len(),
                r@.len() == i,
                forall|t: int| 0 <= t < i ==> r@[t] == self.active@[t],
            decreases self.active@.len() - i,
        {
            r.push(self.active[i]);
            i = i + 1;
        }
        proof {
            assert(r@ =~= self.active@);
        }
        r
    }

    fn find_entry(&self, entry: &GrabEntry) -> (r: Option<usize>)
        ensures
            match r {
                Some(i) => i < self.active@.len() && self.active@[i as int] == *entry,
                None => !self.active@.contains(*entry),
            },
    {
        let mut i: usize = 0;
        while i < self.active.len()
            invariant
                i <= self.active@.len(),
                forall|t: int| 0 <= t < i ==> self.active@[t] != *entry,
            decreases self.active@.len() - i,
        {
            if self.active[i] == *entry {
                return Some(i);
            }
            i = i + 1;
        }
        None
    }

    /// Applies one grab or ungrab against the table; emits the command only
    /// if it changes the table, and, while a transaction is open and
    /// `record` is set, records the inverse action into it.
    fn apply_grab(&mut self, grab: Grab, record: bool) -> (cmd: Option<Grab>)
        requires
            old(self).nodup(),
        ensures
            final(self).nodup(),
            final(self).table() == apply_action(old(self).table(), grab),
            match cmd {
                Some(c) => c == grab && final(self).table() != old(self).table(),
                None => final(self).table() == old(self).table(),
            },
            final(self).table() != old(self).table() ==> apply_action(
                final(self).table(),
                grab.inverse(),
            ) == old(self).table(),
            final(self).depth() == old(self).depth(),
            forall|k: int|
                0 <= k < old(self).depth() ==> final(self).snapshot_at(k) == old(self).snapshot_at(
                    k,
                ),
            !(record && old(self).depth() > 0) ==> final(self).undo_stack@ == old(
                self,
            ).undo_stack@,
            (record && old(self).depth() > 0) ==> ({
                let len = old(self).undo_stack@.len() as int;
                &&& final(self).undo_stack@.len() == len
                &&& (forall|k: int|
                    0 <= k < len - 1 ==> final(self).undo_stack@[k] == old(self).undo_stack@[k])
                &&& final(self).undo_stack@[len - 1].snapshot@ == old(self).undo_stack@[len
                    - 1].snapshot@
                &&& final(self).undo_stack@[len - 1].undo@ == if final(self).table() != old(
                    self,
                ).table() {
                    old(self).undo_stack@[len - 1].undo@.push(grab.inverse())
                } else {
                    old(self).undo_stack@[len - 1].undo@
                }
            }),
    {
        let entry = GrabEntry { window: grab.window, keycode: grab.keycode, state: grab.state };
        let found = self.find_entry(&entry);
        let ghost old_table = self.table();
        let did_update: bool;
        if grab.is_grabbed {
            match found {
                Some(_) => {
                    did_update = false;
                    proof {
                        assert(old_table.contains(entry));
                        assert(old_table.insert(entry) =~= old_table);
                    }
                },
                None => {
                    let ghost prev = self.active@;
                    self.active.push(entry);
                    did_update = true;
                    proof {
                        assert forall|x: GrabEntry|
                            self.active@.contains(x) == (prev.contains(x) || x == entry) by {
                            if self.active@.contains(x) {
                                let i = choose|i: int|
                                    0 <= i < self.active@.len() && self.active@[i] == x;
                                if i < prev.len() {
                                    assert(prev[i] == x);
                                }
                            }
                            if prev.contains(x) {
                                let i = choose|i: int| 0 <= i < prev.len() && prev[i] == x;
                                assert(self.active@[i] == x);
                            }
                            if x == entry {
                                assert(self.active@[prev.len() as int] == x);
                            }
                        }
                        assert(self.table() =~= old_table.insert(entry));
                        assert(!old_table.contains(entry));
                        assert(self.table() != old_table);
                        assert(self.table().remove(entry) =~= old_table);
                    }
                },
            }
        } else {
            match found {
                Some(i) => {
                    let ghost prev = self.active@;
                    self.active.remove(i);
                    did_update = true;
                    proof {
                        assert forall|x: GrabEntry|
                            self.active@.contains(x) == (prev.contains(x) && x != entry) by {
                            if self.active@.contains(x) {
                                let t = choose|t: int|
                                    0 <= t < self.active@.len() && self.active@[t] == x;
                                if t < i {
                                    assert(prev[t] == x);
                                    assert(prev[t] != prev[i as int]);
                                } else {
                                    assert(prev[t + 1] == x);
                                    assert(prev[t + 1] != prev[i as int]);
                                }
                            }
                            if prev.contains(x) && x != entry {
                                let t = choose|t: int| 0 <= t < prev.len() && prev[t] == x;
                                if t < i {
                                    assert(self.active@[t] == x);
                                } else {
                                    assert(t != i);
                                    assert(self.active@[t - 1] == x);
                                }
                            }
                        }
                        assert(self.table() =~= old_table.remove(entry));
                        assert(old_table.contains(entry));
                        assert(self.table() != old_table);
                        assert(self.table().insert(entry) =~= old_table);
                    }
                },
                None => {
                    did_update = false;
                    proof {
                        assert(!old_table.contains(entry));
                        assert(old_table.remove(entry) =~= old_table);
                    }
                },
            }
        }
        if did_update && record && self.undo_stack.len() > 0 {
            let mut frame = match self.undo_stack.pop() {
                Some(frame) => frame,
                None => {
                    proof {
                        assert(false);
                    }
                    Frame { undo: Vec::new(), snapshot: Ghost(Set::empty()) }
                },
            };
            frame.undo.push(
                Grab {
                    window: grab.window,
                    keycode: grab.keycode,
                    state: grab.state,
                    is_grabbed: !grab.is_grabbed,
                },
            );
            self.undo_stack.push(frame);
        }
        if did_update {
            Some(grab)
        } else {
            None
        }
    }

    /// Registers the combination for the key at the window, unless that
    /// registration is already held; at most one server command is issued,
    /// so repeating a grab never reaches the server twice.
    pub fn grab_key(&mut self, window: WindowRef, keycode: Keycode, state: ModSet) -> (cmds: Vec<
        Grab,
    >)
        requires
            old(self).wf(),
        ensures
            final(self).wf(),
            final(self).depth() == old(self).depth(),
            forall|k: int|
                0 <= k < old(self).depth() ==> final(self).snapshot_at(k) == old(self).snapshot_at(
                    k,
                ),
            final(self).table() == old(self).table().insert(
                GrabEntry { window, keycode, state },
            ),
            old(self).table().contains(GrabEntry { window, keycode, state }) ==> cmds@
                == Seq::<Grab>::empty() && final(self).table() == old(self).table(),
            !old(self).table().contains(GrabEntry { window, keycode, state }) ==> cmds@ == seq![
                Grab { window, keycode, state, is_grabbed: true },
            ],
            apply_actions(old(self).table(), cmds@) == final(self).table(),
            actions_effective(old(self).table(), cmds@),
    {
        let grab = Grab { window, keycode, state, is_grabbed: true };
        let ghost old_self = *self;
        let cmd = self.apply_grab(grab, true);
        proof {
            self.lemma_record_keeps_frames(old_self, grab);
            if old_self.table().contains(grab.entry()) {
                assert(old_self.table().insert(grab.entry()) =~= old_self.table());
            }
        }
        let mut cmds: Vec<Grab> = Vec::new();
        match cmd {
            Some(c) => {
                cmds.push(c);
                proof {
                    assert(cmds@.drop_last() =~= Seq::<Grab>::empty());
                    assert(cmds@ =~= seq![grab]);
                    assert(cmds@.last() == grab);
                    assert(apply_actions(old_self.table(), cmds@.drop_last()) == old_self.table());
                    assert(apply_actions(old_self.table(), cmds@) == apply_action(
                        old_self.table(),
                        grab,
                    ));
                    assert(actions_effective(old_self.table(), cmds@.drop_last()));
                }
            },
            None => {},
        }
        cmds
    }

    /// After a recorded application, every open transaction can still
    /// restore its snapshot.
    proof fn lemma_record_keeps_frames(self, prior: KeyGrabber, grab: Grab)
        requires
            frames_ok_from(prior.undo_stack@, prior.table()),
            self.depth() == prior.depth(),
            self.table() != prior.table() ==> apply_action(self.table(), grab.inverse())
                == prior.table(),
            prior.depth() == 0 ==> self.undo_stack@ == prior.undo_stack@,
            prior.depth() > 0 ==> ({
                let len = prior.undo_stack@.len() as int;
                &&& self.undo_stack@.len() == len
                &&& (forall|k: int|
                    0 <= k < len - 1 ==> self.undo_stack@[k] == prior.undo_stack@[k])
                &&& self.undo_stack@[len - 1].snapshot@ == prior.undo_stack@[len - 1].snapshot@
                &&& self.undo_stack@[len - 1].undo@ == if self.table() != prior.table() {
                    prior.undo_stack@[len - 1].undo@.push(grab.inverse())
                } else {
                    prior.undo_stack@[len - 1].undo@
                }
            }),
        ensures
            frames_ok_from(self.undo_stack@, self.table()),
    {
        if prior.depth() > 0 {
            let len = prior.undo_stack@.len() as int;
            assert forall|k: int|
                0 <= k < self.undo_stack@.len() implies restore(
                if k == self.undo_stack@.len() - 1 {
                    self.table()
                } else {
                    self.undo_stack@[k + 1].snapshot@
                },
                (#[trigger] self.undo_stack@[k]).undo@,
            ) == self.undo_stack@[k].snapshot@ by {
                if k == len - 1 {
                    let old_undo = prior.undo_stack@[len - 1].undo@;
                    if self.table() != prior.table() {
                        let new_undo = old_undo.push(grab.inverse());
                        assert(new_undo.drop_last() =~= old_undo);
                        assert(restore(self.table(), new_undo) == restore(
                            apply_action(self.table(), grab.inverse()),
                            old_undo,
                        ));
                    }
                } else {
                    assert(self.undo_stack@[k] == prior.undo_stack@[k]);
                    assert(self.undo_stack@[k + 1].snapshot@ == prior.undo_stack@[k
                        + 1].snapshot@);
                }
            }
        }
    }

    /// Releases every combination currently registered for the key at the
    /// window, one server command per active combination.
    pub fn ungrab_key(&mut self, window: WindowRef, keycode: Keycode) -> (cmds: Vec<Grab>)
        requires
            old(self).wf(),
        ensures
            final(self).wf(),
            final(self).depth() == old(self).depth(),
            forall|k: int|
                0 <= k < old(self).depth() ==> final(self).snapshot_at(k) == old(self).snapshot_at(
                    k,
                ),
            final(self).table() == old(self).table().filter(
                |e: GrabEntry| !(e.window == window && e.keycode == keycode),
            ),
            forall|t: int|
                0 <= t < cmds@.len() ==> ((#[trigger] cmds@[t]).window == window && cmds@[t].keycode
                    == keycode && cmds@[t].is_grabbed == false && old(self).table().contains(
                    cmds@[t].entry(),
                )),
            forall|t1: int, t2: int| 0 <= t1 < t2 < cmds@.len() ==> cmds@[t1] != cmds@[t2],
            forall|e: GrabEntry|
                old(self).table().contains(e) && e.window == window && e.keycode == keycode
                    ==> exists|t: int| 0 <= t < cmds@.len() && (#[trigger] cmds@[t]).entry() == e,
            apply_actions(old(self).table(), cmds@) == final(self).table(),
            actions_effective(old(self).table(), cmds@),
    {
        let states = self.states_for(window, keycode);
        let ghost old_self = *self;
        let mut cmds: Vec<Grab> = Vec::new();
        let mut i: usize = 0;
        while i < states.len()
            invariant
                old_self.wf(),
                i <= states@.len(),
                self.wf(),
                self.depth() == old_self.depth(),
                forall|k: int|
                    0 <= k < old_self.depth() ==> self.snapshot_at(k) == old_self.snapshot_at(k),
                forall|t1: int, t2: int|
                    0 <= t1 < t2 < states@.len() ==> states@[t1] != states@[t2],
                forall|t: int|
                    0 <= t < states@.len() ==> old_self.table().contains(
                        #[trigger] entry_of(window, keycode, states@[t]),
                    ),
                forall|e: GrabEntry|
                    old_self.table().contains(e) && e.window == window && e.keycode == keycode
                        ==> exists|t: int|
                        0 <= t < states@.len() && states@[t] == e.state,
                cmds@.len() == i,
                forall|t: int|
                    0 <= t < i ==> cmds@[t] == (Grab {
                        window,
                        keycode,
                        state: states@[t],
                        is_grabbed: false,
                    }),
                forall|x: GrabEntry|
                    self.table().contains(x) == (old_self.table().contains(x) && !(exists|t: int|
                        0 <= t < i && x == entry_of(window, keycode, states@[t]))),
                apply_actions(old_self.table(), cmds@) == self.table(),
                actions_effective(old_self.table(), cmds@),
            decreases states@.len() - i,
        {
            let state = states[i];
            let grab = Grab { window, keycode, state, is_grabbed: false };
            let ghost before = *self;
            let ghost prev_cmds = cmds@;
            proof {
                assert(old_self.table().contains(entry_of(window, keycode, states@[i as int])));
                assert(before.table().contains(grab.entry()));
            }
            let cmd = self.apply_grab(grab, true);
            proof {
                self.lemma_record_keeps_frames(before, grab);
            }
            match cmd {
                Some(c) => {
                    cmds.push(c);
                    proof {
                        assert(cmds@.drop_last() =~= prev_cmds);
                    }
                },
                None => {
                    proof {
                        assert(false);
                    }
                },
            }
            i = i + 1;
            proof {
                assert forall|x: GrabEntry|
                    self.table().contains(x) == (old_self.table().contains(x) && !(exists|t: int|
                        0 <= t < i && x == entry_of(window, keycode, states@[t]))) by {
                    if x == grab.entry() {
                        assert(entry_of(window, keycode, states@[i - 1]) == x);
                    } else {
                        if old_self.table().contains(x) && !(exists|t: int|
                            0 <= t < i && x == entry_of(window, keycode, states@[t])) {
                            assert(!(exists|t: int|
                                0 <= t < i - 1 && x == entry_of(window, keycode, states@[t])));
                        }
                        if exists|t: int|
                            0 <= t < i && x == entry_of(window, keycode, states@[t]) {
                            let t = choose|t: int|
                                0 <= t < i && x == entry_of(window, keycode, states@[t]);
                            assert(t < i - 1);
                        }
                    }
                }
            }
        }
        proof {
            assert forall|x: GrabEntry|
                self.table().contains(x) == (old_self.table().contains(x) && !(x.window == window
                    && x.keycode == keycode)) by {
                if old_self.table().contains(x) && x.window == window && x.keycode == keycode {
                    assert(exists|t: int|
                        0 <= t < states@.len() && states@[t] == x.state);
                    let t = choose|t: int| 0 <= t < states@.len() && states@[t] == x.state;
                    assert(x == entry_of(window, keycode, states@[t]));
                }
                if exists|t: int|
                    0 <= t < states@.len() && x == entry_of(window, keycode, states@[t]) {
                    assert(x.window == window && x.keycode == keycode);
                }
            }
            assert(self.table() =~= old_self.table().filter(
                |e: GrabEntry| !(e.window == window && e.keycode == keycode),
            ));
            assert forall|t: int|
                0 <= t < cmds@.len() implies ((#[trigger] cmds@[t]).window == window
                && cmds@[t].keycode == keycode && cmds@[t].is_grabbed == false
                && old_self.table().contains(cmds@[t].entry())) by {
                assert(cmds@[t] == (Grab { window, keycode, state: states@[t], is_grabbed: false }));
                assert(old_self.table().contains(entry_of(window, keycode, states@[t])));
                assert(cmds@[t].entry() == entry_of(window, keycode, states@[t]));
            }
            assert forall|e: GrabEntry|
                old_self.table().contains(e) && e.window == window && e.keycode == keycode
                implies exists|t: int|
                0 <= t < cmds@.len() && (#[trigger] cmds@[t]).entry() == e by {
                let t = choose|t: int| 0 <= t < states@.len() && states@[t] == e.state;
                assert(cmds@[t] == (Grab { window, keycode, state: states@[t], is_grabbed: false }));
                assert(cmds@[t].entry() == e);
            }
        }
        cmds
    }

    fn states_for(&self, window: WindowRef, keycode: Keycode) -> (r: Vec<ModSet>)
        requires
            self.wf(),
        ensures
            forall|t1: int, t2: int| 0 <= t1 < t2 < r@.len() ==> r@[t1] != r@[t2],
            forall|t: int|
                0 <= t < r@.len() ==> self.table().contains(
                    #[trigger] entry_of(window, keycode, r@[t]),
                ),
            forall|e: GrabEntry|
                self.table().contains(e) && e.window == window && e.keycode == keycode
                    ==> exists|t: int| 0 <= t < r@.len() && r@[t] == e.state,
    {
        let mut r: Vec<ModSet> = Vec::new();
        let mut i: usize = 0;
        while i < self.active.len()
            invariant
                self.wf(),
                i <= self.active@.len(),
                forall|t: int|
                    0 <= t < r@.len() ==> exists|j: int|
                        0 <= j < i && self.active@[j] == entry_of(window, keycode, #[trigger] r@[t]),
                forall|t1: int, t2: int| 0 <= t1 < t2 < r@.len() ==> r@[t1] != r@[t2],
                forall|j: int|
                    0 <= j < i && (#[trigger] self.active@[j]).window == window
                        && self.active@[j].keycode == keycode ==> exists|t: int|
                        0 <= t < r@.len() && r@[t] == self.active@[j].state,
            decreases self.active@.len() - i,
        {
            let e = self.active[i];
            if e.window == window && e.keycode == keycode {
                let ghost prev = r@;
                r.push(e.state);
                proof {
                    assert(self.active@[i as int] == entry_of(window, keycode, r@[r@.len() - 1]));
                    assert(r@[r@.len() - 1] == self.active@[i as int].state);
                    assert forall|j: int|
                        0 <= j < i + 1 && (#[trigger] self.active@[j]).window == window
                            && self.active@[j].keycode == keycode implies exists|t: int|
                        0 <= t < r@.len() && r@[t] == self.active@[j].state by {
                        if j < i {
                            let t = choose|t: int|
                                0 <= t < prev.len() && prev[t] == self.active@[j].state;
                            assert(r@[t] == self.active@[j].state);
                        } else {
                            assert(r@[r@.len() - 1] == self.active@[j].state);
                        }
                    }
                    assert forall|t1: int, t2: int|
                        0 <= t1 < t2 < r@.len() implies r@[t1] != r@[t2] by {
                        if t2 == r@.len() - 1 {
                            let j = choose|j: int|
                                0 <= j < i && self.active@[j] == entry_of(
                                    window,
                                    keycode,
                                    prev[t1],
                                );
                            if r@[t1] == r@[t2] {
                                assert(self.active@[j] == self.active@[i as int]);
                            }
                        } else {
                            assert(prev[t1] == r@[t1] && prev[t2] == r@[t2]);
                        }
                    }
                }
            }
            i = i + 1;
        }
        proof {
            assert forall|t: int|
                0 <= t < r@.len() implies self.table().contains(
                #[trigger] entry_of(window, keycode, r@[t]),
            ) by {
                let j = choose|j: int|
                    0 <= j < self.active@.len() && self.active@[j] == entry_of(
                        window,
                        keycode,
                        r@[t],
                    );
                assert(self.active@.contains(entry_of(window, keycode, r@[t])));
            }
            assert forall|e: GrabEntry|
                self.table().contains(e) && e.window == window && e.keycode == keycode
                implies exists|t: int| 0 <= t < r@.len() && r@[t] == e.state by {
                let j = choose|j: int| 0 <= j < self.active@.len() && self.active@[j] == e;
                assert(self.active@[j].window == window && self.active@[j].keycode == keycode);
            }
        }
        r
    }

    /// Opens a new transaction; everything grabbed or ungrabbed until the
    /// matching pop is recorded so the pop can restore the current table.
    pub fn push_state(&mut self)
        requires
            old(self).wf(),
        ensures
            final(self).wf(),
            final(self).depth() == old(self).depth() + 1,
            final(self).table() == old(self).table(),
            final(self).snapshot_at(old(self).depth() as int) == old(self).table(),
            forall|k: int|
                0 <= k < old(self).depth() ==> final(self).snapshot_at(k) == old(self).snapshot_at(
                    k,
                ),
    {
        let ghost snap = self.table();
        let frame = Frame { undo: Vec::new(), snapshot: Ghost(snap) };
        let ghost old_stack = self.undo_stack@;
        self.undo_stack.push(frame);
        proof {
            assert forall|k: int|
                0 <= k < self.undo_stack@.len() implies restore(
                if k == self.undo_stack@.len() - 1 {
                    self.table()
                } else {
                    self.undo_stack@[k + 1].snapshot@
                },
                (#[trigger] self.undo_stack@[k]).undo@,
            ) == self.undo_stack@[k].snapshot@ by {
                if k < old_stack.len() {
                    assert(self.undo_stack@[k] == old_stack[k]);
                    if k == old_stack.len() - 1 {
                        assert(self.undo_stack@[k + 1].snapshot@ == snap);
                    } else {
                        assert(self.undo_stack@[k + 1] == old_stack[k + 1]);
                    }
                }
            }
        }
    }

    /// Closes the most recent transaction, undoing every recorded action so
    /// the table is exactly what it was when the transaction was opened; the
    /// returned commands carry that restoration to the server.
    pub fn pop_state(&mut self) -> (cmds: Vec<Grab>)
        requires
            old(self).wf(),
            old(self).depth() > 0,
        ensures
            final(self).wf(),
            final(self).depth() == old(self).depth() - 1,
            forall|k: int|
                0 <= k < final(self).depth() ==> final(self).snapshot_at(k) == old(
                    self,
                ).snapshot_at(k),
            final(self).table() == old(self).snapshot_at(old(self).depth() - 1),
            apply_actions(old(self).table(), cmds@) == final(self).table(),
            actions_effective(old(self).table(), cmds@),
    {
        let ghost old_self = *self;
        let frame = match self.undo_stack.pop() {
            Some(frame) => frame,
            None => {
                proof {
                    assert(false);
                }
                Frame { undo: Vec::new(), snapshot: Ghost(Set::empty()) }
            },
        };
        let ghost snap = frame.snapshot@;
        let ghost t0 = self.table();
        let mut cmds: Vec<Grab> = Vec::new();
        let mut j = frame.undo.len();
        proof {
            assert(frame.undo@.take(j as int) =~= frame.undo@);
            assert(restore(self.table(), frame.undo@) == snap);
        }
        while j > 0
            invariant
                j <= frame.undo@.len(),
                self.nodup(),
                self.undo_stack@ == old_self.undo_stack@.drop_last(),
                restore(self.table(), frame.undo@.take(j as int)) == snap,
                apply_actions(t0, cmds@) == self.table(),
                actions_effective(t0, cmds@),
            decreases j,
        {
            j = j - 1;
            proof {
                assert(frame.undo@.take(j + 1).drop_last() =~= frame.undo@.take(j as int));
                assert(frame.undo@.take(j + 1).last() == frame.undo@[j as int]);
            }
            let ghost prev_cmds = cmds@;
            let action = frame.undo[j];
            let cmd = self.apply_grab(action, false);
            match cmd {
                Some(c) => {
                    cmds.push(c);
                    proof {
                        assert(cmds@.drop_last() =~= prev_cmds);
                    }
                },
                None => {},
            }
        }
        proof {
            assert(frame.undo@.take(0) =~= Seq::<Grab>::empty());
            assert(self.table() == snap);
            let frames = self.undo_stack@;
            assert forall|k: int|
                0 <= k < frames.len() implies restore(
                if k == frames.len() - 1 {
                    self.table()
                } else {
                    frames[k + 1].snapshot@
                },
                (#[trigger] frames[k]).undo@,
            ) == frames[k].snapshot@ by {
                assert(frames[k] == old_self.undo_stack@[k]);
                if k == frames.len() - 1 {
                    assert(old_self.undo_stack@[k + 1].snapshot@ == snap);
                } else {
                    assert(frames[k + 1] == old_self.undo_stack@[k + 1]);
                }
            }
        }
        cmds
    }
}

/// Applying a concatenation applies the two lists in turn.
pub proof fn lemma_apply_actions_add(t: Set<GrabEntry>, a: Seq<Grab>, b: Seq<Grab>)
    ensures
        apply_actions(t, a + b) == apply_actions(apply_actions(t, a), b),
    decreases b.len(),
{
    if b.len() == 0 {
        assert(a + b =~= a);
    } else {
        assert((a + b).drop_last() =~= a + b.drop_last());
        assert((a + b).last() == b.last());
        lemma_apply_actions_add(t, a, b.drop_last());
    }
}

/// A concatenation is effective exactly when the first list is effective
/// and the second is effective against the state the first one leaves.
pub proof fn lemma_actions_effective_add(t: Set<GrabEntry>, a: Seq<Grab>, b: Seq<Grab>)
    ensures
        actions_effective(t, a + b) == (actions_effective(t, a) && actions_effective(
            apply_actions(t, a),
            b,
        )),
    decreases b.len(),
{
    if b.len() == 0 {
        assert(a + b =~= a);
    } else {
        assert((a + b).drop_last() =~= a + b.drop_last());
        assert((a + b).last() == b.last());
        lemma_actions_effective_add(t, a, b.drop_last());
        lemma_apply_actions_add(t, a, b.drop_last());
    }
}

/// Grab idempotence: applying the same grab twice leaves the same
/// registration set as applying it once, with the entry registered exactly
/// once; since `grab_key` emits a command only when the entry is absent,
/// the second of two equal grab calls reaches the server not at all.
pub proof fn lemma_grab_idempotent(t: Set<GrabEntry>, g: Grab)
    requires
        g.is_grabbed,
    ensures
        apply_action(apply_action(t, g), g) == apply_action(t, g),
        apply_action(t, g).contains(g.entry()),
{
    assert(apply_action(apply_action(t, g), g) =~= apply_action(t, g));
}

/// The registration triple for a combination of the key at the window.
pub open spec fn entry_of(window: WindowRef, keycode: Keycode, state: ModSet) -> GrabEntry {
    GrabEntry { window, keycode, state }
}

} // verus!
