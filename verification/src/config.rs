//! The declarative rule model: per-modifier dispositions, key references,
//! output chords, the nested rule document, and its compilation against a
//! keyboard layout into an immutable set of valid mappings.

use vstd::arithmetic::power2::lemma_pow2_unfold;
use vstd::arithmetic::power2::lemma2_to64;
use vstd::arithmetic::power2::pow2;
use vstd::prelude::*;

use crate::key::group_mod_set_laws;
use crate::key::lemma_insert_count;
use crate::key::all_modifiers;
use crate::key::KeyboardMapping;
use crate::key::Keycode;
use crate::key::ModSet;
use crate::key::Modifier;

verus! {

broadcast use group_mod_set_laws;

/// What a rule demands of one modifier: it must be absent, it may be either,
/// or it must be present.
#[derive(Clone, Copy, Debug, PartialEq, Eq, Structural)]
pub enum ModDisposition {
    Forbidden,
    Allowed,
    Required,
}

impl ModDisposition {
    /// Rule-source sugar: a bare boolean stands for required or forbidden.
    pub fn from_flag(flag: bool) -> (r: ModDisposition)
        ensures
            r == if flag {
                ModDisposition::Required
            } else {
                ModDisposition::Forbidden
            },
    {
        if flag {
            ModDisposition::Required
        } else {
            ModDisposition::Forbidden
        }
    }
}

/// One disposition per named modifier; the default leaves every modifier
/// unconstrained.
#[derive(Clone, Copy, Debug, PartialEq, Eq, Structural)]
pub struct ModSpec {
    pub shift: ModDisposition,
    pub capslock: ModDisposition,
    pub ctrl: ModDisposition,
    pub alt: ModDisposition,
    pub numlock: ModDisposition,
    pub mod3: ModDisposition,
    pub super_: ModDisposition,
    pub mod5: ModDisposition,
}

impl ModSpec {
    /// The disposition this spec assigns to `m`.
    pub open spec fn spec_disposition_of(self, m: Modifier) -> ModDisposition {
        match m {
            Modifier::Shift => self.shift,
            Modifier::CapsLock => self.capslock,
            Modifier::Ctrl => self.ctrl,
            Modifier::Alt => self.alt,
            Modifier::NumLock => self.numlock,
            Modifier::Mod3 => self.mod3,
            Modifier::Super => self.super_,
            Modifier::Mod5 => self.mod5,
        }
    }

    /// The modifiers whose disposition is `d`.
    pub open spec fn spec_with_disposition(self, d: ModDisposition) -> ModSet {
        ModSet {
            shift: self.shift == d,
            capslock: self.capslock == d,
            ctrl: self.ctrl == d,
            alt: self.alt == d,
            numlock: self.numlock == d,
            mod3: self.mod3 == d,
            super_: self.super_ == d,
            mod5: self.mod5 == d,
        }
    }

    pub open spec fn spec_required_set(self) -> ModSet {
        self.spec_with_disposition(ModDisposition::Required)
    }

    pub open spec fn spec_allowed_set(self) -> ModSet {
        self.spec_with_disposition(ModDisposition::Allowed)
    }

    pub open spec fn spec_forbidden_set(self) -> ModSet {
        self.spec_with_disposition(ModDisposition::Forbidden)
    }

    /// A modifier is in the set for `d` exactly when its disposition is `d`.
    pub broadcast proof fn lemma_with_disposition_has(self, d: ModDisposition, m: Modifier)
        ensures
            #[trigger] self.spec_with_disposition(d).has(m) == (self.spec_disposition_of(m) == d),
    {
        match m {
            Modifier::Shift => {},
            Modifier::CapsLock => {},
            Modifier::Ctrl => {},
            Modifier::Alt => {},
            Modifier::NumLock => {},
            Modifier::Mod3 => {},
            Modifier::Super => {},
            Modifier::Mod5 => {},
        }
    }

    fn with_disposition(&self, disposition: ModDisposition) -> (r: ModSet)
        ensures
            r == self.spec_with_disposition(disposition),
    {
        ModSet {
            shift: self.shift == disposition,
            capslock: self.capslock == disposition,
            ctrl: self.ctrl == disposition,
            alt: self.alt == disposition,
            numlock: self.numlock == disposition,
            mod3: self.mod3 == disposition,
            super_: self.super_ == disposition,
            mod5: self.mod5 == disposition,
        }
    }

    /// The modifiers a matching event must have pressed.
    pub fn required_set(&self) -> (r: ModSet)
        ensures
            r == self.spec_required_set(),
    {
        self.with_disposition(ModDisposition::Required)
    }

    /// The modifiers a matching event may have pressed or not.
    pub fn allowed_set(&self) -> (r: ModSet)
        ensures
            r == self.spec_allowed_set(),
    {
        self.with_disposition(ModDisposition::Allowed)
    }

    /// The modifiers a matching event must not have pressed.
    pub fn forbidden_set(&self) -> (r: ModSet)
        ensures
            r == self.spec_forbidden_set(),
    {
        self.with_disposition(ModDisposition::Forbidden)
    }

    /// Whether an event with active modifiers `modifiers` satisfies this spec:
    /// every required modifier is active and no forbidden one is.
    pub open spec fn spec_matches(self, modifiers: ModSet) -> bool {
        self.spec_required_set().le(modifiers) && self.spec_forbidden_set().disjoint(modifiers)
    }

    pub fn matches(&self, modifiers: ModSet) -> (r: bool)
        ensures
            r == self.spec_matches(modifiers),
            r == (forall|m: Modifier|
                (self.spec_disposition_of(m) == ModDisposition::Required ==> modifiers.has(m)) && (
                self.spec_disposition_of(m) == ModDisposition::Forbidden ==> !modifiers.has(m))),
    {
        let required = self.required_set();
        let forbidden = self.forbidden_set();
        let r = required.is_subset(&modifiers) && forbidden.is_disjoint(&modifiers);
        proof {
            broadcast use ModSpec::lemma_with_disposition_has;

            ModSet::lemma_le_has(self.spec_required_set(), modifiers);
            ModSet::lemma_disjoint_has(self.spec_forbidden_set(), modifiers);
            if r {
                assert(forall|m: Modifier|
                    (self.spec_disposition_of(m) == ModDisposition::Required ==> modifiers.has(m))
                        && (self.spec_disposition_of(m) == ModDisposition::Forbidden
                        ==> !modifiers.has(m)));
            }
        }
        r
    }

    /// Every concrete modifier combination a grab must be registered for:
    /// the required set joined with each subset of the allowed set.
    ///
    /// The combinations are pairwise distinct, there are exactly two to the
    /// power of the allowed set's size of them, and they are exactly the sets
    /// that contain every required modifier and no forbidden one.
    #[verifier::rlimit(100)]
    pub fn mod_sets(&self) -> (r: Vec<ModSet>)
        ensures
            r@.len() == pow2(self.spec_allowed_set().count()),
            forall|i: int, j: int| 0 <= i < j < r@.len() ==> r@[i] != r@[j],
            forall|s: ModSet|
                r@.contains(s) <==> (self.spec_required_set().le(s) && s.disjoint(
                    self.spec_forbidden_set(),
                )),
    {
        let required = self.required_set();
        let mods = all_modifiers();
        let ghost allowed = self.spec_allowed_set();
        let mut result: Vec<ModSet> = Vec::new();
        result.push(required);
        let ghost mut processed = ModSet::spec_empty();
        proof {
            assert(required.le(required.spec_union(processed)));
            lemma2_to64();
            assert forall|s: ModSet|
                required.le(s) && s.le(required.spec_union(processed)) implies result@.contains(
                s,
            ) by {
                assert(required.spec_union(processed) == required);
                assert(s == required);
                assert(result@[0] == s);
            }
        }
        let mut idx: usize = 0;
        while idx < 8
            invariant
                mods@ =~= seq![
                    Modifier::Shift,
                    Modifier::CapsLock,
                    Modifier::Ctrl,
                    Modifier::Alt,
                    Modifier::NumLock,
                    Modifier::Mod3,
                    Modifier::Super,
                    Modifier::Mod5,
                ],
                idx <= 8,
                required == self.spec_required_set(),
                allowed == self.spec_allowed_set(),
                forall|m: Modifier|
                    processed.has(m) <==> (allowed.has(m) && exists|j: int|
                        0 <= j < idx && mods@[j] == m),
                result@.len() == pow2(processed.count()),
                forall|i: int|
                    0 <= i < result@.len() ==> required.le(#[trigger] result@[i]) && result@[i].le(
                        required.spec_union(processed),
                    ),
                forall|i: int, j: int| 0 <= i < j < result@.len() ==> result@[i] != result@[j],
                forall|s: ModSet|
                    required.le(s) && s.le(required.spec_union(processed)) ==> result@.contains(s),
            decreases 8 - idx,
        {
            let m = mods[idx];
            if self.disposition_of(m) == ModDisposition::Allowed {
                proof {
                    broadcast use ModSpec::lemma_with_disposition_has;

                    assert(allowed.has(m));
                    assert(!processed.has(m)) by {
                        if processed.has(m) {
                            let j = choose|j: int| 0 <= j < idx && mods@[j] == m;
                            assert(mods@[j] == mods@[idx as int]);
                        }
                    }
                    assert(!required.has(m));
                    assert(!required.spec_union(processed).has(m));
                }
                proof {
                    assert(result@.len() < 256) by {
                        assert(processed.count() <= 8);
                        if processed.count() < 8 {
                            vstd::arithmetic::power2::lemma_pow2_strictly_increases(
                                processed.count(),
                                8,
                            );
                        }
                        lemma2_to64();
                        assert(!processed.has(m));
                        lemma_insert_count(processed, m);
                    }
                }
                extend_with_modifier(&mut result, m, required, Ghost(processed));
                proof {
                    processed = processed.spec_insert(m);
                }
            } else {
                proof {
                    broadcast use ModSpec::lemma_with_disposition_has;

                    assert(!allowed.has(mods@[idx as int]));
                    assert forall|m2: Modifier|
                        processed.has(m2) <==> (allowed.has(m2) && exists|j: int|
                            0 <= j < idx + 1 && mods@[j] == m2) by {
                        if allowed.has(m2) && exists|j: int| 0 <= j < idx + 1 && mods@[j] == m2 {
                            let j = choose|j: int| 0 <= j < idx + 1 && mods@[j] == m2;
                            assert(j < idx);
                        }
                    }
                }
            }
            idx = idx + 1;
        }
        proof {
            // After the walk over every modifier, the processed set is the
            // allowed set.
            assert forall|m: Modifier| processed.has(m) == allowed.has(m) by {
                match m {
                    Modifier::Shift => assert(mods@[0] == m),
                    Modifier::CapsLock => assert(mods@[1] == m),
                    Modifier::Ctrl => assert(mods@[2] == m),
                    Modifier::Alt => assert(mods@[3] == m),
                    Modifier::NumLock => assert(mods@[4] == m),
                    Modifier::Mod3 => assert(mods@[5] == m),
                    Modifier::Super => assert(mods@[6] == m),
                    Modifier::Mod5 => assert(mods@[7] == m),
                }
            }
            ModSet::lemma_ext_equal(processed, allowed);
            broadcast use ModSpec::lemma_with_disposition_has;

            // A set is bounded by required-union-allowed exactly when it
            // avoids every forbidden modifier.
            assert forall|s: ModSet|
                required.le(s) implies (s.le(required.spec_union(allowed)) <==> s.disjoint(
                    self.spec_forbidden_set(),
                )) by {
                if required.le(s) {
                    if s.le(required.spec_union(allowed)) {
                        assert forall|m: Modifier|
                            !(s.has(m) && self.spec_forbidden_set().has(m)) by {}
                    }
                    if s.disjoint(self.spec_forbidden_set()) {
                        assert forall|m: Modifier|
                            s.has(m) implies required.spec_union(allowed).has(m) by {
                            assert(self.spec_disposition_of(m) != ModDisposition::Forbidden);
                        }
                    }
                }
            }
            assert forall|s: ModSet|
                result@.contains(s) implies (self.spec_required_set().le(s) && s.disjoint(
                self.spec_forbidden_set(),
            )) by {
                let t = choose|t: int| 0 <= t < result@.len() && result@[t] == s;
            }
        }
        result
    }

    /// The disposition this spec assigns to `modifier`.
    pub fn disposition_of(&self, modifier: Modifier) -> (r: ModDisposition)
        ensures
            r == self.spec_disposition_of(modifier),
    {
        match modifier {
            Modifier::Shift => self.shift,
            Modifier::CapsLock => self.capslock,
            Modifier::Ctrl => self.ctrl,
            Modifier::Alt => self.alt,
            Modifier::NumLock => self.numlock,
            Modifier::Mod3 => self.mod3,
            Modifier::Super => self.super_,
            Modifier::Mod5 => self.mod5,
        }
    }

    /// The dispositions as an array, in modifier bit-position order.
    pub fn to_array(&self) -> (r: [ModDisposition; 8])
        ensures
            r@.len() == 8,
            r@[0] == self.shift,
            r@[1] == self.capslock,
            r@[2] == self.ctrl,
            r@[3] == self.alt,
            r@[4] == self.numlock,
            r@[5] == self.mod3,
            r@[6] == self.super_,
            r@[7] == self.mod5,
    {
        [
            self.shift,
            self.capslock,
            self.ctrl,
            self.alt,
            self.numlock,
            self.mod3,
            self.super_,
            self.mod5,
        ]
    }

    /// Rebuilds a spec from an array in modifier bit-position order.
    pub fn from_slice(slice: &[ModDisposition; 8]) -> (r: ModSpec)
        ensures
            r.shift == slice@[0],
            r.capslock == slice@[1],
            r.ctrl == slice@[2],
            r.alt == slice@[3],
            r.numlock == slice@[4],
            r.mod3 == slice@[5],
            r.super_ == slice@[6],
            r.mod5 == slice@[7],
    {
        ModSpec {
            shift: slice[0],
            capslock: slice[1],
            ctrl: slice[2],
            alt: slice[3],
            numlock: slice[4],
            mod3: slice[5],
            super_: slice[6],
            mod5: slice[7],
        }
    }

    /// Two dispositions agree when they are equal or one of them is
    /// unconstrained.
    pub open spec fn spec_dispositions_compatible(d1: ModDisposition, d2: ModDisposition) -> bool {
        d1 == d2 || d1 == ModDisposition::Allowed || d2 == ModDisposition::Allowed
    }

    /// Two specs can be combined when they agree on every modifier.
    pub open spec fn spec_compatible(self, other: ModSpec) -> bool {
        forall|m: Modifier|
            ModSpec::spec_dispositions_compatible(
                #[trigger] self.spec_disposition_of(m),
                other.spec_disposition_of(m),
            )
    }

    /// Whether this spec can be combined with `other`.
    pub fn compatible_with(&self, other: &ModSpec) -> (r: bool)
        ensures
            r == self.spec_compatible(*other),
    {
        let r = ModSpec::dispositions_compatible(self.shift, other.shift)
            && ModSpec::dispositions_compatible(self.capslock, other.capslock)
            && ModSpec::dispositions_compatible(self.ctrl, other.ctrl)
            && ModSpec::dispositions_compatible(self.alt, other.alt)
            && ModSpec::dispositions_compatible(self.numlock, other.numlock)
            && ModSpec::dispositions_compatible(self.mod3, other.mod3)
            && ModSpec::dispositions_compatible(self.super_, other.super_)
            && ModSpec::dispositions_compatible(self.mod5, other.mod5);
        proof {
            if r {
                assert forall|m: Modifier|
                    ModSpec::spec_dispositions_compatible(
                        #[trigger] self.spec_disposition_of(m),
                        other.spec_disposition_of(m),
                    ) by {
                    match m {
                        Modifier::Shift => {},
                        Modifier::CapsLock => {},
                        Modifier::Ctrl => {},
                        Modifier::Alt => {},
                        Modifier::NumLock => {},
                        Modifier::Mod3 => {},
                        Modifier::Super => {},
                        Modifier::Mod5 => {},
                    }
                }
            } else {
                if !ModSpec::spec_dispositions_compatible(self.shift, other.shift) {
                    assert(self.spec_disposition_of(Modifier::Shift) == self.shift);
                } else if !ModSpec::spec_dispositions_compatible(self.capslock, other.capslock) {
                    assert(self.spec_disposition_of(Modifier::CapsLock) == self.capslock);
                } else if !ModSpec::spec_dispositions_compatible(self.ctrl, other.ctrl) {
                    assert(self.spec_disposition_of(Modifier::Ctrl) == self.ctrl);
                } else if !ModSpec::spec_dispositions_compatible(self.alt, other.alt) {
                    assert(self.spec_disposition_of(Modifier::Alt) == self.alt);
                } else if !ModSpec::spec_dispositions_compatible(self.numlock, other.numlock) {
                    assert(self.spec_disposition_of(Modifier::NumLock) == self.numlock);
                } else if !ModSpec::spec_dispositions_compatible(self.mod3, other.mod3) {
                    assert(self.spec_disposition_of(Modifier::Mod3) == self.mod3);
                } else if !ModSpec::spec_dispositions_compatible(self.super_, other.super_) {
                    assert(self.spec_disposition_of(Modifier::Super) == self.super_);
                } else {
                    assert(self.spec_disposition_of(Modifier::Mod5) == self.mod5);
                }
            }
        }
        r
    }

    fn dispositions_compatible(d1: ModDisposition, d2: ModDisposition) -> (r: bool)
        ensures
            r == ModSpec::spec_dispositions_compatible(d1, d2),
    {
        d1 == d2 || d1 == ModDisposition::Allowed || d2 == ModDisposition::Allowed
    }

    /// The spec that constrains nothing.
    pub open spec fn spec_unconstrained() -> ModSpec {
        ModSpec {
            shift: ModDisposition::Allowed,
            capslock: ModDisposition::Allowed,
            ctrl: ModDisposition::Allowed,
            alt: ModDisposition::Allowed,
            numlock: ModDisposition::Allowed,
            mod3: ModDisposition::Allowed,
            super_: ModDisposition::Allowed,
            mod5: ModDisposition::Allowed,
        }
    }

    /// The combination of two agreeing dispositions: the constrained one wins.
    pub open spec fn spec_combine_disposition(d1: ModDisposition, d2: ModDisposition)
        -> ModDisposition {
        if d1 == ModDisposition::Allowed {
            d2
        } else {
            d1
        }
    }

    /// The merge of two agreeing specs, modifier by modifier.
    pub open spec fn spec_combined(self, other: ModSpec) -> ModSpec {
        ModSpec {
            shift: ModSpec::spec_combine_disposition(self.shift, other.shift),
            capslock: ModSpec::spec_combine_disposition(self.capslock, other.capslock),
            ctrl: ModSpec::spec_combine_disposition(self.ctrl, other.ctrl),
            alt: ModSpec::spec_combine_disposition(self.alt, other.alt),
            numlock: ModSpec::spec_combine_disposition(self.numlock, other.numlock),
            mod3: ModSpec::spec_combine_disposition(self.mod3, other.mod3),
            super_: ModSpec::spec_combine_disposition(self.super_, other.super_),
            mod5: ModSpec::spec_combine_disposition(self.mod5, other.mod5),
        }
    }

    /// Merges a group's spec with a nested item's spec; the two must agree.
    pub fn combine_with(&self, other: &ModSpec) -> (r: ModSpec)
        requires
            self.spec_compatible(*other),
        ensures
            r == self.spec_combined(*other),
            forall|m: Modifier|
                #[trigger] r.spec_disposition_of(m) == ModSpec::spec_combine_disposition(
                    self.spec_disposition_of(m),
                    other.spec_disposition_of(m),
                ),
    {
        let r = ModSpec {
            shift: ModSpec::combine_disposition(self.shift, other.shift),
            capslock: ModSpec::combine_disposition(self.capslock, other.capslock),
            ctrl: ModSpec::combine_disposition(self.ctrl, other.ctrl),
            alt: ModSpec::combine_disposition(self.alt, other.alt),
            numlock: ModSpec::combine_disposition(self.numlock, other.numlock),
            mod3: ModSpec::combine_disposition(self.mod3, other.mod3),
            super_: ModSpec::combine_disposition(self.super_, other.super_),
            mod5: ModSpec::combine_disposition(self.mod5, other.mod5),
        };
        proof {
            assert forall|m: Modifier|
                #[trigger] r.spec_disposition_of(m) == ModSpec::spec_combine_disposition(
                    self.spec_disposition_of(m),
                    other.spec_disposition_of(m),
                ) by {
                match m {
                    Modifier::Shift => {},
                    Modifier::CapsLock => {},
                    Modifier::Ctrl => {},
                    Modifier::Alt => {},
                    Modifier::NumLock => {},
                    Modifier::Mod3 => {},
                    Modifier::Super => {},
                    Modifier::Mod5 => {},
                }
            }
        }
        r
    }

    fn combine_disposition(d1: ModDisposition, d2: ModDisposition) -> (r: ModDisposition)
        ensures
            r == ModSpec::spec_combine_disposition(d1, d2),
    {
        if d1 == ModDisposition::Allowed {
            d2
        } else {
            d1
        }
    }
}

impl Default for ModSpec {
    /// Every modifier is unconstrained by default.
    fn default() -> (r: ModSpec)
        ensures
            r == ModSpec::spec_unconstrained(),
    {
        ModSpec {
            shift: ModDisposition::Allowed,
            capslock: ModDisposition::Allowed,
            ctrl: ModDisposition::Allowed,
            alt: ModDisposition::Allowed,
            numlock: ModDisposition::Allowed,
            mod3: ModDisposition::Allowed,
            super_: ModDisposition::Allowed,
            mod5: ModDisposition::Allowed,
        }
    }
}

/// Appends to `result` a copy of each entry with `m` added, doubling the
/// walked combination family by the fresh allowed modifier `m`.
#[verifier::rlimit(100)]
fn extend_with_modifier(
    result: &mut Vec<ModSet>,
    m: Modifier,
    required: ModSet,
    Ghost(processed): Ghost<ModSet>,
)
    requires
        !required.spec_union(processed).has(m),
        old(result)@.len() == pow2(processed.count()),
        old(result)@.len() < 256,
        forall|t: int|
            0 <= t < old(result)@.len() ==> required.le(#[trigger] old(result)@[t])
                && old(result)@[t].le(required.spec_union(processed)),
        forall|a: int, b: int|
            0 <= a < b < old(result)@.len() ==> old(result)@[a] != old(result)@[b],
        forall|s: ModSet|
            required.le(s) && s.le(required.spec_union(processed)) ==> old(result)@.contains(s),
    ensures
        final(result)@.len() == pow2(processed.spec_insert(m).count()),
        forall|t: int|
            0 <= t < final(result)@.len() ==> required.le(#[trigger] final(result)@[t])
                && final(result)@[t].le(required.spec_union(processed.spec_insert(m))),
        forall|a: int, b: int|
            0 <= a < b < final(result)@.len() ==> final(result)@[a] != final(result)@[b],
        forall|s: ModSet|
            required.le(s) && s.le(required.spec_union(processed.spec_insert(m)))
                ==> final(result)@.contains(s),
{
    let ghost prev = result@;
    let old_len = result.len();
    let mut i: usize = 0;
    while i < old_len
        invariant
            i <= old_len,
            old_len == prev.len(),
            old_len < 256,
            result@.len() == old_len + i,
            forall|t: int| 0 <= t < old_len ==> result@[t] == prev[t],
            forall|t: int| 0 <= t < i ==> result@[old_len + t] == prev[t].spec_insert(m),
        decreases old_len - i,
    {
        let s = result[i];
        let s2 = s.insert(m);
        result.push(s2);
        i = i + 1;
    }
    proof {
        lemma_insert_count(processed, m);
        lemma_pow2_unfold(processed.spec_insert(m).count());
        lemma_doubling_bounds(prev, result@, required, processed, m);
        lemma_doubling_distinct(prev, result@, required, processed, m);
        lemma_doubling_complete(prev, result@, required, processed, m);
    }
}

/// Common shape of one doubling step of the combination walk: `result` is
/// `prev` followed by a copy of each entry with `m` added, and `m` is a
/// fresh modifier outside every bound.
spec fn doubling_step_shape(
    prev: Seq<ModSet>,
    result: Seq<ModSet>,
    required: ModSet,
    processed: ModSet,
    m: Modifier,
) -> bool {
    &&& !required.spec_union(processed).has(m)
    &&& result.len() == 2 * prev.len()
    &&& (forall|t: int| 0 <= t < prev.len() ==> result[t] == prev[t])
    &&& (forall|t: int|
        0 <= t < prev.len() ==> result[prev.len() + t] == (#[trigger] prev[t]).spec_insert(m))
    &&& (forall|t: int|
        0 <= t < prev.len() ==> required.le(#[trigger] prev[t]) && prev[t].le(
            required.spec_union(processed),
        ))
}

/// After a doubling step every entry still contains the required set and
/// stays inside the enlarged bound.
proof fn lemma_doubling_bounds(
    prev: Seq<ModSet>,
    result: Seq<ModSet>,
    required: ModSet,
    processed: ModSet,
    m: Modifier,
)
    requires
        doubling_step_shape(prev, result, required, processed, m),
    ensures
        forall|t: int|
            0 <= t < result.len() ==> required.le(#[trigger] result[t]) && result[t].le(
                required.spec_union(processed.spec_insert(m)),
            ),
{
    let old_len = prev.len() as int;
    assert forall|t: int|
        0 <= t < result.len() implies required.le(#[trigger] result[t]) && result[t].le(
        required.spec_union(processed.spec_insert(m)),
    ) by {
        if t < old_len {
            assert(result[t] == prev[t]);
            assert(prev[t].le(required.spec_union(processed)));
        } else {
            let s0 = prev[t - old_len];
            assert(required.le(s0));
            assert(s0.le(required.spec_union(processed)));
            assert(result[t] == s0.spec_insert(m));
        }
        match m {
            Modifier::Shift => {},
            Modifier::CapsLock => {},
            Modifier::Ctrl => {},
            Modifier::Alt => {},
            Modifier::NumLock => {},
            Modifier::Mod3 => {},
            Modifier::Super => {},
            Modifier::Mod5 => {},
        }
    }
}

/// After a doubling step the entries are still pairwise distinct.
proof fn lemma_doubling_distinct(
    prev: Seq<ModSet>,
    result: Seq<ModSet>,
    required: ModSet,
    processed: ModSet,
    m: Modifier,
)
    requires
        doubling_step_shape(prev, result, required, processed, m),
        forall|a: int, b: int| 0 <= a < b < prev.len() ==> prev[a] != prev[b],
    ensures
        forall|a: int, b: int| 0 <= a < b < result.len() ==> result[a] != result[b],
{
    let old_len = prev.len() as int;
    assert forall|a: int, b: int| 0 <= a < b < result.len() implies result[a] != result[b] by {
        if b < old_len {
            assert(result[a] == prev[a]);
            assert(result[b] == prev[b]);
        } else if a < old_len {
            let sb = prev[b - old_len];
            assert(result[b] == sb.spec_insert(m));
            assert(result[a] == prev[a]);
            assert(prev[a].le(required.spec_union(processed)));
            match m {
                Modifier::Shift => {},
                Modifier::CapsLock => {},
                Modifier::Ctrl => {},
                Modifier::Alt => {},
                Modifier::NumLock => {},
                Modifier::Mod3 => {},
                Modifier::Super => {},
                Modifier::Mod5 => {},
            }
            assert(result[b].has(m));
            assert(!result[a].has(m));
        } else {
            let sa = prev[a - old_len];
            let sb = prev[b - old_len];
            assert(result[a] == sa.spec_insert(m));
            assert(result[b] == sb.spec_insert(m));
            if result[a] == result[b] {
                assert(sa.le(required.spec_union(processed)));
                assert(sb.le(required.spec_union(processed)));
                match m {
                    Modifier::Shift => {},
                    Modifier::CapsLock => {},
                    Modifier::Ctrl => {},
                    Modifier::Alt => {},
                    Modifier::NumLock => {},
                    Modifier::Mod3 => {},
                    Modifier::Super => {},
                    Modifier::Mod5 => {},
                }
                assert(!sa.has(m) && !sb.has(m));
                ModSet::lemma_insert_injective(sa, sb, m);
                assert(false);
            }
        }
    }
}

/// After a doubling step every admissible set below the enlarged bound is
/// present.
proof fn lemma_doubling_complete(
    prev: Seq<ModSet>,
    result: Seq<ModSet>,
    required: ModSet,
    processed: ModSet,
    m: Modifier,
)
    requires
        doubling_step_shape(prev, result, required, processed, m),
        forall|s: ModSet|
            required.le(s) && s.le(required.spec_union(processed)) ==> prev.contains(s),
    ensures
        forall|s: ModSet|
            required.le(s) && s.le(required.spec_union(processed.spec_insert(m)))
                ==> result.contains(s),
{
    let old_len = prev.len() as int;
    let u = required.spec_union(processed);
    assert(!required.has(m) && required.spec_union(processed.spec_insert(m)) == u.spec_insert(
        m,
    )) by {
        match m {
            Modifier::Shift => {},
            Modifier::CapsLock => {},
            Modifier::Ctrl => {},
            Modifier::Alt => {},
            Modifier::NumLock => {},
            Modifier::Mod3 => {},
            Modifier::Super => {},
            Modifier::Mod5 => {},
        }
    }
    assert forall|s: ModSet|
        required.le(s) && s.le(required.spec_union(processed.spec_insert(m)))
        implies result.contains(s) by {
        if !s.has(m) {
            ModSet::lemma_le_insert_absent(s, u, m);
            assert(prev.contains(s));
            let t = choose|t: int| 0 <= t < prev.len() && prev[t] == s;
            assert(result[t] == s);
        } else {
            let s0 = s.spec_remove(m);
            ModSet::lemma_le_remove_mono(required, s, m);
            ModSet::lemma_le_remove(s, u, m);
            assert(prev.contains(s0));
            let t = choose|t: int| 0 <= t < prev.len() && prev[t] == s0;
            assert(result[old_len + t] == s0.spec_insert(m));
            ModSet::lemma_remove_insert(s, m);
            assert(result[old_len + t] == s);
        }
    }
}

/// Why a rule document was refused; all of these abort startup.
#[derive(Clone, Copy, Debug, PartialEq, Eq, Structural)]
pub enum ConfigError {
    /// A literal keycode of zero.
    InvalidKeycode,
    /// A symbolic key name the layout does not know.
    UnknownKeyName,
    /// A keysym with no keycode in the current layout.
    UnresolvedKeysym,
    /// Nested modifier specs that disagree on some modifier.
    IncompatibleDispositions,
    /// Nested conditions that both constrain the window title.
    ConflictingConditions,
}

/// A rule-time reference to a key: a literal keycode, or a symbolic name to
/// resolve against the keyboard layout.
#[derive(Debug)]
pub enum KeySpec {
    Code(u8),
    Sym(String),
}

impl Clone for KeySpec {
    fn clone(&self) -> (r: Self)
        ensures
            r == *self,
    {
        match self {
            KeySpec::Code(c) => KeySpec::Code(*c),
            KeySpec::Sym(s) => KeySpec::Sym(s.clone()),
        }
    }
}

impl KeySpec {
    /// The keycode this reference resolves to under `km`, or the error that
    /// makes it unresolvable.
    pub open spec fn spec_to_keycode(self, km: KeyboardMapping) -> Result<Keycode, ConfigError> {
        match self {
            KeySpec::Code(c) => {
                if c != 0 {
                    Ok(Keycode::spec_from_value(c))
                } else {
                    Err(ConfigError::InvalidKeycode)
                }
            },
            KeySpec::Sym(s) => {
                match km.spec_keysym_of_name(s@) {
                    None => Err(ConfigError::UnknownKeyName),
                    Some(sym) => {
                        if km.spec_keycodes_of(sym).len() > 0 {
                            Ok(km.spec_keycodes_of(sym)[0])
                        } else {
                            Err(ConfigError::UnresolvedKeysym)
                        }
                    },
                }
            },
        }
    }

    /// Resolves this reference against the layout.
    pub fn to_keycode(&self, keyboard_mapping: &KeyboardMapping) -> (r: Result<Keycode, ConfigError>)
        ensures
            r == self.spec_to_keycode(*keyboard_mapping),
    {
        match self {
            KeySpec::Code(c) => {
                match Keycode::new(*c) {
                    Some(k) => Ok(k),
                    None => Err(ConfigError::InvalidKeycode),
                }
            },
            KeySpec::Sym(s) => {
                match keyboard_mapping.name_to_keysym(s) {
                    None => Err(ConfigError::UnknownKeyName),
                    Some(sym) => {
                        let codes = keyboard_mapping.keysym_to_keycodes(sym);
                        if codes.len() > 0 {
                            Ok(codes[0])
                        } else {
                            Err(ConfigError::UnresolvedKeysym)
                        }
                    },
                }
            },
        }
    }
}


/// A rule's output: one key, one chord held together, or a sequence of
/// chords; normalized to a sequence of chords when compiled.
#[derive(Debug)]
pub enum KeySeq {
    Key(KeySpec),
    Chord(Vec<KeySpec>),
    ChordSeq(Vec<Vec<KeySpec>>),
}

fn clone_keyspec_vec(v: &Vec<KeySpec>) -> (r: Vec<KeySpec>)
    ensures
        r@ == v@,
{
    let mut r: Vec<KeySpec> = Vec::new();
    let mut i: usize = 0;
    while i < v.len()
        invariant
            i <= v.len(),
            r@.len() == i,
            forall|t: int| 0 <= t < i ==> r@[t] == v@[t],
        decreases v.len() - i,
    {
        r.push(v[i].clone());
        i = i + 1;
    }
    proof {
        assert(r@ =~= v@);
    }
    r
}

/// A key-sequence value as plain specification data: the same shape with
/// mathematical sequences in place of vectors.
pub enum KeySeqView {
    Key(KeySpec),
    Chord(Seq<KeySpec>),
    ChordSeq(Seq<Seq<KeySpec>>),
}

impl View for KeySeq {
    type V = KeySeqView;

    open spec fn view(&self) -> KeySeqView {
        match *self {
            KeySeq::Key(k) => KeySeqView::Key(k),
            KeySeq::Chord(c) => KeySeqView::Chord(c@),
            KeySeq::ChordSeq(s) => KeySeqView::ChordSeq(
                s@.map_values(|chord: Vec<KeySpec>| chord@),
            ),
        }
    }
}

impl Clone for KeySeq {
    fn clone(&self) -> (r: Self)
        ensures
            r@ == self@,
    {
        match self {
            KeySeq::Key(k) => KeySeq::Key(k.clone()),
            KeySeq::Chord(c) => KeySeq::Chord(clone_keyspec_vec(c)),
            KeySeq::ChordSeq(s) => {
                let mut chords: Vec<Vec<KeySpec>> = Vec::new();
                let mut i: usize = 0;
                while i < s.len()
                    invariant
                        i <= s.len(),
                        chords@.len() == i,
                        forall|t: int| 0 <= t < i ==> chords@[t]@ == s@[t]@,
                    decreases s.len() - i,
                {
                    chords.push(clone_keyspec_vec(&s[i]));
                    i = i + 1;
                }
                proof {
                    assert(chords@.map_values(|chord: Vec<KeySpec>| chord@) =~= s@.map_values(
                        |chord: Vec<KeySpec>| chord@,
                    ));
                }
                KeySeq::ChordSeq(chords)
            },
        }
    }
}

/// The keycodes of one chord, resolved in order; the first unresolvable
/// reference decides the error.
pub open spec fn spec_resolve_chord(s: Seq<KeySpec>, km: KeyboardMapping) -> Result<
    Seq<Keycode>,
    ConfigError,
>
    decreases s.len(),
{
    if s.len() == 0 {
        Ok(Seq::empty())
    } else {
        match s[0].spec_to_keycode(km) {
            Err(e) => Err(e),
            Ok(k) => match spec_resolve_chord(s.drop_first(), km) {
                Err(e) => Err(e),
                Ok(rest) => Ok(seq![k] + rest),
            },
        }
    }
}

/// Every chord resolved in order; the first unresolvable chord decides the
/// error.
pub open spec fn spec_resolve_chords(s: Seq<Seq<KeySpec>>, km: KeyboardMapping) -> Result<
    Seq<Seq<Keycode>>,
    ConfigError,
>
    decreases s.len(),
{
    if s.len() == 0 {
        Ok(Seq::empty())
    } else {
        match spec_resolve_chord(s[0], km) {
            Err(e) => Err(e),
            Ok(chord) => match spec_resolve_chords(s.drop_first(), km) {
                Err(e) => Err(e),
                Ok(rest) => Ok(seq![chord] + rest),
            },
        }
    }
}

fn resolve_chord(c: &Vec<KeySpec>, keyboard_mapping: &KeyboardMapping) -> (r: Result<
    Vec<Keycode>,
    ConfigError,
>)
    ensures
        ({
            let s = spec_resolve_chord(c@, *keyboard_mapping);
            match r {
                Ok(v) => s == Ok::<Seq<Keycode>, ConfigError>(v@),
                Err(e) => s == Err::<Seq<Keycode>, ConfigError>(e),
            }
        }),
{
    let mut out: Vec<Keycode> = Vec::new();
    let mut i: usize = 0;
    proof {
        assert(c@.skip(0) =~= c@);
    }
    while i < c.len()
        invariant
            i <= c.len(),
            out@.len() == i,
            spec_resolve_chord(c@, *keyboard_mapping) == (match spec_resolve_chord(
                c@.skip(i as int),
                *keyboard_mapping,
            ) {
                Ok(rest) => Ok::<Seq<Keycode>, ConfigError>(out@ + rest),
                Err(e) => Err::<Seq<Keycode>, ConfigError>(e),
            }),
        decreases c.len() - i,
    {
        proof {
            assert(c@.skip(i as int)[0] == c@[i as int]);
            assert(c@.skip(i as int).drop_first() =~= c@.skip(i + 1));
        }
        match c[i].to_keycode(keyboard_mapping) {
            Err(e) => {
                return Err(e);
            },
            Ok(k) => {
                let ghost prev = out@;
                out.push(k);
                proof {
                    assert forall|rest: Seq<Keycode>| prev + (seq![k] + rest) =~= out@ + rest by {}
                }
            },
        }
        i = i + 1;
    }
    proof {
        assert(c@.skip(c.len() as int) =~= Seq::<KeySpec>::empty());
        assert(out@ + Seq::<Keycode>::empty() =~= out@);
    }
    Ok(out)
}

/// The chord sequence a key-sequence value resolves to under `km`.
pub open spec fn spec_chord_seq_of(v: KeySeqView, km: KeyboardMapping) -> Result<
    Seq<Seq<Keycode>>,
    ConfigError,
> {
    match v {
        KeySeqView::Key(k) => spec_resolve_chords(seq![seq![k]], km),
        KeySeqView::Chord(c) => spec_resolve_chords(seq![c], km),
        KeySeqView::ChordSeq(s) => spec_resolve_chords(s, km),
    }
}

fn resolve_chords(s: &Vec<Vec<KeySpec>>, keyboard_mapping: &KeyboardMapping) -> (r: Result<
    Vec<Vec<Keycode>>,
    ConfigError,
>)
    ensures
        ({
            let sp = spec_resolve_chords(
                s@.map_values(|chord: Vec<KeySpec>| chord@),
                *keyboard_mapping,
            );
            match r {
                Ok(v) => sp == Ok::<Seq<Seq<Keycode>>, ConfigError>(
                    v@.map_values(|chord: Vec<Keycode>| chord@),
                ),
                Err(e) => sp == Err::<Seq<Seq<Keycode>>, ConfigError>(e),
            }
        }),
{
    let ghost mapped = s@.map_values(|v: Vec<KeySpec>| v@);
    let mut out: Vec<Vec<Keycode>> = Vec::new();
    let mut i: usize = 0;
    proof {
        assert(mapped.skip(0) =~= mapped);
    }
    while i < s.len()
        invariant
            i <= s.len(),
            mapped == s@.map_values(|v: Vec<KeySpec>| v@),
            s@.len() == mapped.len(),
            out@.len() == i,
            spec_resolve_chords(mapped, *keyboard_mapping) == (match spec_resolve_chords(
                mapped.skip(i as int),
                *keyboard_mapping,
            ) {
                Ok(rest) => Ok::<Seq<Seq<Keycode>>, ConfigError>(
                    out@.map_values(|chord: Vec<Keycode>| chord@) + rest,
                ),
                Err(e) => Err::<Seq<Seq<Keycode>>, ConfigError>(e),
            }),
        decreases s.len() - i,
    {
        proof {
            assert(mapped.skip(i as int)[0] == mapped[i as int]);
            assert(mapped[i as int] == s@[i as int]@);
            assert(mapped.skip(i as int).drop_first() =~= mapped.skip(i + 1));
        }
        match resolve_chord(&s[i], keyboard_mapping) {
            Err(e) => {
                return Err(e);
            },
            Ok(chord) => {
                let ghost prev = out@.map_values(|ch: Vec<Keycode>| ch@);
                let ghost chord_view = chord@;
                out.push(chord);
                proof {
                    assert(out@.map_values(|ch: Vec<Keycode>| ch@) =~= prev + seq![chord_view]);
                    assert forall|rest: Seq<Seq<Keycode>>|
                        prev + (seq![chord_view] + rest) =~= (prev + seq![chord_view]) + rest by {}
                }
            },
        }
        i = i + 1;
    }
    proof {
        assert(mapped.skip(s@.len() as int) =~= Seq::<Seq<KeySpec>>::empty());
        assert(out@.map_values(|chord: Vec<Keycode>| chord@) + Seq::<Seq<Keycode>>::empty()
            =~= out@.map_values(|chord: Vec<Keycode>| chord@));
    }
    Ok(out)
}

impl KeySeq {
    /// The normalized chord sequence this output resolves to under `km`.
    pub open spec fn spec_to_chord_seq(self, km: KeyboardMapping) -> Result<
        Seq<Seq<Keycode>>,
        ConfigError,
    > {
        spec_chord_seq_of(self@, km)
    }

    /// Resolves this output against the layout, normalizing it to a
    /// sequence of chords of keycodes.
    pub fn to_chord_seq(&self, keyboard_mapping: &KeyboardMapping) -> (r: Result<
        Vec<Vec<Keycode>>,
        ConfigError,
    >)
        ensures
            ({
                let sp = self.spec_to_chord_seq(*keyboard_mapping);
                match r {
                    Ok(v) => sp == Ok::<Seq<Seq<Keycode>>, ConfigError>(
                        v@.map_values(|chord: Vec<Keycode>| chord@),
                    ),
                    Err(e) => sp == Err::<Seq<Seq<Keycode>>, ConfigError>(e),
                }
            }),
    {
        match self {
            KeySeq::Key(k) => {
                let mut chord: Vec<KeySpec> = Vec::new();
                chord.push(k.clone());
                let mut chords: Vec<Vec<KeySpec>> = Vec::new();
                chords.push(chord);
                proof {
                    assert(chords@.map_values(|c: Vec<KeySpec>| c@) =~= seq![seq![*k]]);
                }
                resolve_chords(&chords, keyboard_mapping)
            },
            KeySeq::Chord(c) => {
                let mut chords: Vec<Vec<KeySpec>> = Vec::new();
                chords.push(clone_keyspec_vec(c));
                proof {
                    assert(chords@.map_values(|ch: Vec<KeySpec>| ch@) =~= seq![c@]);
                }
                resolve_chords(&chords, keyboard_mapping)
            },
            KeySeq::ChordSeq(chords) => resolve_chords(chords, keyboard_mapping),
        }
    }
}

/// One remapping rule as written: a trigger reference and an output.
#[derive(Debug)]
pub struct KeyMapping {
    pub input: KeySpec,
    pub output: KeySeq,
}

/// A rule as plain specification data.
pub struct KeyMappingView {
    pub input: KeySpec,
    pub output: KeySeqView,
}

impl View for KeyMapping {
    type V = KeyMappingView;

    open spec fn view(&self) -> KeyMappingView {
        KeyMappingView { input: self.input, output: self.output@ }
    }
}

impl Clone for KeyMapping {
    fn clone(&self) -> (r: Self)
        ensures
            r@ == self@,
    {
        KeyMapping { input: self.input.clone(), output: self.output.clone() }
    }
}

/// Conditions a group may attach to its rules; carried through compilation
/// and consumed outside the dispatch core.
#[derive(Debug)]
pub struct Conditions {
    pub window_title: Option<String>,
}

impl Clone for Conditions {
    fn clone(&self) -> (r: Self)
        ensures
            r == *self,
    {
        Conditions {
            window_title: match &self.window_title {
                Some(t) => Some(t.clone()),
                None => None,
            },
        }
    }
}

impl Default for Conditions {
    /// No condition: the rule applies everywhere.
    fn default() -> (r: Conditions)
        ensures
            r.window_title is None,
    {
        Conditions { window_title: None }
    }
}

impl Conditions {
    /// Two conditions can merge unless both constrain the window title.
    pub open spec fn spec_combinable(self, other: Conditions) -> bool {
        !(self.window_title is Some && other.window_title is Some)
    }

    /// The merge of two combinable conditions: the constrained one wins.
    pub open spec fn spec_combined(self, other: Conditions) -> Conditions {
        if self.window_title is Some {
            self
        } else {
            other
        }
    }

    fn can_combine_with(&self, other: &Conditions) -> (r: bool)
        ensures
            r == self.spec_combinable(*other),
    {
        !(self.window_title.is_some() && other.window_title.is_some())
    }

    /// Merges a group's conditions with a nested item's conditions.
    pub fn combine_with(&self, other: &Conditions) -> (r: Conditions)
        requires
            self.spec_combinable(*other),
        ensures
            r == self.spec_combined(*other),
    {
        match &self.window_title {
            Some(_) => self.clone(),
            None => other.clone(),
        }
    }
}

/// The rule state inherited from enclosing groups while walking the
/// document: merged modifier dispositions and merged conditions.
#[derive(Debug)]
pub struct VisitKeyMappingsState {
    pub mods: ModSpec,
    pub conditions: Conditions,
}

impl Clone for VisitKeyMappingsState {
    fn clone(&self) -> (r: Self)
        ensures
            r == *self,
    {
        VisitKeyMappingsState { mods: self.mods, conditions: self.conditions.clone() }
    }
}

impl Default for VisitKeyMappingsState {
    /// The state outside every group: no constraint, no condition.
    fn default() -> (r: VisitKeyMappingsState)
        ensures
            r.mods == ModSpec::spec_unconstrained(),
            r.conditions.window_title is None,
    {
        VisitKeyMappingsState { mods: Default::default(), conditions: Default::default() }
    }
}

/// One node of the rule document: a single rule or a group of nested items,
/// with its own dispositions and conditions, and a switch to disable it.
#[derive(Debug)]
pub struct ConfigItem {
    pub name: Option<String>,
    pub enabled: bool,
    pub conditions: Conditions,
    pub mods: ModSpec,
    pub body: ItemBody,
}

/// What a config item holds: a rule, or nested items.
#[derive(Debug)]
pub enum ItemBody {
    KeyMapping(KeyMapping),
    Group { contents: Vec<ConfigItem> },
}

/// The rules reachable from `item` under inherited state `state`, paired
/// with their fully merged state, in document order; or the first error the
/// walk runs into.
pub open spec fn spec_visit_item(item: ConfigItem, state: VisitKeyMappingsState) -> Result<
    Seq<(KeyMappingView, VisitKeyMappingsState)>,
    ConfigError,
>
    decreases item,
{
    if !state.conditions.spec_combinable(item.conditions) {
        Err(ConfigError::ConflictingConditions)
    } else if !state.mods.spec_compatible(item.mods) {
        Err(ConfigError::IncompatibleDispositions)
    } else {
        let st = VisitKeyMappingsState {
            mods: state.mods.spec_combined(item.mods),
            conditions: state.conditions.spec_combined(item.conditions),
        };
        if !item.enabled {
            Ok(Seq::empty())
        } else {
            match item.body {
                ItemBody::KeyMapping(m) => Ok(seq![(m@, st)]),
                ItemBody::Group { contents } => spec_visit_items(contents@, st),
            }
        }
    }
}

/// The rules reachable from a sequence of items, in document order.
pub open spec fn spec_visit_items(
    items: Seq<ConfigItem>,
    state: VisitKeyMappingsState,
) -> Result<Seq<(KeyMappingView, VisitKeyMappingsState)>, ConfigError>
    decreases items,
{
    if items.len() == 0 {
        Ok(Seq::empty())
    } else {
        match spec_visit_item(items[0], state) {
            Err(e) => Err(e),
            Ok(head) => match spec_visit_items(items.drop_first(), state) {
                Err(e) => Err(e),
                Ok(tail) => Ok(head + tail),
            },
        }
    }
}

fn visit_items(items: &Vec<ConfigItem>, state: &VisitKeyMappingsState) -> (r: Result<
    Vec<(KeyMapping, VisitKeyMappingsState)>,
    ConfigError,
>)
    ensures
        ({
            let s = spec_visit_items(items@, *state);
            match r {
                Ok(v) => s == Ok::<Seq<(KeyMappingView, VisitKeyMappingsState)>, ConfigError>(
                    v@.map_values(|p: (KeyMapping, VisitKeyMappingsState)| (p.0@, p.1)),
                ),
                Err(e) => s == Err::<Seq<(KeyMappingView, VisitKeyMappingsState)>, ConfigError>(e),
            }
        }),
    decreases items@,
{
    let mut out: Vec<(KeyMapping, VisitKeyMappingsState)> = Vec::new();
    let mut i: usize = 0;
    proof {
        assert(items@.skip(0) =~= items@);
    }
    while i < items.len()
        invariant
            i <= items.len(),
            spec_visit_items(items@, *state) == (match spec_visit_items(
                items@.skip(i as int),
                *state,
            ) {
                Ok(rest) => Ok::<Seq<(KeyMappingView, VisitKeyMappingsState)>, ConfigError>(
                    out@.map_values(|p: (KeyMapping, VisitKeyMappingsState)| (p.0@, p.1)) + rest,
                ),
                Err(e) => Err::<Seq<(KeyMappingView, VisitKeyMappingsState)>, ConfigError>(e),
            }),
        decreases items.len() - i,
    {
        proof {
            assert(items@.skip(i as int)[0] == items@[i as int]);
            assert(items@.skip(i as int).drop_first() =~= items@.skip(i + 1));
        }
        match items[i].visit_key_mappings(state) {
            Err(e) => {
                return Err(e);
            },
            Ok(mut sub) => {
                let ghost prev = out@.map_values(
                    |p: (KeyMapping, VisitKeyMappingsState)| (p.0@, p.1),
                );
                let ghost sub_view = sub@.map_values(
                    |p: (KeyMapping, VisitKeyMappingsState)| (p.0@, p.1),
                );
                out.append(&mut sub);
                proof {
                    assert(out@.map_values(|p: (KeyMapping, VisitKeyMappingsState)| (p.0@, p.1))
                        =~= prev + sub_view);
                    assert forall|rest: Seq<(KeyMappingView, VisitKeyMappingsState)>|
                        prev + (sub_view + rest) =~= (prev + sub_view) + rest by {}
                }
            },
        }
        i = i + 1;
    }
    proof {
        assert(items@.skip(items@.len() as int) =~= Seq::<ConfigItem>::empty());
        assert(out@.map_values(|p: (KeyMapping, VisitKeyMappingsState)| (p.0@, p.1)) + Seq::<
            (KeyMappingView, VisitKeyMappingsState),
        >::empty() =~= out@.map_values(|p: (KeyMapping, VisitKeyMappingsState)| (p.0@, p.1)));
    }
    Ok(out)
}

impl ConfigItem {
    /// Collects, in document order, every rule reachable from this item
    /// together with its fully merged inherited state.
    pub fn visit_key_mappings(&self, state: &VisitKeyMappingsState) -> (r: Result<
        Vec<(KeyMapping, VisitKeyMappingsState)>,
        ConfigError,
    >)
        ensures
            ({
                let s = spec_visit_item(*self, *state);
                match r {
                    Ok(v) => s == Ok::<Seq<(KeyMappingView, VisitKeyMappingsState)>, ConfigError>(
                        v@.map_values(|p: (KeyMapping, VisitKeyMappingsState)| (p.0@, p.1)),
                    ),
                    Err(e) => s == Err::<
                        Seq<(KeyMappingView, VisitKeyMappingsState)>,
                        ConfigError,
                    >(e),
                }
            }),
        decreases *self,
    {
        if !state.conditions.can_combine_with(&self.conditions) {
            return Err(ConfigError::ConflictingConditions);
        }
        if !state.mods.compatible_with(&self.mods) {
            return Err(ConfigError::IncompatibleDispositions);
        }
        let conditions = state.conditions.combine_with(&self.conditions);
        let mods = state.mods.combine_with(&self.mods);
        let st = VisitKeyMappingsState { mods, conditions };
        if !self.enabled {
            let v: Vec<(KeyMapping, VisitKeyMappingsState)> = Vec::new();
            proof {
                assert(v@.map_values(|p: (KeyMapping, VisitKeyMappingsState)| (p.0@, p.1)) =~= Seq::<
                    (KeyMappingView, VisitKeyMappingsState),
                >::empty());
            }
            return Ok(v);
        }
        match &self.body {
            ItemBody::KeyMapping(m) => {
                let mut v: Vec<(KeyMapping, VisitKeyMappingsState)> = Vec::new();
                v.push((m.clone(), st));
                proof {
                    assert(v@.map_values(|p: (KeyMapping, VisitKeyMappingsState)| (p.0@, p.1))
                        =~= seq![(spec_visit_pair_of(*self, *state))]);
                }
                Ok(v)
            },
            ItemBody::Group { contents } => visit_items(contents, &st),
        }
    }
}

/// The single pair an enabled rule item contributes.
pub open spec fn spec_visit_pair_of(item: ConfigItem, state: VisitKeyMappingsState) -> (
    KeyMappingView,
    VisitKeyMappingsState,
) {
    (
        item.body->KeyMapping_0@,
        VisitKeyMappingsState {
            mods: state.mods.spec_combined(item.mods),
            conditions: state.conditions.spec_combined(item.conditions),
        },
    )
}


/// The whole rule document: a list of top-level items.
#[derive(Debug)]
pub struct Config(pub Vec<ConfigItem>);

/// One compiled rule: the resolved trigger keycode, the merged modifier
/// spec, the merged conditions, and the output normalized to a sequence of
/// chords of resolved keycodes. Immutable once compiled.
#[derive(Debug)]
pub struct ValidKeyMapping {
    pub conditions: Conditions,
    pub mods: ModSpec,
    pub input: Keycode,
    pub output: Vec<Vec<Keycode>>,
}

impl ValidKeyMapping {
    /// The compiled rule as plain specification data.
    pub open spec fn spec_as_tuple(self) -> (Keycode, Seq<Seq<Keycode>>, ModSpec, Conditions) {
        (self.input, self.output@.map_values(|chord: Vec<Keycode>| chord@), self.mods,
        self.conditions)
    }
}

/// The compiled rule set, in document order; rules are matched first to
/// last and the first match wins.
#[derive(Debug)]
pub struct ValidConfig {
    pub key_mappings: Vec<ValidKeyMapping>,
}

/// Each collected rule compiled against the layout, in order; the first
/// rule that fails to compile decides the error.
pub open spec fn spec_compile_pairs(
    pairs: Seq<(KeyMappingView, VisitKeyMappingsState)>,
    km: KeyboardMapping,
) -> Result<Seq<(Keycode, Seq<Seq<Keycode>>, ModSpec, Conditions)>, ConfigError>
    decreases pairs.len(),
{
    if pairs.len() == 0 {
        Ok(Seq::empty())
    } else {
        match pairs[0].0.input.spec_to_keycode(km) {
            Err(e) => Err(e),
            Ok(input) => match spec_chord_seq_of(pairs[0].0.output, km) {
                Err(e) => Err(e),
                Ok(output) => match spec_compile_pairs(pairs.drop_first(), km) {
                    Err(e) => Err(e),
                    Ok(rest) => Ok(
                        seq![(input, output, pairs[0].1.mods, pairs[0].1.conditions)] + rest,
                    ),
                },
            },
        }
    }
}

impl Config {
    /// What compiling this document against layout `km` yields: the
    /// compiled rules in document order, or the first error.
    pub open spec fn spec_validate(self, km: KeyboardMapping) -> Result<
        Seq<(Keycode, Seq<Seq<Keycode>>, ModSpec, Conditions)>,
        ConfigError,
    > {
        match spec_visit_items(
            self.0@,
            VisitKeyMappingsState {
                mods: ModSpec::spec_unconstrained(),
                conditions: Conditions { window_title: None },
            },
        ) {
            Err(e) => Err(e),
            Ok(pairs) => spec_compile_pairs(pairs, km),
        }
    }

    /// Collects every rule of the document under the empty inherited state.
    pub fn visit_key_mappings(&self) -> (r: Result<
        Vec<(KeyMapping, VisitKeyMappingsState)>,
        ConfigError,
    >)
        ensures
            ({
                let s = spec_visit_items(
                    self.0@,
                    VisitKeyMappingsState {
                        mods: ModSpec::spec_unconstrained(),
                        conditions: Conditions { window_title: None },
                    },
                );
                match r {
                    Ok(v) => s == Ok::<Seq<(KeyMappingView, VisitKeyMappingsState)>, ConfigError>(
                        v@.map_values(|p: (KeyMapping, VisitKeyMappingsState)| (p.0@, p.1)),
                    ),
                    Err(e) => s == Err::<
                        Seq<(KeyMappingView, VisitKeyMappingsState)>,
                        ConfigError,
                    >(e),
                }
            }),
    {
        let state: VisitKeyMappingsState = Default::default();
        self.visit_key_mappings_with_state(&state)
    }

    /// Collects every rule of the document under inherited state `state`.
    pub fn visit_key_mappings_with_state(&self, state: &VisitKeyMappingsState) -> (r: Result<
        Vec<(KeyMapping, VisitKeyMappingsState)>,
        ConfigError,
    >)
        ensures
            ({
                let s = spec_visit_items(self.0@, *state);
                match r {
                    Ok(v) => s == Ok::<Seq<(KeyMappingView, VisitKeyMappingsState)>, ConfigError>(
                        v@.map_values(|p: (KeyMapping, VisitKeyMappingsState)| (p.0@, p.1)),
                    ),
                    Err(e) => s == Err::<
                        Seq<(KeyMappingView, VisitKeyMappingsState)>,
                        ConfigError,
                    >(e),
                }
            }),
    {
        visit_items(&self.0, state)
    }

    /// Compiles the document against the layout into the immutable rule
    /// set, refusing the whole document on the first unresolvable or
    /// contradictory item.
    pub fn validate(&self, keyboard_mapping: &KeyboardMapping) -> (r: Result<
        ValidConfig,
        ConfigError,
    >)
        ensures
            ({
                let s = self.spec_validate(*keyboard_mapping);
                match r {
                    Ok(vc) => s == Ok::<
                        Seq<(Keycode, Seq<Seq<Keycode>>, ModSpec, Conditions)>,
                        ConfigError,
                    >(vc.key_mappings@.map_values(|m: ValidKeyMapping| m.spec_as_tuple())),
                    Err(e) => s == Err::<
                        Seq<(Keycode, Seq<Seq<Keycode>>, ModSpec, Conditions)>,
                        ConfigError,
                    >(e),
                }
            }),
    {
        let pairs = match self.visit_key_mappings() {
            Err(e) => {
                return Err(e);
            },
            Ok(pairs) => pairs,
        };
        let ghost pview = pairs@.map_values(|p: (KeyMapping, VisitKeyMappingsState)| (p.0@, p.1));
        let mut key_mappings: Vec<ValidKeyMapping> = Vec::new();
        let mut i: usize = 0;
        proof {
            assert(pview.skip(0) =~= pview);
        }
        while i < pairs.len()
            invariant
                i <= pairs.len(),
                pairs@.len() == pview.len(),
                pview == pairs@.map_values(|p: (KeyMapping, VisitKeyMappingsState)| (p.0@, p.1)),
                spec_visit_items(
                    self.0@,
                    VisitKeyMappingsState {
                        mods: ModSpec::spec_unconstrained(),
                        conditions: Conditions { window_title: None },
                    },
                ) == Ok::<Seq<(KeyMappingView, VisitKeyMappingsState)>, ConfigError>(pview),
                key_mappings@.len() == i,
                spec_compile_pairs(pview, *keyboard_mapping) == (match spec_compile_pairs(
                    pview.skip(i as int),
                    *keyboard_mapping,
                ) {
                    Ok(rest) => Ok::<
                        Seq<(Keycode, Seq<Seq<Keycode>>, ModSpec, Conditions)>,
                        ConfigError,
                    >(key_mappings@.map_values(|m: ValidKeyMapping| m.spec_as_tuple()) + rest),
                    Err(e) => Err::<
                        Seq<(Keycode, Seq<Seq<Keycode>>, ModSpec, Conditions)>,
                        ConfigError,
                    >(e),
                }),
            decreases pairs.len() - i,
        {
            proof {
                assert(pview.skip(i as int)[0] == pview[i as int]);
                assert(pview[i as int] == (pairs@[i as int].0@, pairs@[i as int].1));
                assert(pview.skip(i as int).drop_first() =~= pview.skip(i + 1));
            }
            let pair = &pairs[i];
            proof {
                assert(pview[i as int].0 == pairs@[i as int].0@);
                assert(pview[i as int].0.input == pairs@[i as int].0.input);
                assert(pview[i as int].0.output == pairs@[i as int].0.output@);
            }
            let input = match pair.0.input.to_keycode(keyboard_mapping) {
                Err(e) => {
                    proof {
                        assert(spec_compile_pairs(pview.skip(i as int), *keyboard_mapping)
                            == Err::<
                            Seq<(Keycode, Seq<Seq<Keycode>>, ModSpec, Conditions)>,
                            ConfigError,
                        >(e));
                    }
                    return Err(e);
                },
                Ok(input) => input,
            };
            let output = match pair.0.output.to_chord_seq(keyboard_mapping) {
                Err(e) => {
                    proof {
                        assert(spec_compile_pairs(pview.skip(i as int), *keyboard_mapping)
                            == Err::<
                            Seq<(Keycode, Seq<Seq<Keycode>>, ModSpec, Conditions)>,
                            ConfigError,
                        >(e));
                    }
                    return Err(e);
                },
                Ok(output) => output,
            };
            let ghost prev = key_mappings@.map_values(|m: ValidKeyMapping| m.spec_as_tuple());
            let mapping = ValidKeyMapping {
                conditions: pair.1.conditions.clone(),
                mods: pair.1.mods,
                input,
                output,
            };
            let ghost mapping_tuple = mapping.spec_as_tuple();
            key_mappings.push(mapping);
            proof {
                assert(key_mappings@.map_values(|m: ValidKeyMapping| m.spec_as_tuple()) =~= prev
                    + seq![mapping_tuple]);
                assert forall|rest: Seq<(Keycode, Seq<Seq<Keycode>>, ModSpec, Conditions)>|
                    prev + (seq![mapping_tuple] + rest) =~= (prev + seq![mapping_tuple])
                        + rest by {}
            }
            i = i + 1;
        }
        proof {
            assert(pview.skip(pview.len() as int) =~= Seq::<
                (KeyMappingView, VisitKeyMappingsState),
            >::empty());
            assert(key_mappings@.map_values(|m: ValidKeyMapping| m.spec_as_tuple()) + Seq::<
                (Keycode, Seq<Seq<Keycode>>, ModSpec, Conditions),
            >::empty() =~= key_mappings@.map_values(|m: ValidKeyMapping| m.spec_as_tuple()));
        }
        Ok(ValidConfig { key_mappings })
    }
}

} // verus!
