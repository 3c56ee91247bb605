//! The key and modifier model: physical key codes, symbolic key identifiers,
//! the eight named modifiers, and fixed-width modifier sets.

use vstd::prelude::*;

verus! {

/// Physical key identifier from the input device driver.
/// Zero is reserved and never names a key.
#[derive(Clone, Copy, Debug, PartialEq, Eq, Structural, Hash)]
pub struct Keycode {
    code: u8,
}

impl Keycode {
    /// The raw code behind this keycode.
    pub closed spec fn spec_value(self) -> u8 {
        self.code
    }

    #[verifier::type_invariant]
    pub closed spec fn inv(self) -> bool {
        self.code != 0
    }

    /// The keycode with raw code `v`, as a specification-level value.
    pub closed spec fn spec_from_value(v: u8) -> Keycode {
        Keycode { code: v }
    }

    /// Builds a keycode from a raw code; zero is rejected.
    pub fn new(code: u8) -> (r: Option<Keycode>)
        ensures
            match r {
                Some(k) => k == Keycode::spec_from_value(code) && k.spec_value() == code && code
                    != 0,
                None => code == 0,
            },
    {
        if code != 0 {
            Some(Keycode { code })
        } else {
            None
        }
    }

    pub fn value(&self) -> (r: u8)
        ensures
            r == self.spec_value(),
            r != 0,
    {
        proof {
            use_type_invariant(self);
        }
        self.code
    }

    /// Keycodes are determined by their raw code.
    pub proof fn lemma_value_injective(a: Keycode, b: Keycode)
        requires
            a.spec_value() == b.spec_value(),
        ensures
            a == b,
    {
    }
}

/// Symbolic key identifier assigned by the server's layout; opaque here,
/// convertible to and from a human-readable name only outside the library.
#[derive(Clone, Copy, Debug, PartialEq, Eq, Structural, Hash)]
pub struct Keysym {
    sym: u64,
}

impl Keysym {
    pub closed spec fn spec_value(self) -> u64 {
        self.sym
    }

    pub fn new(sym: u64) -> (r: Keysym)
        ensures
            r.spec_value() == sym,
    {
        Keysym { sym }
    }

    pub fn value(&self) -> (r: u64)
        ensures
            r == self.spec_value(),
    {
        self.sym
    }
}

/// One of the eight named modifiers, in the order of their bit positions
/// in the server's modifier-state field.
#[derive(Clone, Copy, Debug, PartialEq, Eq, Structural, Hash)]
pub enum Modifier {
    Shift,
    CapsLock,
    Ctrl,
    Alt,
    NumLock,
    Mod3,
    Super,
    Mod5,
}

/// Every modifier once, in bit-position order.
pub fn all_modifiers() -> (r: Vec<Modifier>)
    ensures
        r@ =~= seq![
            Modifier::Shift,
            Modifier::CapsLock,
            Modifier::Ctrl,
            Modifier::Alt,
            Modifier::NumLock,
            Modifier::Mod3,
            Modifier::Super,
            Modifier::Mod5,
        ],
        forall|m: Modifier| r@.contains(m),
{
    let r = vec![
        Modifier::Shift,
        Modifier::CapsLock,
        Modifier::Ctrl,
        Modifier::Alt,
        Modifier::NumLock,
        Modifier::Mod3,
        Modifier::Super,
        Modifier::Mod5,
    ];
    proof {
        assert forall|m: Modifier| r@.contains(m) by {
            match m {
                Modifier::Shift => assert(r@[0] == m),
                Modifier::CapsLock => assert(r@[1] == m),
                Modifier::Ctrl => assert(r@[2] == m),
                Modifier::Alt => assert(r@[3] == m),
                Modifier::NumLock => assert(r@[4] == m),
                Modifier::Mod3 => assert(r@[5] == m),
                Modifier::Super => assert(r@[6] == m),
                Modifier::Mod5 => assert(r@[7] == m),
            }
        }
    }
    r
}

/// A set of modifiers: one membership flag per named modifier.
///
/// On the wire such a set is a fixed-width bit field; `to_bits` and
/// `from_bits_truncated` convert between the two shapes.
#[derive(Clone, Copy, Debug, PartialEq, Eq, Structural, Hash)]
pub struct ModSet {
    pub shift: bool,
    pub capslock: bool,
    pub ctrl: bool,
    pub alt: bool,
    pub numlock: bool,
    pub mod3: bool,
    pub super_: bool,
    pub mod5: bool,
}

impl ModSet {
    /// Membership of one modifier.
    pub open spec fn has(self, m: Modifier) -> bool {
        match m {
            Modifier::Shift => self.shift,
            Modifier::CapsLock => self.capslock,
            Modifier::Ctrl => self.ctrl,
            Modifier::Alt => self.alt,
            Modifier::NumLock => self.numlock,
            Modifier::Mod3 => self.mod3,
            Modifier::Super => self.super_,
            Modifier::Mod5 => self.mod5,
        }
    }

    /// `self` is a subset of `other`.
    pub open spec fn le(self, other: ModSet) -> bool {
        (self.shift ==> other.shift) && (self.capslock ==> other.capslock) && (self.ctrl
            ==> other.ctrl) && (self.alt ==> other.alt) && (self.numlock ==> other.numlock) && (
        self.mod3 ==> other.mod3) && (self.super_ ==> other.super_) && (self.mod5 ==> other.mod5)
    }

    /// Subset membership, member by member.
    pub broadcast proof fn lemma_le_has(a: ModSet, b: ModSet)
        ensures
            #[trigger] a.le(b) <==> (forall|m: Modifier| a.has(m) ==> b.has(m)),
    {
        if forall|m: Modifier| a.has(m) ==> b.has(m) {
            assert(a.has(Modifier::Shift) ==> b.has(Modifier::Shift));
            assert(a.has(Modifier::CapsLock) ==> b.has(Modifier::CapsLock));
            assert(a.has(Modifier::Ctrl) ==> b.has(Modifier::Ctrl));
            assert(a.has(Modifier::Alt) ==> b.has(Modifier::Alt));
            assert(a.has(Modifier::NumLock) ==> b.has(Modifier::NumLock));
            assert(a.has(Modifier::Mod3) ==> b.has(Modifier::Mod3));
            assert(a.has(Modifier::Super) ==> b.has(Modifier::Super));
            assert(a.has(Modifier::Mod5) ==> b.has(Modifier::Mod5));
        }
        if a.le(b) {
            assert forall|m: Modifier| a.has(m) implies b.has(m) by {
                match m {
                    Modifier::Shift => {},
                    Modifier::CapsLock => {},
                    Modifier::Ctrl => {},
                    Modifier::Alt => {},
                    Modifier::NumLock => {},
                    Modifier::Mod3 => {},
                    Modifier::Super => {},
                    Modifier::Mod5 => {},
                }
            }
        }
    }

    /// `self` and `other` share no modifier.
    pub open spec fn disjoint(self, other: ModSet) -> bool {
        !(self.shift && other.shift) && !(self.capslock && other.capslock) && !(self.ctrl
            && other.ctrl) && !(self.alt && other.alt) && !(self.numlock && other.numlock) && !(
        self.mod3 && other.mod3) && !(self.super_ && other.super_) && !(self.mod5 && other.mod5)
    }

    /// Disjointness, member by member.
    pub broadcast proof fn lemma_disjoint_has(a: ModSet, b: ModSet)
        ensures
            #[trigger] a.disjoint(b) <==> (forall|m: Modifier| !(a.has(m) && b.has(m))),
    {
        if forall|m: Modifier| !(a.has(m) && b.has(m)) {
            assert(!(a.has(Modifier::Shift) && b.has(Modifier::Shift)));
            assert(!(a.has(Modifier::CapsLock) && b.has(Modifier::CapsLock)));
            assert(!(a.has(Modifier::Ctrl) && b.has(Modifier::Ctrl)));
            assert(!(a.has(Modifier::Alt) && b.has(Modifier::Alt)));
            assert(!(a.has(Modifier::NumLock) && b.has(Modifier::NumLock)));
            assert(!(a.has(Modifier::Mod3) && b.has(Modifier::Mod3)));
            assert(!(a.has(Modifier::Super) && b.has(Modifier::Super)));
            assert(!(a.has(Modifier::Mod5) && b.has(Modifier::Mod5)));
        }
        if a.disjoint(b) {
            assert forall|m: Modifier| !(a.has(m) && b.has(m)) by {
                match m {
                    Modifier::Shift => {},
                    Modifier::CapsLock => {},
                    Modifier::Ctrl => {},
                    Modifier::Alt => {},
                    Modifier::NumLock => {},
                    Modifier::Mod3 => {},
                    Modifier::Super => {},
                    Modifier::Mod5 => {},
                }
            }
        }
    }

    /// Inserting the same fresh modifier into two sets cannot make unequal
    /// sets equal.
    pub proof fn lemma_insert_injective(a: ModSet, b: ModSet, m: Modifier)
        requires
            !a.has(m),
            !b.has(m),
            a.spec_insert(m) == b.spec_insert(m),
        ensures
            a == b,
    {
        match m {
            Modifier::Shift => {},
            Modifier::CapsLock => {},
            Modifier::Ctrl => {},
            Modifier::Alt => {},
            Modifier::NumLock => {},
            Modifier::Mod3 => {},
            Modifier::Super => {},
            Modifier::Mod5 => {},
        }
    }

    /// A set bounded by `u` plus a modifier it lacks is bounded by `u`.
    pub proof fn lemma_le_insert_absent(s: ModSet, u: ModSet, m: Modifier)
        requires
            s.le(u.spec_insert(m)),
            !s.has(m),
        ensures
            s.le(u),
    {
        match m {
            Modifier::Shift => {},
            Modifier::CapsLock => {},
            Modifier::Ctrl => {},
            Modifier::Alt => {},
            Modifier::NumLock => {},
            Modifier::Mod3 => {},
            Modifier::Super => {},
            Modifier::Mod5 => {},
        }
    }

    /// Removing a modifier from a set bounded by `u` plus that modifier
    /// leaves a set bounded by `u`.
    pub proof fn lemma_le_remove(s: ModSet, u: ModSet, m: Modifier)
        requires
            s.le(u.spec_insert(m)),
        ensures
            s.spec_remove(m).le(u),
    {
        match m {
            Modifier::Shift => {},
            Modifier::CapsLock => {},
            Modifier::Ctrl => {},
            Modifier::Alt => {},
            Modifier::NumLock => {},
            Modifier::Mod3 => {},
            Modifier::Super => {},
            Modifier::Mod5 => {},
        }
    }

    /// A subset that lacks a modifier stays a subset after the modifier is
    /// removed from the larger set.
    pub proof fn lemma_le_remove_mono(a: ModSet, s: ModSet, m: Modifier)
        requires
            a.le(s),
            !a.has(m),
        ensures
            a.le(s.spec_remove(m)),
    {
        match m {
            Modifier::Shift => {},
            Modifier::CapsLock => {},
            Modifier::Ctrl => {},
            Modifier::Alt => {},
            Modifier::NumLock => {},
            Modifier::Mod3 => {},
            Modifier::Super => {},
            Modifier::Mod5 => {},
        }
    }

    /// Removing and re-inserting a present modifier restores the set.
    pub proof fn lemma_remove_insert(s: ModSet, m: Modifier)
        requires
            s.has(m),
        ensures
            s.spec_remove(m).spec_insert(m) == s,
    {
        match m {
            Modifier::Shift => {},
            Modifier::CapsLock => {},
            Modifier::Ctrl => {},
            Modifier::Alt => {},
            Modifier::NumLock => {},
            Modifier::Mod3 => {},
            Modifier::Super => {},
            Modifier::Mod5 => {},
        }
    }

    /// Two sets with the same members are the same set.
    pub proof fn lemma_ext_equal(a: ModSet, b: ModSet)
        requires
            forall|m: Modifier| a.has(m) == b.has(m),
        ensures
            a == b,
    {
        assert(a.has(Modifier::Shift) == b.has(Modifier::Shift));
        assert(a.has(Modifier::CapsLock) == b.has(Modifier::CapsLock));
        assert(a.has(Modifier::Ctrl) == b.has(Modifier::Ctrl));
        assert(a.has(Modifier::Alt) == b.has(Modifier::Alt));
        assert(a.has(Modifier::NumLock) == b.has(Modifier::NumLock));
        assert(a.has(Modifier::Mod3) == b.has(Modifier::Mod3));
        assert(a.has(Modifier::Super) == b.has(Modifier::Super));
        assert(a.has(Modifier::Mod5) == b.has(Modifier::Mod5));
    }

    /// The number of members.
    pub open spec fn count(self) -> nat {
        (if self.shift { 1nat } else { 0 }) + (if self.capslock { 1nat } else { 0 })
            + (if self.ctrl { 1nat } else { 0 }) + (if self.alt { 1nat } else { 0 })
            + (if self.numlock { 1nat } else { 0 }) + (if self.mod3 { 1nat } else { 0 })
            + (if self.super_ { 1nat } else { 0 }) + (if self.mod5 { 1nat } else { 0 })
    }

    pub open spec fn spec_empty() -> ModSet {
        ModSet {
            shift: false,
            capslock: false,
            ctrl: false,
            alt: false,
            numlock: false,
            mod3: false,
            super_: false,
            mod5: false,
        }
    }

    pub fn empty() -> (r: ModSet)
        ensures
            r == ModSet::spec_empty(),
            forall|m: Modifier| !r.has(m),
    {
        ModSet {
            shift: false,
            capslock: false,
            ctrl: false,
            alt: false,
            numlock: false,
            mod3: false,
            super_: false,
            mod5: false,
        }
    }

    pub fn contains(&self, m: Modifier) -> (r: bool)
        ensures
            r == self.has(m),
    {
        match m {
            Modifier::Shift => self.shift,
            Modifier::CapsLock => self.capslock,
            Modifier::Ctrl => self.ctrl,
            Modifier::Alt => self.alt,
            Modifier::NumLock => self.numlock,
            Modifier::Mod3 => self.mod3,
            Modifier::Super => self.super_,
            Modifier::Mod5 => self.mod5,
        }
    }

    pub open spec fn spec_insert(self, m: Modifier) -> ModSet {
        match m {
            Modifier::Shift => ModSet { shift: true, ..self },
            Modifier::CapsLock => ModSet { capslock: true, ..self },
            Modifier::Ctrl => ModSet { ctrl: true, ..self },
            Modifier::Alt => ModSet { alt: true, ..self },
            Modifier::NumLock => ModSet { numlock: true, ..self },
            Modifier::Mod3 => ModSet { mod3: true, ..self },
            Modifier::Super => ModSet { super_: true, ..self },
            Modifier::Mod5 => ModSet { mod5: true, ..self },
        }
    }

    pub fn insert(&self, m: Modifier) -> (r: ModSet)
        ensures
            r == self.spec_insert(m),
            forall|m2: Modifier| r.has(m2) == (self.has(m2) || m2 == m),
    {
        let r = match m {
            Modifier::Shift => ModSet { shift: true, ..*self },
            Modifier::CapsLock => ModSet { capslock: true, ..*self },
            Modifier::Ctrl => ModSet { ctrl: true, ..*self },
            Modifier::Alt => ModSet { alt: true, ..*self },
            Modifier::NumLock => ModSet { numlock: true, ..*self },
            Modifier::Mod3 => ModSet { mod3: true, ..*self },
            Modifier::Super => ModSet { super_: true, ..*self },
            Modifier::Mod5 => ModSet { mod5: true, ..*self },
        };
        proof {
            assert forall|m2: Modifier| r.has(m2) == (self.has(m2) || m2 == m) by {
                match m2 {
                    Modifier::Shift => {},
                    Modifier::CapsLock => {},
                    Modifier::Ctrl => {},
                    Modifier::Alt => {},
                    Modifier::NumLock => {},
                    Modifier::Mod3 => {},
                    Modifier::Super => {},
                    Modifier::Mod5 => {},
                }
            }
        }
        r
    }

    pub open spec fn spec_union(self, other: ModSet) -> ModSet {
        ModSet {
            shift: self.shift || other.shift,
            capslock: self.capslock || other.capslock,
            ctrl: self.ctrl || other.ctrl,
            alt: self.alt || other.alt,
            numlock: self.numlock || other.numlock,
            mod3: self.mod3 || other.mod3,
            super_: self.super_ || other.super_,
            mod5: self.mod5 || other.mod5,
        }
    }

    pub fn union(&self, other: &ModSet) -> (r: ModSet)
        ensures
            r == self.spec_union(*other),
            forall|m: Modifier| r.has(m) == (self.has(m) || other.has(m)),
    {
        ModSet {
            shift: self.shift || other.shift,
            capslock: self.capslock || other.capslock,
            ctrl: self.ctrl || other.ctrl,
            alt: self.alt || other.alt,
            numlock: self.numlock || other.numlock,
            mod3: self.mod3 || other.mod3,
            super_: self.super_ || other.super_,
            mod5: self.mod5 || other.mod5,
        }
    }

    pub open spec fn spec_intersect(self, other: ModSet) -> ModSet {
        ModSet {
            shift: self.shift && other.shift,
            capslock: self.capslock && other.capslock,
            ctrl: self.ctrl && other.ctrl,
            alt: self.alt && other.alt,
            numlock: self.numlock && other.numlock,
            mod3: self.mod3 && other.mod3,
            super_: self.super_ && other.super_,
            mod5: self.mod5 && other.mod5,
        }
    }

    pub fn intersect(&self, other: &ModSet) -> (r: ModSet)
        ensures
            r == self.spec_intersect(*other),
            forall|m: Modifier| r.has(m) == (self.has(m) && other.has(m)),
    {
        ModSet {
            shift: self.shift && other.shift,
            capslock: self.capslock && other.capslock,
            ctrl: self.ctrl && other.ctrl,
            alt: self.alt && other.alt,
            numlock: self.numlock && other.numlock,
            mod3: self.mod3 && other.mod3,
            super_: self.super_ && other.super_,
            mod5: self.mod5 && other.mod5,
        }
    }

    pub open spec fn spec_difference(self, other: ModSet) -> ModSet {
        ModSet {
            shift: self.shift && !other.shift,
            capslock: self.capslock && !other.capslock,
            ctrl: self.ctrl && !other.ctrl,
            alt: self.alt && !other.alt,
            numlock: self.numlock && !other.numlock,
            mod3: self.mod3 && !other.mod3,
            super_: self.super_ && !other.super_,
            mod5: self.mod5 && !other.mod5,
        }
    }

    pub fn difference(&self, other: &ModSet) -> (r: ModSet)
        ensures
            r == self.spec_difference(*other),
            forall|m: Modifier| r.has(m) == (self.has(m) && !other.has(m)),
    {
        ModSet {
            shift: self.shift && !other.shift,
            capslock: self.capslock && !other.capslock,
            ctrl: self.ctrl && !other.ctrl,
            alt: self.alt && !other.alt,
            numlock: self.numlock && !other.numlock,
            mod3: self.mod3 && !other.mod3,
            super_: self.super_ && !other.super_,
            mod5: self.mod5 && !other.mod5,
        }
    }

    pub fn is_subset(&self, other: &ModSet) -> (r: bool)
        ensures
            r == self.le(*other),
    {
        (!self.shift || other.shift) && (!self.capslock || other.capslock) && (!self.ctrl
            || other.ctrl) && (!self.alt || other.alt) && (!self.numlock || other.numlock) && (
        !self.mod3 || other.mod3) && (!self.super_ || other.super_) && (!self.mod5 || other.mod5)
    }

    pub fn is_disjoint(&self, other: &ModSet) -> (r: bool)
        ensures
            r == self.disjoint(*other),
    {
        !(self.shift && other.shift) && !(self.capslock && other.capslock) && !(self.ctrl
            && other.ctrl) && !(self.alt && other.alt) && !(self.numlock && other.numlock) && !(
        self.mod3 && other.mod3) && !(self.super_ && other.super_) && !(self.mod5 && other.mod5)
    }

    pub open spec fn spec_remove(self, m: Modifier) -> ModSet {
        match m {
            Modifier::Shift => ModSet { shift: false, ..self },
            Modifier::CapsLock => ModSet { capslock: false, ..self },
            Modifier::Ctrl => ModSet { ctrl: false, ..self },
            Modifier::Alt => ModSet { alt: false, ..self },
            Modifier::NumLock => ModSet { numlock: false, ..self },
            Modifier::Mod3 => ModSet { mod3: false, ..self },
            Modifier::Super => ModSet { super_: false, ..self },
            Modifier::Mod5 => ModSet { mod5: false, ..self },
        }
    }

    /// The set encoded in the low eight bits of a wire-format state field.
    pub open spec fn spec_from_bits(state: u16) -> ModSet {
        ModSet {
            shift: state & 0x0001 != 0,
            capslock: state & 0x0002 != 0,
            ctrl: state & 0x0004 != 0,
            alt: state & 0x0008 != 0,
            numlock: state & 0x0010 != 0,
            mod3: state & 0x0020 != 0,
            super_: state & 0x0040 != 0,
            mod5: state & 0x0080 != 0,
        }
    }

    /// Reads a set out of the low eight bits of a wire-format state field;
    /// higher bits are discarded.
    pub fn from_bits_truncated(state: u16) -> (r: ModSet)
        ensures
            r == ModSet::spec_from_bits(state),
    {
        ModSet {
            shift: state & 0x0001 != 0,
            capslock: state & 0x0002 != 0,
            ctrl: state & 0x0004 != 0,
            alt: state & 0x0008 != 0,
            numlock: state & 0x0010 != 0,
            mod3: state & 0x0020 != 0,
            super_: state & 0x0040 != 0,
            mod5: state & 0x0080 != 0,
        }
    }

    /// The wire-format bit field for this set, one bit per modifier.
    pub open spec fn spec_bits(self) -> u8 {
        ((if self.shift { 0x01u8 } else { 0 }) | (if self.capslock { 0x02u8 } else { 0 })
            | (if self.ctrl { 0x04u8 } else { 0 }) | (if self.alt { 0x08u8 } else { 0 })
            | (if self.numlock { 0x10u8 } else { 0 }) | (if self.mod3 { 0x20u8 } else { 0 })
            | (if self.super_ { 0x40u8 } else { 0 }) | (if self.mod5 { 0x80u8 } else { 0 })) as u8
    }

    pub fn to_bits(&self) -> (r: u8)
        ensures
            r == self.spec_bits(),
    {
        (if self.shift { 0x01u8 } else { 0 }) | (if self.capslock { 0x02u8 } else { 0 })
            | (if self.ctrl { 0x04u8 } else { 0 }) | (if self.alt { 0x08u8 } else { 0 })
            | (if self.numlock { 0x10u8 } else { 0 }) | (if self.mod3 { 0x20u8 } else { 0 })
            | (if self.super_ { 0x40u8 } else { 0 }) | (if self.mod5 { 0x80u8 } else { 0 })
    }
}

/// Membership after inserting one modifier.
pub broadcast proof fn lemma_insert_has(s: ModSet, m: Modifier, m2: Modifier)
    ensures
        #[trigger] s.spec_insert(m).has(m2) == (s.has(m2) || m2 == m),
{
    match m {
        Modifier::Shift => {
            match m2 {
                Modifier::Shift => {},
                _ => {},
            }
        },
        _ => {
            match m2 {
                Modifier::Shift => {},
                Modifier::CapsLock => {},
                Modifier::Ctrl => {},
                Modifier::Alt => {},
                Modifier::NumLock => {},
                Modifier::Mod3 => {},
                Modifier::Super => {},
                Modifier::Mod5 => {},
            }
        },
    }
}

/// Membership after removing one modifier.
pub broadcast proof fn lemma_remove_has(s: ModSet, m: Modifier, m2: Modifier)
    ensures
        #[trigger] s.spec_remove(m).has(m2) == (s.has(m2) && m2 != m),
{
    match m2 {
        Modifier::Shift => {},
        Modifier::CapsLock => {},
        Modifier::Ctrl => {},
        Modifier::Alt => {},
        Modifier::NumLock => {},
        Modifier::Mod3 => {},
        Modifier::Super => {},
        Modifier::Mod5 => {},
    }
}

/// Membership in a union.
pub broadcast proof fn lemma_union_has(a: ModSet, b: ModSet, m: Modifier)
    ensures
        #[trigger] a.spec_union(b).has(m) == (a.has(m) || b.has(m)),
{
    match m {
        Modifier::Shift => {},
        Modifier::CapsLock => {},
        Modifier::Ctrl => {},
        Modifier::Alt => {},
        Modifier::NumLock => {},
        Modifier::Mod3 => {},
        Modifier::Super => {},
        Modifier::Mod5 => {},
    }
}

/// Membership in an intersection.
pub broadcast proof fn lemma_intersect_has(a: ModSet, b: ModSet, m: Modifier)
    ensures
        #[trigger] a.spec_intersect(b).has(m) == (a.has(m) && b.has(m)),
{
    match m {
        Modifier::Shift => {},
        Modifier::CapsLock => {},
        Modifier::Ctrl => {},
        Modifier::Alt => {},
        Modifier::NumLock => {},
        Modifier::Mod3 => {},
        Modifier::Super => {},
        Modifier::Mod5 => {},
    }
}

/// Membership in a difference.
pub broadcast proof fn lemma_difference_has(a: ModSet, b: ModSet, m: Modifier)
    ensures
        #[trigger] a.spec_difference(b).has(m) == (a.has(m) && !b.has(m)),
{
    match m {
        Modifier::Shift => {},
        Modifier::CapsLock => {},
        Modifier::Ctrl => {},
        Modifier::Alt => {},
        Modifier::NumLock => {},
        Modifier::Mod3 => {},
        Modifier::Super => {},
        Modifier::Mod5 => {},
    }
}

/// Inserting a fresh modifier grows the count by one.
pub broadcast proof fn lemma_insert_count(s: ModSet, m: Modifier)
    requires
        !s.has(m),
    ensures
        #[trigger] s.spec_insert(m).count() == s.count() + 1,
{
    match m {
        Modifier::Shift => {},
        Modifier::CapsLock => {},
        Modifier::Ctrl => {},
        Modifier::Alt => {},
        Modifier::NumLock => {},
        Modifier::Mod3 => {},
        Modifier::Super => {},
        Modifier::Mod5 => {},
    }
}

/// The empty set has no members.
pub broadcast proof fn lemma_empty_has(m: Modifier)
    ensures
        !(#[trigger] ModSet::spec_empty().has(m)),
{
    match m {
        Modifier::Shift => {},
        Modifier::CapsLock => {},
        Modifier::Ctrl => {},
        Modifier::Alt => {},
        Modifier::NumLock => {},
        Modifier::Mod3 => {},
        Modifier::Super => {},
        Modifier::Mod5 => {},
    }
}

/// The set laws that proofs about modifier sets lean on.
pub broadcast group group_mod_set_laws {
    lemma_empty_has,
    lemma_insert_has,
    lemma_remove_has,
    lemma_union_has,
    lemma_intersect_has,
    lemma_difference_has,
    lemma_insert_count,
}

/// Keycodes of the entries of `s` that carry keysym `sym`, in insertion order.
pub open spec fn keycodes_of_seq(s: Seq<(Keysym, Keycode)>, sym: Keysym) -> Seq<Keycode>
    decreases s.len(),
{
    if s.len() == 0 {
        Seq::empty()
    } else {
        let rest = keycodes_of_seq(s.drop_last(), sym);
        if s.last().0 == sym {
            rest.push(s.last().1)
        } else {
            rest
        }
    }
}

/// The value most recently stored in `s` under key `k`, if any.
pub open spec fn last_value_for_keycode<V>(s: Seq<(Keycode, V)>, k: Keycode) -> Option<V>
    decreases s.len(),
{
    if s.len() == 0 {
        None
    } else if s.last().0 == k {
        Some(s.last().1)
    } else {
        last_value_for_keycode(s.drop_last(), k)
    }
}

/// The keysym most recently stored in `s` under name `name`, if any.
pub open spec fn last_keysym_for_name(s: Seq<(String, Keysym)>, name: Seq<char>) -> Option<Keysym>
    decreases s.len(),
{
    if s.len() == 0 {
        None
    } else if s.last().0@ == name {
        Some(s.last().1)
    } else {
        last_keysym_for_name(s.drop_last(), name)
    }
}

/// Keycodes of the entries of `s` that belong to modifier `m`, in insertion
/// order.
pub open spec fn keycodes_of_modifier_seq(s: Seq<(Modifier, Keycode)>, m: Modifier) -> Seq<Keycode>
    decreases s.len(),
{
    if s.len() == 0 {
        Seq::empty()
    } else {
        let rest = keycodes_of_modifier_seq(s.drop_last(), m);
        if s.last().0 == m {
            rest.push(s.last().1)
        } else {
            rest
        }
    }
}

/// The layout's keysym/keycode tables, plus the table of human-readable
/// keysym names; built once from the server's current layout.
pub struct KeyboardMapping {
    sym_entries: Vec<(Keysym, Keycode)>,
    code_entries: Vec<(Keycode, Keysym)>,
    name_entries: Vec<(String, Keysym)>,
}

impl KeyboardMapping {
    /// Keycodes registered for `sym`, oldest first.
    pub closed spec fn spec_keycodes_of(self, sym: Keysym) -> Seq<Keycode> {
        keycodes_of_seq(self.sym_entries@, sym)
    }

    /// The keysym registered for `code`, if any; a later registration wins.
    pub closed spec fn spec_keysym_of(self, code: Keycode) -> Option<Keysym> {
        last_value_for_keycode(self.code_entries@, code)
    }

    /// The keysym registered under the name `name`, if any.
    pub closed spec fn spec_keysym_of_name(self, name: Seq<char>) -> Option<Keysym> {
        last_keysym_for_name(self.name_entries@, name)
    }

    pub fn new() -> (r: KeyboardMapping)
        ensures
            forall|sym: Keysym| r.spec_keycodes_of(sym) == Seq::<Keycode>::empty(),
            forall|code: Keycode| r.spec_keysym_of(code) is None,
            forall|name: Seq<char>| r.spec_keysym_of_name(name) is None,
    {
        KeyboardMapping { sym_entries: Vec::new(), code_entries: Vec::new(), name_entries: Vec::new() }
    }

    /// Registers that `keycode` produces `keysym`.
    pub fn insert(&mut self, keysym: Keysym, keycode: Keycode)
        ensures
            final(self).spec_keycodes_of(keysym) == old(self).spec_keycodes_of(keysym).push(
                keycode,
            ),
            forall|sym: Keysym|
                sym != keysym ==> final(self).spec_keycodes_of(sym) == old(self).spec_keycodes_of(
                    sym,
                ),
            final(self).spec_keysym_of(keycode) == Some(keysym),
            forall|code: Keycode|
                code != keycode ==> final(self).spec_keysym_of(code) == old(self).spec_keysym_of(
                    code,
                ),
            forall|name: Seq<char>|
                final(self).spec_keysym_of_name(name) == old(self).spec_keysym_of_name(name),
    {
        self.sym_entries.push((keysym, keycode));
        self.code_entries.push((keycode, keysym));
        proof {
            assert(self.sym_entries@.drop_last() =~= old(self).sym_entries@);
            assert(self.code_entries@.drop_last() =~= old(self).code_entries@);
        }
    }

    /// Registers the human-readable name of `keysym`.
    pub fn insert_name(&mut self, name: String, keysym: Keysym)
        ensures
            final(self).spec_keysym_of_name(name@) == Some(keysym),
            forall|n: Seq<char>|
                n != name@ ==> final(self).spec_keysym_of_name(n) == old(
                    self,
                ).spec_keysym_of_name(n),
            forall|sym: Keysym|
                final(self).spec_keycodes_of(sym) == old(self).spec_keycodes_of(sym),
            forall|code: Keycode| final(self).spec_keysym_of(code) == old(self).spec_keysym_of(code),
    {
        self.name_entries.push((name, keysym));
        proof {
            assert(self.name_entries@.drop_last() =~= old(self).name_entries@);
        }
    }

    /// All keycodes that produce `keysym`, oldest registration first.
    pub fn keysym_to_keycodes(&self, keysym: Keysym) -> (r: Vec<Keycode>)
        ensures
            r@ == self.spec_keycodes_of(keysym),
    {
        let mut r: Vec<Keycode> = Vec::new();
        let n = self.sym_entries.len();
        let mut i: usize = 0;
        while i < n
            invariant
                n == self.sym_entries.len(),
                i <= n,
                r@ == keycodes_of_seq(self.sym_entries@.take(i as int), keysym),
            decreases n - i,
        {
            proof {
                assert(self.sym_entries@.take(i + 1).drop_last() =~= self.sym_entries@.take(
                    i as int,
                ));
                assert(self.sym_entries@.take(i + 1).last() == self.sym_entries@[i as int]);
            }
            let entry = &self.sym_entries[i];
            if entry.0 == keysym {
                r.push(entry.1);
            }
            i = i + 1;
        }
        proof {
            assert(self.sym_entries@.take(n as int) =~= self.sym_entries@);
        }
        r
    }

    /// The keysym for `keycode`, if one was registered.
    pub fn keycode_to_keysym(&self, keycode: Keycode) -> (r: Option<Keysym>)
        ensures
            r == self.spec_keysym_of(keycode),
    {
        let mut j = self.code_entries.len();
        proof {
            assert(self.code_entries@.take(j as int) =~= self.code_entries@);
        }
        while j > 0
            invariant
                j <= self.code_entries.len(),
                last_value_for_keycode(self.code_entries@, keycode) == last_value_for_keycode(
                    self.code_entries@.take(j as int),
                    keycode,
                ),
            decreases j,
        {
            j = j - 1;
            proof {
                assert(self.code_entries@.take(j + 1).drop_last() =~= self.code_entries@.take(
                    j as int,
                ));
                assert(self.code_entries@.take(j + 1).last() == self.code_entries@[j as int]);
            }
            let entry = &self.code_entries[j];
            if entry.0 == keycode {
                return Some(entry.1);
            }
        }
        None
    }

    /// The keysym registered under `name`, if any.
    pub fn name_to_keysym(&self, name: &String) -> (r: Option<Keysym>)
        ensures
            r == self.spec_keysym_of_name(name@),
    {
        let mut j = self.name_entries.len();
        proof {
            assert(self.name_entries@.take(j as int) =~= self.name_entries@);
        }
        while j > 0
            invariant
                j <= self.name_entries.len(),
                last_keysym_for_name(self.name_entries@, name@) == last_keysym_for_name(
                    self.name_entries@.take(j as int),
                    name@,
                ),
            decreases j,
        {
            j = j - 1;
            proof {
                assert(self.name_entries@.take(j + 1).drop_last() =~= self.name_entries@.take(
                    j as int,
                ));
                assert(self.name_entries@.take(j + 1).last() == self.name_entries@[j as int]);
            }
            let entry = &self.name_entries[j];
            if entry.0 == *name {
                return Some(entry.1);
            }
        }
        None
    }
}

/// The layout's keycode/modifier tables: which physical key triggers which
/// named modifier.
pub struct ModifierMapping {
    mod_of_code: Vec<(Keycode, Modifier)>,
    codes_of_mod: Vec<(Modifier, Keycode)>,
}

impl ModifierMapping {
    /// The modifier owned by `code`, if any; a later registration wins.
    pub closed spec fn spec_modifier_of(self, code: Keycode) -> Option<Modifier> {
        last_value_for_keycode(self.mod_of_code@, code)
    }

    /// Keycodes registered as triggers of `m`, oldest first.
    pub closed spec fn spec_keycodes_of(self, m: Modifier) -> Seq<Keycode> {
        keycodes_of_modifier_seq(self.codes_of_mod@, m)
    }

    pub fn new() -> (r: ModifierMapping)
        ensures
            forall|code: Keycode| r.spec_modifier_of(code) is None,
            forall|m: Modifier| r.spec_keycodes_of(m) == Seq::<Keycode>::empty(),
    {
        ModifierMapping { mod_of_code: Vec::new(), codes_of_mod: Vec::new() }
    }

    /// Registers that `keycode` triggers `modifier`.
    pub fn insert(&mut self, keycode: Keycode, modifier: Modifier)
        ensures
            final(self).spec_modifier_of(keycode) == Some(modifier),
            forall|code: Keycode|
                code != keycode ==> final(self).spec_modifier_of(code) == old(
                    self,
                ).spec_modifier_of(code),
            final(self).spec_keycodes_of(modifier) == old(self).spec_keycodes_of(modifier).push(
                keycode,
            ),
            forall|m: Modifier|
                m != modifier ==> final(self).spec_keycodes_of(m) == old(self).spec_keycodes_of(m),
    {
        self.mod_of_code.push((keycode, modifier));
        self.codes_of_mod.push((modifier, keycode));
        proof {
            assert(self.mod_of_code@.drop_last() =~= old(self).mod_of_code@);
            assert(self.codes_of_mod@.drop_last() =~= old(self).codes_of_mod@);
        }
    }

    /// The modifier triggered by `keycode`, if any.
    pub fn keycode_to_modifier(&self, keycode: Keycode) -> (r: Option<Modifier>)
        ensures
            r == self.spec_modifier_of(keycode),
    {
        let mut j = self.mod_of_code.len();
        proof {
            assert(self.mod_of_code@.take(j as int) =~= self.mod_of_code@);
        }
        while j > 0
            invariant
                j <= self.mod_of_code.len(),
                last_value_for_keycode(self.mod_of_code@, keycode) == last_value_for_keycode(
                    self.mod_of_code@.take(j as int),
                    keycode,
                ),
            decreases j,
        {
            j = j - 1;
            proof {
                assert(self.mod_of_code@.take(j + 1).drop_last() =~= self.mod_of_code@.take(
                    j as int,
                ));
                assert(self.mod_of_code@.take(j + 1).last() == self.mod_of_code@[j as int]);
            }
            let entry = &self.mod_of_code[j];
            if entry.0 == keycode {
                return Some(entry.1);
            }
        }
        None
    }

    /// All keycodes that trigger `modifier`, oldest registration first.
    pub fn modifier_to_keycodes(&self, modifier: Modifier) -> (r: Vec<Keycode>)
        ensures
            r@ == self.spec_keycodes_of(modifier),
    {
        let mut r: Vec<Keycode> = Vec::new();
        let n = self.codes_of_mod.len();
        let mut i: usize = 0;
        while i < n
            invariant
                n == self.codes_of_mod.len(),
                i <= n,
                r@ == keycodes_of_modifier_seq(self.codes_of_mod@.take(i as int), modifier),
            decreases n - i,
        {
            proof {
                assert(self.codes_of_mod@.take(i + 1).drop_last() =~= self.codes_of_mod@.take(
                    i as int,
                ));
                assert(self.codes_of_mod@.take(i + 1).last() == self.codes_of_mod@[i as int]);
            }
            let entry = &self.codes_of_mod[i];
            if entry.0 == modifier {
                r.push(entry.1);
            }
            i = i + 1;
        }
        proof {
            assert(self.codes_of_mod@.take(n as int) =~= self.codes_of_mod@);
        }
        r
    }
}

} // verus!
