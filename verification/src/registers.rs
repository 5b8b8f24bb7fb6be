//! Vim-style named registers.

use std::collections::HashMap;
use vstd::prelude::*;

verus! {

broadcast use vstd::std_specs::hash::group_hash_axioms;

/// How a register's text was captured.
#[derive(Clone, Copy, Debug, PartialEq, Eq, Structural)]
pub enum MotionType {
    Char,
    Line,
    Block,
}

impl Default for MotionType {
    fn default() -> (r: Self)
        ensures
            r == MotionType::Char,
    {
        MotionType::Char
    }
}

/// The content of one register.
#[derive(Debug)]
pub struct RegisterValue {
    pub text: String,
    pub kind: MotionType,
}

impl Clone for RegisterValue {
    fn clone(&self) -> (r: Self)
        ensures
            r == *self,
    {
        RegisterValue { text: self.text.clone(), kind: self.kind }
    }
}

impl RegisterValue {
    pub fn new(text: String, kind: MotionType) -> (r: Self)
        ensures
            r.text == text,
            r.kind == kind,
    {
        RegisterValue { text, kind }
    }
}

pub open spec fn is_ascii_upper(c: char) -> bool {
    'A' <= c && c <= 'Z'
}

/// The store key of a register name: uppercase ASCII letters share the
/// slot of their lowercase counterpart.
pub open spec fn register_key(name: char) -> u32 {
    if is_ascii_upper(name) {
        ((name as u32) + 32) as u32
    } else {
        name as u32
    }
}

fn key_of(name: char) -> (k: u32)
    ensures
        k == register_key(name),
{
    if 'A' <= name && name <= 'Z' {
        (name as u32) + 32
    } else {
        name as u32
    }
}

/// Vim-style named register store.
///
/// Uppercase names (A-Z) alias their lowercase counterpart: `set` appends to
/// it and `get` reads it. The unnamed register `"` is the default; `yank`
/// always writes it in addition to any named register.
#[derive(Debug)]
pub struct Registers {
    store: HashMap<u32, RegisterValue>,
}

impl Registers {
    pub const UNNAMED: char = '"';

    /// The registers, by key.
    pub closed spec fn view(&self) -> Map<u32, RegisterValue> {
        self.store@
    }

    /// The value register `name` reads.
    pub open spec fn lookup(&self, name: char) -> Option<RegisterValue> {
        lookup_in(self@, name)
    }

    /// The store after writing `value` into register `name`: an uppercase
    /// name appends the text to an existing entry (keeping its kind).
    pub open spec fn set_spec(before: Map<u32, RegisterValue>, after: Map<u32, RegisterValue>, name: char, value: RegisterValue) -> bool {
        let k = register_key(name);
        if is_ascii_upper(name) && before.contains_key(k) {
            &&& after.dom() == before.dom()
            &&& after[k].text@ == before[k].text@ + value.text@
            &&& after[k].kind == before[k].kind
            &&& forall|j: u32| j != k && before.contains_key(j) ==> after[j] == before[j]
        } else {
            after == before.insert(k, value)
        }
    }

    pub fn new() -> (r: Self)
        ensures
            r@ == Map::<u32, RegisterValue>::empty(),
    {
        Registers { store: HashMap::new() }
    }

    /// Write `value` into register `name`.
    pub fn set(&mut self, name: char, value: RegisterValue)
        ensures
            Self::set_spec(old(self)@, final(self)@, name, value),
    {
        let key = key_of(name);
        if 'A' <= name && name <= 'Z' {
            let existing = match self.store.get(&key) {
                Some(e) => Some(e.clone()),
                None => None,
            };
            match existing {
                Some(e) => {
                    let mut text = e.text;
                    text.append(value.text.as_str());
                    self.store.insert(key, RegisterValue { text, kind: e.kind });
                    assert(self@.dom() =~= old(self)@.dom());
                },
                None => {
                    self.store.insert(key, value);
                },
            }
        } else {
            self.store.insert(key, value);
        }
    }

    /// Read register `name`; uppercase names read their lowercase counterpart.
    pub fn get(&self, name: char) -> (r: Option<&RegisterValue>)
        ensures
            match r {
                Some(v) => self.lookup(name) == Some(*v),
                None => self.lookup(name) is None,
            },
    {
        let key = key_of(name);
        self.store.get(&key)
    }

    /// Yank `value`: write it to `name` (if any) and to the unnamed register,
    /// which then holds the named register's final content.
    pub fn yank(&mut self, name: Option<char>, value: RegisterValue)
        ensures
            match name {
                Some(n) => {
                    let k = register_key(n);
                    exists|mid: Map<u32, RegisterValue>|
                        Self::set_spec(old(self)@, mid, n, value) && final(self)@ == mid.insert(
                            register_key(Self::UNNAMED),
                            mid[k],
                        )
                },
                None => final(self)@ == old(self)@.insert(register_key(Self::UNNAMED), value),
            },
    {
        match name {
            Some(n) => {
                self.set(n, value);
                let ghost mid = self@;
                let key = key_of(n);
                let shadowed = match self.store.get(&key) {
                    Some(v) => v.clone(),
                    None => RegisterValue { text: String::new(), kind: MotionType::Char },
                };
                assert(mid.contains_key(key));
                self.store.insert(key_of(Self::UNNAMED), shadowed);
                assert(final(self)@ == mid.insert(register_key(Self::UNNAMED), mid[key]));
            },
            None => {
                self.store.insert(key_of(Self::UNNAMED), value);
            },
        }
    }
}

/// What register `name` reads in the store `m`.
pub open spec fn lookup_in(m: Map<u32, RegisterValue>, name: char) -> Option<RegisterValue> {
    if m.contains_key(register_key(name)) {
        Some(m[register_key(name)])
    } else {
        None
    }
}

/// A register reads back what was last written into it; an uppercase name
/// appends to the text its lowercase register already held.
pub proof fn lemma_get_after_set(
    before: Map<u32, RegisterValue>,
    after: Map<u32, RegisterValue>,
    name: char,
    value: RegisterValue,
)
    requires
        Registers::set_spec(before, after, name, value),
    ensures
        lookup_in(after, name) matches Some(v) && v.text@ == if is_ascii_upper(name) && before.contains_key(
            register_key(name),
        ) {
            before[register_key(name)].text@ + value.text@
        } else {
            value.text@
        },
{
}

/// Writing a register leaves every register of another key as it was.
pub proof fn lemma_set_keeps_others(
    before: Map<u32, RegisterValue>,
    after: Map<u32, RegisterValue>,
    name: char,
    value: RegisterValue,
    other: char,
)
    requires
        Registers::set_spec(before, after, name, value),
        register_key(other) != register_key(name),
    ensures
        lookup_in(after, other) == lookup_in(before, other),
{
}

/// An uppercase name reads the register of its lowercase letter.
pub proof fn lemma_uppercase_reads_lowercase(m: Map<u32, RegisterValue>, lower: char)
    requires
        'a' <= lower && lower <= 'z',
    ensures
        lookup_in(m, (((lower as u32) - 32) as char)) == lookup_in(m, lower),
{
    let upper = ((lower as u32) - 32) as char;
    assert(is_ascii_upper(upper));
    assert(register_key(upper) == lower as u32);
}

/// After a yank into a named register, the unnamed register holds the same
/// value as the named one.
pub proof fn lemma_yank_mirrors_unnamed(
    before: Map<u32, RegisterValue>,
    mid: Map<u32, RegisterValue>,
    n: char,
    value: RegisterValue,
)
    requires
        Registers::set_spec(before, mid, n, value),
    ensures
        lookup_in(mid.insert(register_key(Registers::UNNAMED), mid[register_key(n)]), Registers::UNNAMED)
            == Some(mid[register_key(n)]),
        lookup_in(mid.insert(register_key(Registers::UNNAMED), mid[register_key(n)]), n) == Some(
            mid[register_key(n)],
        ),
{
    assert(mid.contains_key(register_key(n)));
}

} // verus!
