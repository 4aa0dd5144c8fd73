//! Semantic keys and the keycode-to-symbol translation table.
//!
//! A raw key event carries a keycode and a modifier bitmask. The symbol
//! table, populated once from the display server's keyboard layout, maps
//! each keycode to its ordered candidate symbol names. Translating forward
//! pairs a keycode's first candidate symbol with the raw modifiers;
//! translating backward collects every keycode whose candidate list holds
//! a given symbol, so that all physical keys producing that symbol can be
//! grabbed.

use vstd::prelude::*;

use vstd::arithmetic::div_mod::{lemma_fundamental_div_mod, lemma_mod_bound};
use vstd::arithmetic::mul::{
    lemma_mul_inequality,
    lemma_mul_is_commutative,
    lemma_mul_is_distributive_add,
};

verus! {

/// No modifier held.
pub const NONE: u32 = 0;

/// The shift modifier bit of the protocol's modifier bitmask.
pub const SHIFT: u32 = 1;

/// The control modifier bit.
pub const CONTROL: u32 = 4;

/// The first mod group, usually the alt key.
pub const ALT: u32 = 8;

/// The fourth mod group, usually the super (meta) key.
pub const META: u32 = 64;

/// Meta and shift held together.
pub const META_SHIFT: u32 = META | SHIFT;

/// A semantic key: a symbol name paired with an exact modifier bitmask.
/// Two keys are the same exactly when both parts agree; no normalisation
/// of equivalent modifier combinations is performed.
pub struct Key {
    pub code: String,
    pub mods: u32,
}

impl Key {
    /// Whether two keys name the same symbol under the same modifiers.
    pub open spec fn spec_eq(self, other: Key) -> bool {
        self.code@ == other.code@ && self.mods == other.mods
    }

    /// Builds a key from a modifier bitmask and a symbol name.
    pub fn new(mods: u32, code: &str) -> (r: Key)
        ensures
            r.code@ == code@,
            r.mods == mods,
    {
        Key { code: String::from_str(code), mods }
    }

    /// Compares two keys for exact symbol-and-modifier equality.
    pub fn same(&self, other: &Key) -> (r: bool)
        ensures
            r == self.spec_eq(*other),
    {
        self.mods == other.mods && self.code == other.code
    }

    /// Every keycode whose candidate symbol list holds this key's symbol,
    /// in table order. A keyboard may produce one symbol from several
    /// physical keycodes, so installing a grab needs all of them.
    pub fn xcode(&self, table: &SymTable) -> (r: Vec<u8>)
        ensures
            r@ == codes_with_sym(table.entries@, self.code@),
    {
        let mut result: Vec<u8> = Vec::new();
        let mut i: usize = 0;
        while i < table.entries.len()
            invariant
                i <= table.entries@.len(),
                result@ == codes_with_sym(table.entries@.subrange(0, i as int), self.code@),
            decreases table.entries@.len() - i,
        {
            let entry = &table.entries[i];
            if entry.holds_sym(&self.code) {
                result.push(entry.keycode);
            }
            proof {
                assert(table.entries@.subrange(0, i + 1).drop_last()
                    =~= table.entries@.subrange(0, i as int));
                assert(table.entries@.subrange(0, i + 1).last() == table.entries@[i as int]);
            }
            i = i + 1;
        }
        proof {
            assert(table.entries@.subrange(0, table.entries@.len() as int) =~= table.entries@);
        }
        result
    }
}

/// The keycodes of `entries` whose candidate lists hold `sym`, in order.
pub open spec fn codes_with_sym(entries: Seq<SymEntry>, sym: Seq<char>) -> Seq<u8>
    decreases entries.len(),
{
    if entries.len() == 0 {
        Seq::empty()
    } else if entries.last().syms_view().contains(sym) {
        codes_with_sym(entries.drop_last(), sym).push(entries.last().keycode)
    } else {
        codes_with_sym(entries.drop_last(), sym)
    }
}

/// One keycode of the symbol table with its ordered candidate symbols.
pub struct SymEntry {
    pub keycode: u8,
    pub syms: Vec<String>,
}

/// A list of names as sequences of characters.
pub open spec fn names_view(names: Seq<String>) -> Seq<Seq<char>> {
    names.map_values(|s: String| s@)
}

impl SymEntry {
    /// The candidate symbols as sequences of characters.
    pub open spec fn syms_view(self) -> Seq<Seq<char>> {
        names_view(self.syms@)
    }

    /// Whether `sym` occurs among this entry's candidate symbols.
    pub fn holds_sym(&self, sym: &String) -> (r: bool)
        ensures
            r == self.syms_view().contains(sym@),
    {
        let mut j: usize = 0;
        while j < self.syms.len()
            invariant
                j <= self.syms@.len(),
                forall|k: int| 0 <= k < j ==> self.syms@[k]@ != sym@,
            decreases self.syms@.len() - j,
        {
            if self.syms[j] == *sym {
                proof {
                    assert(self.syms_view()[j as int] == sym@);
                }
                return true;
            }
            j = j + 1;
        }
        proof {
            assert(forall|k: int| 0 <= k < self.syms_view().len()
                ==> self.syms_view()[k] != sym@);
        }
        false
    }
}

/// The keycode-to-symbol-names table, read once from the display server's
/// keyboard layout and immutable afterwards.
pub struct SymTable {
    pub entries: Vec<SymEntry>,
}

impl SymTable {
    /// Each keycode appears at most once.
    pub open spec fn wf(self) -> bool {
        forall|i: int, j: int|
            0 <= i < j < self.entries@.len()
                ==> self.entries@[i].keycode != self.entries@[j].keycode
    }

    /// Whether some entry carries this keycode.
    pub open spec fn has_code(self, keycode: u8) -> bool {
        exists|i: int| 0 <= i < self.entries@.len() && self.entries@[i].keycode == keycode
    }

    /// The candidate symbols of the entry with this keycode
    /// (arbitrary when no entry has it).
    pub open spec fn row_of(self, keycode: u8) -> Seq<Seq<char>> {
        let i = choose|i: int|
            0 <= i < self.entries@.len() && self.entries@[i].keycode == keycode;
        self.entries@[i].syms_view()
    }

    /// The first candidate symbol of a keycode: what forward translation
    /// yields. Nothing when the keycode is unmapped or has no candidates.
    pub open spec fn first_sym(self, keycode: u8) -> Option<Seq<char>> {
        if self.has_code(keycode) && self.row_of(keycode).len() > 0 {
            Some(self.row_of(keycode)[0])
        } else {
            None
        }
    }

    /// An empty table.
    pub fn empty() -> (r: SymTable)
        ensures
            r.entries@.len() == 0,
            r.wf(),
    {
        SymTable { entries: Vec::new() }
    }

    /// Translates a raw keycode to its first candidate symbol name.
    /// An unmapped keycode yields nothing and the caller drops the event.
    pub fn translate(&self, keycode: u8) -> (r: Option<String>)
        requires
            self.wf(),
        ensures
            match r {
                Some(s) => self.first_sym(keycode) == Some(s@),
                None => self.first_sym(keycode) is None,
            },
    {
        let mut i: usize = 0;
        while i < self.entries.len()
            invariant
                self.wf(),
                i <= self.entries@.len(),
                forall|k: int| 0 <= k < i ==> self.entries@[k].keycode != keycode,
            decreases self.entries@.len() - i,
        {
            let entry = &self.entries[i];
            if entry.keycode == keycode {
                if entry.syms.len() > 0 {
                    let s = entry.syms[0].clone();
                    proof {
                        assert(self.has_code(keycode));
                        let w = choose|w: int|
                            0 <= w < self.entries@.len() && self.entries@[w].keycode == keycode;
                        assert(w == i);
                        assert(self.row_of(keycode)[0] == s@);
                    }
                    return Some(s);
                } else {
                    proof {
                        assert(self.has_code(keycode));
                        let w = choose|w: int|
                            0 <= w < self.entries@.len() && self.entries@[w].keycode == keycode;
                        assert(w == i);
                    }
                    return None;
                }
            }
            i = i + 1;
        }
        proof {
            assert(!self.has_code(keycode));
        }
        None
    }
}

/// The candidate symbols of one keycode row of the raw keyboard mapping:
/// the names at the `count` columns from `base` whose keysym is not zero,
/// in column order.
pub open spec fn row_syms(
    keysyms: Seq<u32>,
    names: Seq<Seq<char>>,
    base: int,
    count: int,
) -> Seq<Seq<char>>
    decreases count,
{
    if count <= 0 {
        Seq::empty()
    } else if keysyms[base + count - 1] != 0 {
        row_syms(keysyms, names, base, count - 1).push(names[base + count - 1])
    } else {
        row_syms(keysyms, names, base, count - 1)
    }
}

/// Builds the symbol table from the raw keyboard mapping: a flat array of
/// keysyms, `keysyms_per_keycode` per keycode, for the keycodes from
/// `start` on, with `names[i]` naming `keysyms[i]`. Zero keysyms are
/// gaps and contribute no candidate.
pub fn build_symbol_table(
    start: u8,
    keysyms_per_keycode: usize,
    keysyms: &Vec<u32>,
    names: &Vec<String>,
) -> (r: SymTable)
    requires
        keysyms_per_keycode >= 1,
        names@.len() == keysyms@.len(),
        start + keysyms@.len() as int / keysyms_per_keycode as int <= 256,
    ensures
        r.wf(),
        r.entries@.len() == keysyms@.len() as int / keysyms_per_keycode as int,
        forall|k: int|
            0 <= k < r.entries@.len() ==> {
                &&& r.entries@[k].keycode == start + k
                &&& r.entries@[k].syms_view() == row_syms(
                    keysyms@,
                    names_view(names@),
                    k * keysyms_per_keycode,
                    keysyms_per_keycode as int,
                )
            },
{
    let ghost kv = keysyms@;
    let ghost nv = names_view(names@);
    let total = keysyms.len();
    let per = keysyms_per_keycode;
    let count = total / per;
    proof {
        lemma_fundamental_div_mod(total as int, per as int);
        lemma_mod_bound(total as int, per as int);
        lemma_mul_is_commutative(per as int, count as int);
        assert(count * per <= total);
    }
    let mut entries: Vec<SymEntry> = Vec::new();
    let mut kc: usize = 0;
    let mut base: usize = 0;
    while kc < count
        invariant
            per == keysyms_per_keycode,
            per >= 1,
            nv == names_view(names@),
            kv == keysyms@,
            nv.len() == kv.len(),
            total == kv.len(),
            count == total as int / per as int,
            start + count <= 256,
            count * per <= total,
            kc <= count,
            base == kc * per,
            entries@.len() == kc,
            forall|k: int|
                0 <= k < kc ==> {
                    &&& entries@[k].keycode == start + k
                    &&& entries@[k].syms_view() == row_syms(kv, nv, k * per, per as int)
                },
        decreases count - kc,
    {
        proof {
            lemma_mul_inequality(kc as int + 1, count as int, per as int);
            lemma_mul_is_distributive_add(per as int, kc as int, 1);
            lemma_mul_is_commutative(per as int, kc as int);
            lemma_mul_is_commutative(per as int, kc as int + 1);
            assert(base + per <= total);
        }
        let mut syms: Vec<String> = Vec::new();
        let mut j: usize = 0;
        while j < per
            invariant
                per >= 1,
                nv == names_view(names@),
                kv == keysyms@,
                nv.len() == kv.len(),
                total == kv.len(),
                j <= per,
                base + per <= total,
                names_view(syms@) == row_syms(kv, nv, base as int, j as int),
            decreases per - j,
        {
            let idx = base + j;
            if keysyms[idx] != 0 {
                let ghost before = syms@;
                syms.push(names[idx].clone());
                proof {
                    assert(names_view(syms@) =~= names_view(before).push(nv[idx as int]));
                }
            }
            proof {
                assert(names_view(syms@) == row_syms(kv, nv, base as int, j as int + 1));
            }
            j = j + 1;
        }
        let entry = SymEntry { keycode: start + (kc as u8), syms };
        proof {
            assert(entry.syms_view() == row_syms(kv, nv, kc as int * per, per as int));
        }
        entries.push(entry);
        kc = kc + 1;
        base = base + per;
    }
    let r = SymTable { entries };
    proof {
        assert forall|i: int, j2: int|
            0 <= i < j2 < r.entries@.len() implies r.entries@[i].keycode
            != r.entries@[j2].keycode by {
            assert(r.entries@[i].keycode == start + i);
            assert(r.entries@[j2].keycode == start + j2);
        }
    }
    r
}

} // verus!
