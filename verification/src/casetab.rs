//! Case tables: char tables whose purpose is `case-table`, mapping each
//! character to its lower-case form, with three extra slots for the
//! upcase, canonicalize and equivalences tables.
use vstd::prelude::*;

use crate::chartab::{
    ascii_value, char_table_get, char_table_index, char_table_word, lemma_word_decode, CharLookup, CharTables,
    LispCharTableRef,
};
use crate::error::{LispError, TypePredicate};
use crate::heap::{LispHeap, MAX_OBJECTS};
use crate::tag::{fixnum_word, LispObject};

verus! {

/// A char table known to be a case table.
pub struct LispCaseTable(LispCharTableRef);

/// Whether a word is `nil` or refers to a char table of the store.
pub open spec fn nil_or_table(tabs: &CharTables, o: LispObject) -> bool {
    o == LispObject(0) || char_table_index(tabs.view().len() as int, o) is Some
}

/// Whether a word refers to a char table of the store.
pub open spec fn is_table(tabs: &CharTables, o: LispObject) -> bool {
    char_table_index(tabs.view().len() as int, o) is Some
}

/// What makes the char table number `t` a case table: its purpose is
/// `case-table`, its upcase slot is `nil` or a char table, and either its
/// canonicalize and equivalences slots are both `nil`, or canonicalize is
/// a char table and equivalences is `nil` or a char table.
pub open spec fn is_case_table(tabs: &CharTables, t: int) -> bool {
    let tab = tabs.view()[t];
    let up = tab.extras@[0];
    let canon = tab.extras@[1];
    let eqv = tab.extras@[2];
    &&& tab.purpose == tabs.case_table_sym()
    &&& nil_or_table(tabs, up)
    &&& ((canon == LispObject(0) && eqv == LispObject(0)) || (is_table(tabs, canon) && nil_or_table(tabs, eqv)))
}

impl LispCaseTable {
    /// The char table of this case table.
    pub closed spec fn table(&self) -> LispCharTableRef {
        self.0
    }

    /// Views a char table as a case table.
    pub fn from_char_table(table: LispCharTableRef) -> (r: Self)
        ensures
            r.table() == table,
    {
        Self(table)
    }

    /// The upcase, canonicalize and equivalences slots.
    pub fn extras(&self, tabs: &CharTables) -> (r: (LispObject, LispObject, LispObject))
        requires
            tabs.wf(),
            tabs.has(self.table()),
            tabs.view()[self.table().index()].extras@.len() >= 3,
        ensures
            r.0 == tabs.view()[self.table().index()].extras@[0],
            r.1 == tabs.view()[self.table().index()].extras@[1],
            r.2 == tabs.view()[self.table().index()].extras@[2],
    {
        let extras = tabs.extras_of(self.0);
        (extras[0], extras[1], extras[2])
    }

    /// Stores VALUE in the extra slot IDX (0 to 2).
    pub fn set_extras(&mut self, tabs: &mut CharTables, idx: isize, value: LispObject)
        requires
            0 <= idx < 3,
            old(tabs).wf(),
            old(tabs).has(old(self).table()),
            old(tabs).view()[old(self).table().index()].extras@.len() >= 3,
        ensures
            final(self).table() == old(self).table(),
            final(tabs).wf(),
            final(tabs).property_table_sym() == old(tabs).property_table_sym(),
            final(tabs).case_table_sym() == old(tabs).case_table_sym(),
            final(tabs).view().len() == old(tabs).view().len(),
            forall|u: int|
                0 <= u < old(tabs).view().len() && u != old(self).table().index() ==> #[trigger] final(tabs).view()[u]
                    == old(tabs).view()[u],
            final(tabs).view()[old(self).table().index()].extras@ == old(tabs).view()[old(
                self,
            ).table().index()].extras@.update(idx as int, value),
            final(tabs).view()[old(self).table().index()].purpose == old(tabs).view()[old(
                self,
            ).table().index()].purpose,
            final(tabs).view()[old(self).table().index()].parent == old(tabs).view()[old(
                self,
            ).table().index()].parent,
            final(tabs).view()[old(self).table().index()].defalt == old(tabs).view()[old(
                self,
            ).table().index()].defalt,
            final(tabs).view()[old(self).table().index()].ascii == old(tabs).view()[old(
                self,
            ).table().index()].ascii,
            final(tabs).view()[old(self).table().index()].contents == old(tabs).view()[old(
                self,
            ).table().index()].contents,
    {
        tabs.set_extra(self.0, idx as usize, value);
    }

    /// The value of the character IDX in the case table.
    pub fn get(&self, tabs: &CharTables, h: &LispHeap, idx: isize) -> (r: Result<CharLookup, LispError>)
        requires
            tabs.wf(),
            tabs.has(self.table()),
            h.wf(),
            0 <= idx,
        ensures
            r == char_table_get(tabs.view(), h, self.table().index(), idx as int, tabs.property_table_sym()),
    {
        self.0.get(tabs, h, idx)
    }

    /// The case table for a word: a char table that `case_table_p`
    /// accepts, else `wrong-type-argument case-table-p`.
    pub fn from_object(tabs: &CharTables, obj: LispObject) -> (r: Result<LispCaseTable, LispError>)
        requires
            tabs.wf(),
        ensures
            r is Ok == (is_table(tabs, obj) && is_case_table(
                tabs,
                char_table_index(tabs.view().len() as int, obj).unwrap() as int,
            )),
            r matches Ok(c) ==> char_table_index(tabs.view().len() as int, obj) == Some(c.table().index() as nat),
            r is Err ==> r == Err::<LispCaseTable, LispError>(LispError::WrongType(TypePredicate::CaseTableP, obj)),
    {
        let table = tabs.as_char_table(obj);
        if !case_table_p(tabs, table) {
            return Err(LispError::WrongType(TypePredicate::CaseTableP, obj));
        }
        match table {
            Some(t) => Ok(LispCaseTable(t)),
            None => Err(LispError::WrongType(TypePredicate::CaseTableP, obj)),
        }
    }

    /// The word of the case table's char table.
    pub fn as_obj(&self, tabs: &CharTables) -> (o: LispObject)
        requires
            tabs.wf(),
            tabs.has(self.table()),
        ensures
            char_table_index(tabs.view().len() as int, o) == Some(self.table().index() as nat),
    {
        proof {
            crate::chartab::lemma_word_decode(tabs.view().len() as int, self.table().index());
        }
        self.0.as_obj()
    }
}

/// The ASCII lower-case form of the code `c`: 'A' to 'Z' become 'a' to
/// 'z', the other codes stay.
pub open spec fn ascii_downcase(c: int) -> int {
    if 0x41 <= c <= 0x5a {
        c + 32
    } else {
        c
    }
}

/// The ASCII upper-case form of the code `c`: 'a' to 'z' become 'A' to
/// 'Z', the other codes stay.
pub open spec fn ascii_upcase(c: int) -> int {
    if 0x61 <= c <= 0x7a {
        c - 32
    } else {
        c
    }
}

/// The code `c` with its ASCII case swapped.
pub open spec fn ascii_swapcase(c: int) -> int {
    if 0x41 <= c <= 0x5a {
        c + 32
    } else if 0x61 <= c <= 0x7a {
        c - 32
    } else {
        c
    }
}

/// The three ASCII case mappings that the standard case table is built
/// from.
#[derive(PartialEq, Eq, Structural, Clone, Copy, Debug)]
pub enum AsciiCaseMap {
    Down,
    Up,
    Swap,
}

/// The image of the code `c` under the mapping `m`.
pub open spec fn ascii_case_map(m: AsciiCaseMap, c: int) -> int {
    match m {
        AsciiCaseMap::Down => ascii_downcase(c),
        AsciiCaseMap::Up => ascii_upcase(c),
        AsciiCaseMap::Swap => ascii_swapcase(c),
    }
}

/// The image of the code C (below 128) under the mapping M.
fn map_ascii_code(m: AsciiCaseMap, c: i64) -> (r: i64)
    requires
        0 <= c < 128,
    ensures
        r == ascii_case_map(m, c as int),
        0 <= r < 128,
{
    match m {
        AsciiCaseMap::Down => if 0x41 <= c && c <= 0x5a {
            c + 32
        } else {
            c
        },
        AsciiCaseMap::Up => if 0x61 <= c && c <= 0x7a {
            c - 32
        } else {
            c
        },
        AsciiCaseMap::Swap => if 0x41 <= c && c <= 0x5a {
            c + 32
        } else if 0x61 <= c && c <= 0x7a {
            c - 32
        } else {
            c
        },
    }
}

/// Whether the table number `t` gives each code below 128 its image under
/// `m`, as a fixnum.
pub open spec fn maps_ascii(tabs: &CharTables, h: &LispHeap, t: int, m: AsciiCaseMap) -> bool {
    forall|c: int|
        0 <= c < 128 ==> #[trigger] char_table_get(tabs.view(), h, t, c, tabs.property_table_sym())
            == Ok::<CharLookup, LispError>(CharLookup::Found(LispObject(fixnum_word(ascii_case_map(m, c)))))
}

/// Stores in the table `t`, for each code below 128, its image under M.
fn fill_ascii(tabs: &mut CharTables, t: LispCharTableRef, m: AsciiCaseMap)
    requires
        old(tabs).wf(),
        old(tabs).has(t),
    ensures
        final(tabs).wf(),
        final(tabs).property_table_sym() == old(tabs).property_table_sym(),
        final(tabs).case_table_sym() == old(tabs).case_table_sym(),
        final(tabs).view().len() == old(tabs).view().len(),
        forall|u: int|
            0 <= u < old(tabs).view().len() && u != t.index() ==> #[trigger] final(tabs).view()[u] == old(tabs).view()[u],
        final(tabs).view()[t.index()].purpose == old(tabs).view()[t.index()].purpose,
        final(tabs).view()[t.index()].parent == old(tabs).view()[t.index()].parent,
        final(tabs).view()[t.index()].defalt == old(tabs).view()[t.index()].defalt,
        final(tabs).view()[t.index()].extras == old(tabs).view()[t.index()].extras,
        forall|k: int|
            0 <= k < 128 ==> #[trigger] ascii_value(final(tabs).view()[t.index()], k) == LispObject(
                fixnum_word(ascii_case_map(m, k)),
            ),
{
    let mut i: usize = 0;
    while i < 128
        invariant
            i <= 128,
            tabs.wf(),
            tabs.has(t),
            tabs.property_table_sym() == old(tabs).property_table_sym(),
            tabs.case_table_sym() == old(tabs).case_table_sym(),
            tabs.view().len() == old(tabs).view().len(),
            forall|u: int|
                0 <= u < old(tabs).view().len() && u != t.index() ==> #[trigger] tabs.view()[u] == old(tabs).view()[u],
            tabs.view()[t.index()].purpose == old(tabs).view()[t.index()].purpose,
            tabs.view()[t.index()].parent == old(tabs).view()[t.index()].parent,
            tabs.view()[t.index()].defalt == old(tabs).view()[t.index()].defalt,
            tabs.view()[t.index()].extras == old(tabs).view()[t.index()].extras,
            forall|k: int|
                0 <= k < i ==> #[trigger] ascii_value(tabs.view()[t.index()], k) == LispObject(
                    fixnum_word(ascii_case_map(m, k)),
                ),
        decreases 128 - i,
    {
        let img = map_ascii_code(m, i as i64);
        tabs.set_ascii_char(t, i, LispObject::from_natnum(img));
        i = i + 1;
    }
}

/// A table of the store whose own values for the codes below 128 are
/// non-nil gives them, whatever its default and parents.
proof fn lemma_get_ascii(tabs: &CharTables, h: &LispHeap, t: int, m: AsciiCaseMap)
    requires
        tabs.wf(),
        0 <= t < tabs.view().len(),
        forall|k: int|
            0 <= k < 128 ==> #[trigger] ascii_value(tabs.view()[t], k) == LispObject(fixnum_word(ascii_case_map(m, k))),
    ensures
        maps_ascii(tabs, h, t, m),
{
    assert forall|c: int| 0 <= c < 128 implies #[trigger] char_table_get(tabs.view(), h, t, c, tabs.property_table_sym())
        == Ok::<CharLookup, LispError>(CharLookup::Found(LispObject(fixnum_word(ascii_case_map(m, c))))) by {
        assert(ascii_value(tabs.view()[t], c) == LispObject(fixnum_word(ascii_case_map(m, c))));
        assert(fixnum_word(ascii_case_map(m, c)) != 0);
    }
}

/// Builds the standard case table: a case table whose down-case mapping
/// takes 'A' to 'Z' to 'a' to 'z' and leaves the other codes below 128
/// alone, with an upcase table taking 'a' to 'z' to 'A' to 'Z', a
/// canonicalize table made as the down-case table was (its equivalences
/// slot then set to the equivalences table, as `set-case-table` does),
/// and an equivalences table that swaps the case of letters.  Four tables
/// are added to the store: the down-case, canonicalize, upcase and
/// equivalences tables, in that order.
pub fn init_casetab_once(tabs: &mut CharTables, h: &LispHeap) -> (r: LispCaseTable)
    requires
        old(tabs).wf(),
        old(tabs).view().len() + 4 <= MAX_OBJECTS,
    ensures
        final(tabs).wf(),
        final(tabs).property_table_sym() == old(tabs).property_table_sym(),
        final(tabs).case_table_sym() == old(tabs).case_table_sym(),
        final(tabs).view().len() == old(tabs).view().len() + 4,
        forall|u: int| 0 <= u < old(tabs).view().len() ==> #[trigger] final(tabs).view()[u] == old(tabs).view()[u],
        r.table().index() == old(tabs).view().len(),
        final(tabs).has(r.table()),
        is_case_table(final(tabs), r.table().index()),
        ({
            let n = old(tabs).view().len() as int;
            let down = final(tabs).view()[n];
            &&& down.extras@ == seq![char_table_word(n + 2), char_table_word(n + 1), char_table_word(n + 3)]
            &&& final(tabs).view()[n + 1].extras@ == seq![LispObject(0), LispObject(0), char_table_word(n + 3)]
            &&& maps_ascii(final(tabs), h, n, AsciiCaseMap::Down)
            &&& maps_ascii(final(tabs), h, n + 1, AsciiCaseMap::Down)
            &&& maps_ascii(final(tabs), h, n + 2, AsciiCaseMap::Up)
            &&& maps_ascii(final(tabs), h, n + 3, AsciiCaseMap::Swap)
        }),
{
    let ghost tabs0 = tabs.view();
    let ghost n = tabs0.len() as int;
    let sym = tabs.case_table_symbol();
    let nil = LispObject::constant_nil();
    let down = tabs.make_char_table(sym, nil, 3);
    fill_ascii(tabs, down, AsciiCaseMap::Down);
    let ghost down_ascii = tabs.view()[n].ascii;
    let ghost down_tab = tabs.view()[n];
    let canon = tabs.make_char_table(sym, nil, 3);
    fill_ascii(tabs, canon, AsciiCaseMap::Down);
    let ghost canon_ascii = tabs.view()[n + 1].ascii;
    let ghost canon_tab = tabs.view()[n + 1];
    assert(tabs.view()[n].ascii == down_ascii);
    let mut down_table = LispCaseTable::from_char_table(down);
    down_table.set_extras(tabs, 1, canon.as_obj());
    assert(tabs.view()[n].ascii == down_ascii && tabs.view()[n + 1].ascii == canon_ascii);
    let up = tabs.make_char_table(sym, nil, 3);
    fill_ascii(tabs, up, AsciiCaseMap::Up);
    let ghost up_ascii = tabs.view()[n + 2].ascii;
    assert(tabs.view()[n].ascii == down_ascii && tabs.view()[n + 1].ascii == canon_ascii);
    down_table.set_extras(tabs, 0, up.as_obj());
    assert(tabs.view()[n].ascii == down_ascii && tabs.view()[n + 1].ascii == canon_ascii);
    let eqv = tabs.make_char_table(sym, nil, 3);
    fill_ascii(tabs, eqv, AsciiCaseMap::Swap);
    let ghost eqv_ascii = tabs.view()[n + 3].ascii;
    assert(tabs.view()[n].ascii == down_ascii && tabs.view()[n + 1].ascii == canon_ascii);
    assert(tabs.view()[n + 2].ascii == up_ascii);
    down_table.set_extras(tabs, 2, eqv.as_obj());
    let mut canon_table = LispCaseTable::from_char_table(canon);
    canon_table.set_extras(tabs, 2, eqv.as_obj());
    proof {
        let v = tabs.view();
        let m = v.len() as int;
        assert(m == n + 4);
        assert(v[n].ascii == down_ascii);
        assert(v[n + 1].ascii == canon_ascii);
        assert forall|k: int| 0 <= k < 128 implies #[trigger] ascii_value(v[n], k) == LispObject(
            fixnum_word(ascii_case_map(AsciiCaseMap::Down, k)),
        ) by {
            assert(ascii_value(down_tab, k) == LispObject(fixnum_word(ascii_case_map(AsciiCaseMap::Down, k))));
        }
        assert forall|k: int| 0 <= k < 128 implies #[trigger] ascii_value(v[n + 1], k) == LispObject(
            fixnum_word(ascii_case_map(AsciiCaseMap::Down, k)),
        ) by {
            assert(ascii_value(canon_tab, k) == LispObject(fixnum_word(ascii_case_map(AsciiCaseMap::Down, k))));
        }
        lemma_word_decode(m, n + 1);
        lemma_word_decode(m, n + 2);
        lemma_word_decode(m, n + 3);
        assert(v[n].extras@ =~= seq![char_table_word(n + 2), char_table_word(n + 1), char_table_word(n + 3)]);
        assert(v[n + 1].extras@ =~= seq![LispObject(0), LispObject(0), char_table_word(n + 3)]);
        lemma_get_ascii(tabs, h, n, AsciiCaseMap::Down);
        lemma_get_ascii(tabs, h, n + 1, AsciiCaseMap::Down);
        lemma_get_ascii(tabs, h, n + 2, AsciiCaseMap::Up);
        lemma_get_ascii(tabs, h, n + 3, AsciiCaseMap::Swap);
    }
    down_table
}

/// Whether TABLE is a case table (see `is_case_table`).
pub fn case_table_p(tabs: &CharTables, table: Option<LispCharTableRef>) -> (b: bool)
    requires
        tabs.wf(),
        table matches Some(t) ==> tabs.has(t),
    ensures
        b == (match table {
            Some(t) => is_case_table(tabs, t.index()),
            None => false,
        }),
{
    let char_table = match table {
        Some(ct) => {
            if !crate::chartab::char_table_subtype(tabs, ct).eq(tabs.case_table_symbol()) {
                return false;
            }
            ct
        },
        None => {
            return false;
        },
    };
    let case_table = LispCaseTable::from_char_table(char_table);
    let (up, canon, eqv) = case_table.extras(tabs);
    (up.is_nil() || tabs.is_char_table(up)) && ((canon.is_nil() && eqv.is_nil()) || (tabs.is_char_table(canon) && (
    eqv.is_nil() || tabs.is_char_table(eqv))))
}

} // verus!
