//! Char tables: the four-level tries that map every character code to a
//! Lisp value, with a default value and a parent table to inherit from.
//!
//! A char table covers the codes `0 ..= MAX_CHAR`.  Its 64 top-level slots
//! each cover 65536 codes; a slot holds either a value for all of them or a
//! sub char table of depth 1, whose 16 slots cover 4096 codes each, down to
//! depth 3, whose 128 slots hold one code each.  The first 128 codes are
//! also reachable through the `ascii` slot.
use vstd::prelude::*;

use crate::error::{ErrorMessage, LispError, TypePredicate};
use crate::equal::{equal_in_spec, rust_internal_equal, EqualKind};
use crate::heap::{LispHeap, MAX_OBJECTS};
use crate::tag::{word_address, word_tag};
use crate::tag::LispObject;

verus! {

/// Bits of the index into a char table at depth 0.
pub const CHARTAB_SIZE_BITS_0: u32 = 6;

/// Bits of the index into a sub char table at depth 1.
pub const CHARTAB_SIZE_BITS_1: u32 = 4;

/// Bits of the index into a sub char table at depth 2.
pub const CHARTAB_SIZE_BITS_2: u32 = 5;

/// Bits of the index into a sub char table at depth 3.
pub const CHARTAB_SIZE_BITS_3: u32 = 7;

/// The bits of a pseudovector header that give its number of Lisp slots.
pub const PSEUDOVECTOR_SIZE_MASK: isize = 0xfff;

/// The Lisp slots of a char table without extra slots: `defalt`,
/// `parent`, `purpose`, `ascii` and the 64 top-level slots.
pub const CHAR_TABLE_STANDARD_SLOTS: usize = 68;

/// The number of slots of a (sub) char table at `depth`.
pub open spec fn chartab_size_spec(depth: int) -> int {
    if depth == 0 {
        64
    } else if depth == 1 {
        16
    } else if depth == 2 {
        32
    } else {
        128
    }
}

/// The number of character codes that one slot at `depth` covers.
pub open spec fn slot_span(depth: int) -> int {
    if depth == 0 {
        0x10000
    } else if depth == 1 {
        0x1000
    } else if depth == 2 {
        0x80
    } else {
        1
    }
}

/// The number of slots of a (sub) char table at DEPTH (0 to 3).
pub fn chartab_size(depth: i32) -> (n: usize)
    requires
        0 <= depth <= 3,
    ensures
        n == chartab_size_spec(depth as int),
        n == 1usize << (if depth == 0 {
            CHARTAB_SIZE_BITS_0
        } else if depth == 1 {
            CHARTAB_SIZE_BITS_1
        } else if depth == 2 {
            CHARTAB_SIZE_BITS_2
        } else {
            CHARTAB_SIZE_BITS_3
        }),
{
    match depth {
        0 => {
            assert(1usize << 6u32 == 64) by (bit_vector);
            1usize << CHARTAB_SIZE_BITS_0
        },
        1 => {
            assert(1usize << 4u32 == 16) by (bit_vector);
            1usize << CHARTAB_SIZE_BITS_1
        },
        2 => {
            assert(1usize << 5u32 == 32) by (bit_vector);
            1usize << CHARTAB_SIZE_BITS_2
        },
        _ => {
            assert(1usize << 7u32 == 128) by (bit_vector);
            1usize << CHARTAB_SIZE_BITS_3
        },
    }
}

/// The index of the slot for the character C in a (sub) char table at
/// DEPTH whose first character is MIN_CHAR.  A depth outside `0 ..= 3`
/// is an error.
pub fn chartab_idx(c: isize, depth: i32, min_char: i32) -> (r: Result<usize, LispError>)
    requires
        isize::MIN <= c - min_char <= isize::MAX,
    ensures
        0 <= depth <= 3 ==> r == Ok::<usize, LispError>(((c - min_char) / slot_span(depth as int)) as usize),
        0 <= depth <= 3 && c >= min_char ==> (r matches Ok(i) && i == (c - min_char) / slot_span(depth as int)),
        !(0 <= depth <= 3) ==> r == Err::<usize, LispError>(LispError::Error(ErrorMessage::InvalidCharTableDepth)),
{
    let bits: u32 = match depth {
        0 => CHARTAB_SIZE_BITS_1 + CHARTAB_SIZE_BITS_2 + CHARTAB_SIZE_BITS_3,
        1 => CHARTAB_SIZE_BITS_2 + CHARTAB_SIZE_BITS_3,
        2 => CHARTAB_SIZE_BITS_3,
        3 => 0,
        _ => {
            return Err(LispError::Error(ErrorMessage::InvalidCharTableDepth));
        },
    };
    let d: isize = c - min_char as isize;
    let q: isize = d >> bits;
    proof {
        if depth == 0 {
            assert(d >> 16u32 == d / 0x10000) by (bit_vector);
        } else if depth == 1 {
            assert(d >> 12u32 == d / 0x1000) by (bit_vector);
        } else if depth == 2 {
            assert(d >> 7u32 == d / 0x80) by (bit_vector);
        } else {
            assert(d >> 0u32 == d) by (bit_vector);
        }
    }
    Ok(q as usize)
}

/// Whether the character code C is an ASCII code.
pub fn is_ascii(c: isize) -> (b: bool)
    ensures
        b == (c < 128),
{
    c < 128
}

/// Whether OBJ is a string that holds the uniprop values of 128
/// consecutive characters in compressed form: its first byte is 1 or 2.
pub fn uniprop_compressed_form_p(h: &LispHeap, obj: LispObject) -> (b: bool)
    requires
        h.wf(),
    ensures
        b == (h.is_string(obj) && h.string_bytes_of(obj).len() > 0 && (h.string_bytes_of(obj)[0] == 1
            || h.string_bytes_of(obj)[0] == 2)),
{
    if h.is_string_obj(obj) {
        let n = h.string_len_bytes(obj);
        if n > 0 {
            let b0 = h.string_byte_at(obj, 0);
            b0 == 1 || b0 == 2
        } else {
            false
        }
    } else {
        false
    }
}

/// Whether the value is a string in the compressed uniprop form.
pub open spec fn compressed_form(h: &LispHeap, v: LispObject) -> bool {
    h.is_string(v) && h.string_bytes_of(v).len() > 0 && (h.string_bytes_of(v)[0] == 1 || h.string_bytes_of(v)[0] == 2)
}

/// What a slot of a (sub) char table holds: one value for every character
/// it covers, or a sub char table one level deeper.
pub enum ChartabSlot {
    Value(LispObject),
    Sub(LispSubCharTable),
}

/// A sub char table: a level of the trie below the top, at `depth` 1 to 3,
/// covering the codes from `min_char` on.
pub struct LispSubCharTable {
    pub depth: i32,
    pub min_char: i32,
    pub contents: Vec<ChartabSlot>,
}

/// The number of codes that a (sub) char table at `depth` covers.
pub open spec fn table_span(depth: int) -> int {
    chartab_size_spec(depth) * slot_span(depth)
}

/// Well-formedness of a sub char table: its depth and first code fit its
/// place in the trie, it has the slots of its depth, and each sub table
/// in a slot is one level deeper and starts at the first code of the slot.
pub open spec fn sub_wf(s: LispSubCharTable) -> bool
    decreases s,
{
    &&& 1 <= s.depth <= 3
    &&& 0 <= s.min_char
    &&& s.min_char + table_span(s.depth as int) <= 0x40_0000
    &&& s.contents@.len() == chartab_size_spec(s.depth as int)
    &&& forall|i: int|
        #![trigger s.contents@[i]]
        0 <= i < s.contents@.len() ==> match s.contents@[i] {
            ChartabSlot::Value(_) => true,
            ChartabSlot::Sub(t) => {
                &&& t.depth == s.depth + 1
                &&& t.min_char == s.min_char + i * slot_span(s.depth as int)
                &&& sub_wf(t)
            },
        }
}

/// The outcome of a lookup: the value found, or the place of a slot that
/// holds uniprop data in compressed form, which must be uncompressed
/// before the lookup can go on.
#[derive(PartialEq, Eq, Structural, Clone, Copy, Debug)]
pub enum CharLookup {
    Found(LispObject),
    Compressed { depth: i32, min_char: i32, idx: usize },
}

/// The value that the sub char table `s` gives the code `c`.
pub open spec fn sub_lookup(h: &LispHeap, s: LispSubCharTable, c: int, uniprop: bool) -> CharLookup
    decreases s,
{
    let idx = (c - s.min_char) / slot_span(s.depth as int);
    if 0 <= idx < s.contents@.len() {
        match s.contents@[idx] {
            ChartabSlot::Value(v) => if uniprop && compressed_form(h, v) {
                CharLookup::Compressed { depth: s.depth, min_char: s.min_char, idx: idx as usize }
            } else {
                CharLookup::Found(v)
            },
            ChartabSlot::Sub(t) => sub_lookup(h, t, c, uniprop),
        }
    } else {
        CharLookup::Found(LispObject(0))
    }
}

/// The value in the slot of a bottom-level sub char table for the code `c`.
pub open spec fn bottom_value(s: LispSubCharTable, c: int) -> LispObject {
    match s.contents@[c - s.min_char] {
        ChartabSlot::Value(v) => v,
        ChartabSlot::Sub(_) => LispObject(0),
    }
}

impl LispSubCharTable {
    /// The value for the code C, looking into deeper sub tables; with
    /// IS_UNIPROP, a slot in compressed uniprop form is reported instead.
    pub fn get(&self, h: &LispHeap, c: isize, is_uniprop: bool) -> (r: CharLookup)
        requires
            h.wf(),
            sub_wf(*self),
            self.min_char <= c < self.min_char + table_span(self.depth as int),
        ensures
            r == sub_lookup(h, *self, c as int, is_uniprop),
        decreases self,
    {
        let idx = match chartab_idx(c, self.depth, self.min_char) {
            Ok(i) => i,
            Err(_) => {
                return CharLookup::Found(LispObject::constant_nil());
            },
        };
        assert(idx < self.contents@.len()) by (nonlinear_arith)
            requires
                idx == (c - self.min_char) / slot_span(self.depth as int),
                0 <= c - self.min_char < chartab_size_spec(self.depth as int) * slot_span(self.depth as int),
                slot_span(self.depth as int) > 0,
                self.contents@.len() == chartab_size_spec(self.depth as int),
        ;
        match &self.contents[idx] {
            ChartabSlot::Value(v) => {
                if is_uniprop && uniprop_compressed_form_p(h, *v) {
                    CharLookup::Compressed { depth: self.depth, min_char: self.min_char, idx }
                } else {
                    CharLookup::Found(*v)
                }
            },
            ChartabSlot::Sub(t) => {
                proof {
                    let ghost i = idx as int;
                    assert(match self.contents@[i] {
                        ChartabSlot::Value(_) => true,
                        ChartabSlot::Sub(t) => t.depth == self.depth + 1 && t.min_char == self.min_char + i
                            * slot_span(self.depth as int) && sub_wf(t),
                    });
                    assert(t.min_char <= c < t.min_char + table_span(t.depth as int)) by (nonlinear_arith)
                        requires
                            i == (c - self.min_char) / slot_span(self.depth as int),
                            slot_span(self.depth as int) == table_span(t.depth as int),
                            t.min_char == self.min_char + i * slot_span(self.depth as int),
                            slot_span(self.depth as int) > 0,
                            c >= self.min_char,
                    ;
                }
                t.get(h, c, is_uniprop)
            },
        }
    }
}

/// A sub char table at the bottom of the trie, as the `ascii` slot of a
/// char table holds it.
pub struct LispSubCharTableAsciiRef<'a>(pub &'a LispSubCharTable);

impl<'a> LispSubCharTableAsciiRef<'a> {
    /// The value in the slot for the code C.
    pub fn get(&self, c: isize) -> (r: LispObject)
        requires
            sub_wf(*self.0),
            self.0.depth == 3,
            self.0.min_char <= c < self.0.min_char + 128,
        ensures
            r == bottom_value(*self.0, c as int),
    {
        let idx = match chartab_idx(c, self.0.depth, self.0.min_char) {
            Ok(i) => i,
            Err(_) => {
                return LispObject::constant_nil();
            },
        };
        assert(match self.0.contents@[idx as int] {
            ChartabSlot::Value(_) => true,
            ChartabSlot::Sub(t) => t.depth == 4 && sub_wf(t),
        });
        match &self.0.contents[idx] {
            ChartabSlot::Value(v) => *v,
            ChartabSlot::Sub(_) => LispObject::constant_nil(),
        }
    }
}

/// A char table: the 64 top-level slots, the `ascii` shortcut to the
/// first 128 codes, the default value, the parent (`nil` or a char
/// table), the purpose symbol and the extra slots.
pub struct LispCharTable {
    /// The pseudovector header word, whose low bits count the Lisp slots.
    pub size: isize,
    pub defalt: LispObject,
    pub parent: LispObject,
    pub purpose: LispObject,
    pub ascii: ChartabSlot,
    pub contents: Vec<ChartabSlot>,
    pub extras: Vec<LispObject>,
}

/// A reference to a char table of a `CharTables` store.
#[derive(PartialEq, Eq, Structural, Clone, Copy, Debug)]
pub struct LispCharTableRef(usize);

/// The word of the char table number `i`: a vectorlike word above the
/// addresses of the heap's own vectors.
pub open spec fn char_table_word(i: int) -> LispObject {
    LispObject(((MAX_OBJECTS + i) * 8 + 5) as i64)
}

/// The char table number a word refers to, in a store of `n` tables.
pub open spec fn char_table_index(n: int, o: LispObject) -> Option<nat> {
    let a = word_address(o.0) as int / 8;
    if word_tag(o.0) == 5 && MAX_OBJECTS <= a < MAX_OBJECTS + n {
        Some((a - MAX_OBJECTS) as nat)
    } else {
        None
    }
}

/// The parent of the table number `t`, by number.
pub open spec fn parent_index(tabs: Seq<LispCharTable>, t: int) -> Option<nat> {
    char_table_index(tabs.len() as int, tabs[t].parent)
}

/// The table reached from `o` after `n` steps up the parent links
/// (`None` once the chain has ended).
pub open spec fn walk_parents(tabs: Seq<LispCharTable>, o: Option<nat>, n: nat) -> Option<nat>
    decreases n,
{
    if n == 0 {
        o
    } else {
        match o {
            None => None,
            Some(u) => walk_parents(tabs, parent_index(tabs, u as int), (n - 1) as nat),
        }
    }
}

/// Whether the chain of parents from the table number `t` ends.
pub open spec fn chain_ends(tabs: Seq<LispCharTable>, t: nat) -> bool {
    exists|n: nat| #[trigger] walk_parents(tabs, Some(t), n) is None
}

/// Well-formedness of a char table in a store of `n` tables.
pub open spec fn table_wf(t: LispCharTable, n: int) -> bool {
    &&& t.contents@.len() == 64
    &&& forall|i: int|
        #![trigger t.contents@[i]]
        0 <= i < 64 ==> match t.contents@[i] {
            ChartabSlot::Value(_) => true,
            ChartabSlot::Sub(s) => s.depth == 1 && s.min_char == i * 0x10000 && sub_wf(s),
        }
    &&& match t.ascii {
        ChartabSlot::Value(_) => true,
        ChartabSlot::Sub(s) => s.depth == 3 && s.min_char == 0 && sub_wf(s),
    }
    &&& t.parent == LispObject(0) || char_table_index(n, t.parent) is Some
    &&& (t.size & PSEUDOVECTOR_SIZE_MASK) == CHAR_TABLE_STANDARD_SLOTS + t.extras@.len()
}

/// A store of char tables, with the symbols that give a table its kind.
pub struct CharTables {
    tables: Vec<LispCharTable>,
    char_code_property_table: LispObject,
    case_table: LispObject,
}

impl CharTables {
    /// The tables of the store.
    pub closed spec fn view(&self) -> Seq<LispCharTable> {
        self.tables@
    }

    /// The purpose symbol of the tables of Unicode character properties.
    pub closed spec fn property_table_sym(&self) -> LispObject {
        self.char_code_property_table
    }

    /// The purpose symbol of case tables.
    pub closed spec fn case_table_sym(&self) -> LispObject {
        self.case_table
    }

    /// Well-formedness: every table is well formed, case tables have their
    /// three extra slots, and every chain of parents ends.
    pub open spec fn wf(&self) -> bool {
        let tabs = self.view();
        &&& tabs.len() <= MAX_OBJECTS
        &&& forall|t: int| 0 <= t < tabs.len() ==> #[trigger] table_wf(tabs[t], tabs.len() as int)
        &&& forall|t: int|
            0 <= t < tabs.len() && #[trigger] tabs[t].purpose == self.case_table_sym() ==> tabs[t].extras@.len() >= 3
        &&& forall|t: nat| t < tabs.len() ==> #[trigger] chain_ends(tabs, t)
    }

    /// Whether the reference names a table of this store.
    pub open spec fn has(&self, t: LispCharTableRef) -> bool {
        0 <= t.index() < self.view().len()
    }

    /// An empty store.
    pub fn new(char_code_property_table: LispObject, case_table: LispObject) -> (s: CharTables)
        ensures
            s.wf(),
            s.view() == Seq::<LispCharTable>::empty(),
            s.property_table_sym() == char_code_property_table,
            s.case_table_sym() == case_table,
    {
        CharTables { tables: Vec::new(), char_code_property_table, case_table }
    }

    /// The purpose symbol of case tables.
    pub fn case_table_symbol(&self) -> (o: LispObject)
        ensures
            o == self.case_table_sym(),
    {
        self.case_table
    }

    /// The purpose symbol of the tables of Unicode character properties.
    pub fn property_table_symbol(&self) -> (o: LispObject)
        ensures
            o == self.property_table_sym(),
    {
        self.char_code_property_table
    }

    /// The char table a word refers to, if any.
    pub fn as_char_table(&self, o: LispObject) -> (r: Option<LispCharTableRef>)
        requires
            self.wf(),
        ensures
            r is Some == char_table_index(self.view().len() as int, o) is Some,
            r matches Some(t) ==> char_table_index(self.view().len() as int, o) == Some(t.index() as nat),
            r matches Some(t) ==> self.has(t),
    {
        if o.is_vectorlike() {
            let a = o.get_untaggedptr() / 8;
            if (MAX_OBJECTS as u64) <= a && a - (MAX_OBJECTS as u64) < self.tables.len() as u64 {
                return Some(LispCharTableRef((a - MAX_OBJECTS as u64) as usize));
            }
        }
        None
    }

    /// The char table a word refers to, or `wrong-type-argument
    /// char-table-p`.
    pub fn as_char_table_or_error(&self, o: LispObject) -> (r: Result<LispCharTableRef, LispError>)
        requires
            self.wf(),
        ensures
            r is Ok == char_table_index(self.view().len() as int, o) is Some,
            r matches Ok(t) ==> char_table_index(self.view().len() as int, o) == Some(t.index() as nat)
                && self.has(t),
            r is Err ==> r == Err::<LispCharTableRef, LispError>(LispError::WrongType(TypePredicate::CharTableP, o)),
    {
        match self.as_char_table(o) {
            Some(t) => Ok(t),
            None => Err(LispError::WrongType(TypePredicate::CharTableP, o)),
        }
    }

    /// Whether a word refers to a char table of this store.
    pub fn is_char_table(&self, o: LispObject) -> (b: bool)
        requires
            self.wf(),
        ensures
            b == char_table_index(self.view().len() as int, o) is Some,
    {
        self.as_char_table(o).is_some()
    }
}

impl LispCharTableRef {
    /// The number of the table in its store.
    pub closed spec fn index(self) -> int {
        self.0 as int
    }

    /// The word that refers to the table.
    pub fn as_obj(self) -> (o: LispObject)
        requires
            self.index() < MAX_OBJECTS,
        ensures
            o == char_table_word(self.index()),
    {
        LispObject(((MAX_OBJECTS + self.0) * 8 + 5) as i64)
    }
}

/// The count of Lisp slots past the 64 top-level ones that the header
/// word of `t` gives: the four standard slots and the extra slots.
pub open spec fn extra_slots_of(t: LispCharTable) -> int {
    (t.size & PSEUDOVECTOR_SIZE_MASK) - 64
}

/// Whether `t` holds Unicode character properties: its purpose is `sym`
/// and its header counts five Lisp slots past the 64 top-level ones (the
/// default, parent, purpose and ascii slots, and one extra slot).
pub open spec fn is_uniprop_table(t: LispCharTable, sym: LispObject) -> bool {
    t.purpose == sym && extra_slots_of(t) == 5
}

/// The value that the table `t` itself holds for the code `c`, before
/// its default and its parent are consulted.
pub open spec fn own_lookup(h: &LispHeap, t: LispCharTable, c: int, sym: LispObject) -> Result<CharLookup, LispError> {
    if c < 128 {
        match t.ascii {
            ChartabSlot::Value(v) => Ok(CharLookup::Found(v)),
            ChartabSlot::Sub(s) => Ok(CharLookup::Found(bottom_value(s, c))),
        }
    } else if c / 0x10000 < 64 {
        match t.contents@[c / 0x10000] {
            ChartabSlot::Value(v) => Ok(CharLookup::Found(v)),
            ChartabSlot::Sub(s) => Ok(sub_lookup(h, s, c, is_uniprop_table(t, sym))),
        }
    } else {
        Err(LispError::Error(ErrorMessage::IndexOutOfRange))
    }
}

/// The value of the code `c` in the table number `t`: its own value if
/// not `nil`, else its default if not `nil`, else the value in its parent
/// (looking at most `fuel` parents up).
pub open spec fn lookup(
    tabs: Seq<LispCharTable>,
    h: &LispHeap,
    t: int,
    c: int,
    sym: LispObject,
    fuel: nat,
) -> Result<CharLookup, LispError>
    decreases fuel,
{
    match own_lookup(h, tabs[t], c, sym) {
        Ok(CharLookup::Found(v)) => if v != LispObject(0) {
            Ok(CharLookup::Found(v))
        } else if tabs[t].defalt != LispObject(0) {
            Ok(CharLookup::Found(tabs[t].defalt))
        } else {
            match parent_index(tabs, t) {
                Some(p) => if fuel > 0 {
                    lookup(tabs, h, p as int, c, sym, (fuel - 1) as nat)
                } else {
                    Ok(CharLookup::Found(LispObject(0)))
                },
                None => Ok(CharLookup::Found(LispObject(0))),
            }
        },
        other => other,
    }
}

/// The number of steps after which the chain of parents from `t` ends.
pub open spec fn chain_length(tabs: Seq<LispCharTable>, t: nat) -> nat {
    choose|n: nat| #[trigger] walk_parents(tabs, Some(t), n) is None
}

/// The value of the code `c` in the table number `t`, inheriting along
/// the whole chain of parents.
pub open spec fn char_table_get(tabs: Seq<LispCharTable>, h: &LispHeap, t: int, c: int, sym: LispObject) -> Result<
    CharLookup,
    LispError,
> {
    lookup(tabs, h, t, c, sym, (chain_length(tabs, t as nat) - 1) as nat)
}

/// A walk that has ended stays ended.
pub proof fn lemma_walk_ended(tabs: Seq<LispCharTable>, o: Option<nat>, n: nat, k: nat)
    requires
        walk_parents(tabs, o, n) is None,
    ensures
        walk_parents(tabs, o, n + k) is None,
    decreases n,
{
    match o {
        None => {
            lemma_walk_from_none(tabs, n + k);
        },
        Some(u) => {
            if n > 0 {
                lemma_walk_ended(tabs, parent_index(tabs, u as int), (n - 1) as nat, k);
            }
        },
    }
}

/// From no table, every walk gives no table.
pub proof fn lemma_walk_from_none(tabs: Seq<LispCharTable>, n: nat)
    ensures
        walk_parents(tabs, None, n) is None,
{
}

/// Enough fuel to reach the end of the chain of parents gives the same
/// value, whatever the amount.
pub proof fn lemma_lookup_fuel(
    tabs: Seq<LispCharTable>,
    h: &LispHeap,
    t: nat,
    c: int,
    sym: LispObject,
    f1: nat,
    f2: nat,
)
    requires
        walk_parents(tabs, Some(t), f1 + 1) is None,
        walk_parents(tabs, Some(t), f2 + 1) is None,
    ensures
        lookup(tabs, h, t as int, c, sym, f1) == lookup(tabs, h, t as int, c, sym, f2),
    decreases f1,
{
    match parent_index(tabs, t as int) {
        Some(p) => {
            assert(walk_parents(tabs, Some(t), f1 + 1) == walk_parents(tabs, Some(p), f1));
            assert(walk_parents(tabs, Some(t), f2 + 1) == walk_parents(tabs, Some(p), f2));
            if f1 > 0 && f2 > 0 {
                assert(f1 == ((f1 - 1) as nat) + 1);
                assert(f2 == ((f2 - 1) as nat) + 1);
                lemma_lookup_fuel(tabs, h, p, c, sym, (f1 - 1) as nat, (f2 - 1) as nat);
            }
        },
        None => {},
    }
}

impl CharTables {
    /// Adds a table to the store.
    pub fn push(&mut self, t: LispCharTable) -> (r: LispCharTableRef)
        requires
            old(self).wf(),
            old(self).view().len() < MAX_OBJECTS,
            table_wf(t, old(self).view().len() as int),
            t.purpose == old(self).case_table_sym() ==> t.extras@.len() >= 3,
        ensures
            final(self).wf(),
            final(self).view() == old(self).view().push(t),
            final(self).property_table_sym() == old(self).property_table_sym(),
            final(self).case_table_sym() == old(self).case_table_sym(),
            r.index() == old(self).view().len(),
            final(self).has(r),
    {
        let ghost tabs = self.view();
        let n = self.tables.len();
        self.tables.push(t);
        proof {
            let tabs2 = self.view();
            assert(tabs2 == tabs.push(t));
            assert forall|u: int| 0 <= u < tabs2.len() implies #[trigger] table_wf(tabs2[u], tabs2.len() as int) by {
                if u < n {
                    assert(table_wf(tabs[u], n as int));
                }
            }
            assert forall|u: nat| u < tabs2.len() implies #[trigger] chain_ends(tabs2, u) by {
                if u < n {
                    assert(chain_ends(tabs, u));
                    let k = choose|k: nat| #[trigger] walk_parents(tabs, Some(u), k) is None;
                    lemma_walk_push(tabs, t, Some(u), k);
                    assert(walk_parents(tabs2, Some(u), k) is None);
                } else {
                    let po = parent_index(tabs2, u as int);
                    lemma_index_grow(n as int, t.parent);
                    assert(po == char_table_index(n as int, t.parent));
                    match po {
                        None => {
                            assert(walk_parents(tabs2, po, 0) is None);
                            assert(walk_parents(tabs2, Some(u), 1) is None);
                        },
                        Some(p) => {
                            assert(p < n);
                            assert(chain_ends(tabs, p));
                            let k = choose|k: nat| #[trigger] walk_parents(tabs, Some(p), k) is None;
                            lemma_walk_push(tabs, t, Some(p), k);
                            assert(walk_parents(tabs2, Some(u), k + 1) == walk_parents(tabs2, Some(p), k));
                            assert(walk_parents(tabs2, Some(u), k + 1) is None);
                        },
                    }
                }
            }
        }
        LispCharTableRef(n)
    }
}

/// A parent word of a store of `m` tables decodes alike in a larger store.
proof fn lemma_index_grow(m: int, o: LispObject)
    requires
        o == LispObject(0) || char_table_index(m, o) is Some,
    ensures
        char_table_index(m + 1, o) == char_table_index(m, o),
{
    if o == LispObject(0) {
        assert((0i64 as u64) & 7 == 0) by (bit_vector);
    }
}

/// Adding a table changes no walk that starts at an older table.
proof fn lemma_walk_push(tabs: Seq<LispCharTable>, t: LispCharTable, o: Option<nat>, k: nat)
    requires
        forall|u: int| 0 <= u < tabs.len() ==> #[trigger] table_wf(tabs[u], tabs.len() as int),
        o matches Some(u) ==> u < tabs.len(),
    ensures
        walk_parents(tabs.push(t), o, k) == walk_parents(tabs, o, k),
    decreases k,
{
    if k > 0 {
        match o {
            None => {},
            Some(u) => {
                assert(table_wf(tabs[u as int], tabs.len() as int));
                assert(tabs.push(t)[u as int] == tabs[u as int]);
                lemma_index_grow(tabs.len() as int, tabs[u as int].parent);
                assert(parent_index(tabs.push(t), u as int) == parent_index(tabs, u as int));
                lemma_walk_push(tabs, t, parent_index(tabs, u as int), (k - 1) as nat);
            },
        }
    }
}

impl LispCharTableRef {
    /// The Lisp slots that the header word counts, less the 64 top-level
    /// ones (see `extra_slots_of`).
    pub fn extra_slots(self, tabs: &CharTables) -> (r: isize)
        requires
            tabs.wf(),
            tabs.has(self),
        ensures
            r == extra_slots_of(tabs.view()[self.index()]),
    {
        let size = tabs.tables[self.0].size;
        let m: isize = size & PSEUDOVECTOR_SIZE_MASK;
        assert(0 <= m <= 0xfff) by (bit_vector)
            requires
                m == size & 0xfff,
        ;
        m - 64
    }

    /// Whether the table holds Unicode character properties (see
    /// `is_uniprop_table`).
    pub fn is_uniprop(self, tabs: &CharTables) -> (b: bool)
        requires
            tabs.wf(),
            tabs.has(self),
        ensures
            b == is_uniprop_table(tabs.view()[self.index()], tabs.property_table_sym()),
    {
        tabs.tables[self.0].purpose.eq(tabs.char_code_property_table) && self.extra_slots(tabs) == 5
    }

    /// The value of the character C in the table, inherited from the
    /// default and the parents where the table holds `nil`.
    pub fn get(self, tabs: &CharTables, h: &LispHeap, c: isize) -> (r: Result<CharLookup, LispError>)
        requires
            tabs.wf(),
            tabs.has(self),
            h.wf(),
            0 <= c,
        ensures
            r == char_table_get(tabs.view(), h, self.index(), c as int, tabs.property_table_sym()),
    {
        let ghost t = self.index() as nat;
        proof {
            assert(chain_ends(tabs.view(), t));
            let n = chain_length(tabs.view(), t);
            assert(walk_parents(tabs.view(), Some(t), n) is None);
            assert(n > 0);
        }
        self.get_with(tabs, h, c, Ghost((chain_length(tabs.view(), t) - 1) as nat))
    }

    fn get_with(self, tabs: &CharTables, h: &LispHeap, c: isize, Ghost(fuel): Ghost<nat>) -> (r: Result<CharLookup, LispError>)
        requires
            tabs.wf(),
            tabs.has(self),
            h.wf(),
            0 <= c,
            walk_parents(tabs.view(), Some(self.index() as nat), fuel + 1) is None,
        ensures
            r == lookup(tabs.view(), h, self.index(), c as int, tabs.property_table_sym(), fuel),
        decreases fuel,
    {
        let tab = &tabs.tables[self.0];
        proof {
            assert(table_wf(tabs.view()[self.index()], tabs.view().len() as int));
        }
        let uniprop = self.is_uniprop(tabs);
        let mut val = if is_ascii(c) {
            match &tab.ascii {
                ChartabSlot::Value(v) => *v,
                ChartabSlot::Sub(sub) => LispSubCharTableAsciiRef(sub).get(c),
            }
        } else {
            let idx = match chartab_idx(c, 0, 0) {
                Ok(i) => i,
                Err(_) => {
                    return Err(LispError::Error(ErrorMessage::InvalidCharTableDepth));
                },
            };
            if idx >= tab.contents.len() {
                return Err(LispError::Error(ErrorMessage::IndexOutOfRange));
            }
            match &tab.contents[idx] {
                ChartabSlot::Value(v) => *v,
                ChartabSlot::Sub(sub) => {
                    proof {
                        let ghost i = idx as int;
                        assert(match tab.contents@[i] {
                            ChartabSlot::Value(_) => true,
                            ChartabSlot::Sub(s) => s.depth == 1 && s.min_char == i * 0x10000 && sub_wf(s),
                        });
                        assert(sub.min_char <= c < sub.min_char + table_span(1)) by (nonlinear_arith)
                            requires
                                i == c / 0x10000,
                                sub.min_char == i * 0x10000,
                                c >= 0,
                        ;
                    }
                    match sub.get(h, c, uniprop) {
                        CharLookup::Found(v) => v,
                        other => {
                            return Ok(other);
                        },
                    }
                },
            }
        };
        if val.is_nil() {
            val = tab.defalt;
            if val.is_nil() {
                match tabs.as_char_table(tab.parent) {
                    Some(parent) => {
                        proof {
                            let p = parent.index() as nat;
                            assert(walk_parents(tabs.view(), Some(self.index() as nat), fuel + 1)
                                == walk_parents(tabs.view(), Some(p), fuel));
                            assert(fuel > 0);
                            assert(fuel == ((fuel - 1) as nat) + 1);
                        }
                        return parent.get_with(tabs, h, c, Ghost((fuel - 1) as nat));
                    },
                    None => {},
                }
            }
        }
        Ok(CharLookup::Found(val))
    }
}

/// The purpose of CHARTABLE, the symbol that gives its kind.
pub fn char_table_subtype(tabs: &CharTables, chartable: LispCharTableRef) -> (r: LispObject)
    requires
        tabs.wf(),
        tabs.has(chartable),
    ensures
        r == tabs.view()[chartable.index()].purpose,
{
    tabs.tables[chartable.0].purpose
}

/// The parent char table of CHARTABLE, if it has one.
pub fn char_table_parent(tabs: &CharTables, chartable: LispCharTableRef) -> (r: Option<LispCharTableRef>)
    requires
        tabs.wf(),
        tabs.has(chartable),
    ensures
        r is Some == parent_index(tabs.view(), chartable.index()) is Some,
        r matches Some(p) ==> parent_index(tabs.view(), chartable.index()) == Some(p.index() as nat),
        r matches Some(p) ==> tabs.has(p),
{
    tabs.as_char_table(tabs.tables[chartable.0].parent)
}

/// The table `t` with its parent word replaced by `w`.
pub open spec fn with_parent(t: LispCharTable, w: LispObject) -> LispCharTable {
    LispCharTable {
        size: t.size,
        defalt: t.defalt,
        parent: w,
        purpose: t.purpose,
        ascii: t.ascii,
        contents: t.contents,
        extras: t.extras,
    }
}

/// The number of the table a reference names, if any.
pub open spec fn ref_index(r: Option<LispCharTableRef>) -> Option<nat> {
    match r {
        Some(p) => Some(p.index() as nat),
        None => None,
    }
}

/// The word of an optional parent: the table's word, or `nil`.
pub open spec fn parent_word(r: Option<LispCharTableRef>) -> LispObject {
    match r {
        Some(p) => char_table_word(p.index()),
        None => LispObject(0),
    }
}

/// The word of the table number `i` decodes to `i`.
pub proof fn lemma_word_decode(m: int, i: int)
    requires
        0 <= i < m <= MAX_OBJECTS,
    ensures
        char_table_index(m, char_table_word(i)) == Some(i as nat),
{
    crate::heap::lemma_obj_word(MAX_OBJECTS + i, 5);
}

/// One more step of a walk is one more step up from where it was.
proof fn lemma_walk_succ(tabs: Seq<LispCharTable>, o: Option<nat>, k: nat)
    ensures
        walk_parents(tabs, o, k + 1) == match walk_parents(tabs, o, k) {
            None => None,
            Some(u) => parent_index(tabs, u as int),
        },
    decreases k,
{
    match o {
        None => {
            lemma_walk_from_none(tabs, k + 1);
        },
        Some(u) => {
            if k > 0 {
                lemma_walk_succ(tabs, parent_index(tabs, u as int), (k - 1) as nat);
                assert((k - 1) as nat + 1 == k);
            } else {
                assert(walk_parents(tabs, parent_index(tabs, u as int), 0) == parent_index(tabs, u as int));
            }
        },
    }
}

/// A walk that never meets `ct` is the same once `ct`'s parent changes.
proof fn lemma_walk_avoids(tabs: Seq<LispCharTable>, tabs2: Seq<LispCharTable>, ct: nat, o: Option<nat>, n: nat)
    requires
        tabs2.len() == tabs.len(),
        forall|u: int| 0 <= u < tabs.len() && u != ct ==> #[trigger] tabs2[u] == tabs[u],
        walk_parents(tabs, o, n) is None,
        forall|j: nat| j < n ==> #[trigger] walk_parents(tabs, o, j) != Some(ct),
        o matches Some(u) ==> u < tabs.len(),
        forall|u: int| 0 <= u < tabs.len() ==> (#[trigger] parent_index(tabs, u) matches Some(p) ==> p < tabs.len()),
    ensures
        walk_parents(tabs2, o, n) is None,
    decreases n,
{
    if n > 0 {
        match o {
            None => {},
            Some(u) => {
                assert(walk_parents(tabs, o, 0) == o);
                assert(u != ct);
                assert(tabs2[u as int] == tabs[u as int]);
                assert(parent_index(tabs2, u as int) == parent_index(tabs, u as int));
                let o2 = parent_index(tabs, u as int);
                assert forall|j: nat| j < (n - 1) as nat implies #[trigger] walk_parents(tabs, o2, j) != Some(ct) by {
                    assert(walk_parents(tabs, o, j + 1) == walk_parents(tabs, o2, j));
                }
                lemma_walk_avoids(tabs, tabs2, ct, o2, (n - 1) as nat);
            },
        }
    }
}

/// After `ct`'s parent changes to `np`, whose walk ends in `m0` steps,
/// every walk that ended in `n` steps ends in `n + m0 + 1`.
proof fn lemma_walk_reparent(
    tabs: Seq<LispCharTable>,
    tabs2: Seq<LispCharTable>,
    ct: nat,
    np: Option<nat>,
    m0: nat,
    o: Option<nat>,
    n: nat,
)
    requires
        tabs2.len() == tabs.len(),
        ct < tabs.len(),
        forall|u: int| 0 <= u < tabs.len() && u != ct ==> #[trigger] tabs2[u] == tabs[u],
        parent_index(tabs2, ct as int) == np,
        walk_parents(tabs2, np, m0) is None,
        walk_parents(tabs, o, n) is None,
        o matches Some(u) ==> u < tabs.len(),
        forall|u: int| 0 <= u < tabs.len() ==> (#[trigger] parent_index(tabs, u) matches Some(p) ==> p < tabs.len()),
    ensures
        walk_parents(tabs2, o, n + m0 + 1) is None,
    decreases n,
{
    match o {
        None => {
            lemma_walk_from_none(tabs2, n + m0 + 1);
        },
        Some(u) => {
            assert(n > 0);
            if u == ct {
                assert(walk_parents(tabs2, o, n + m0 + 1) == walk_parents(tabs2, np, (n + m0) as nat));
                lemma_walk_ended(tabs2, np, m0, (n - 1) as nat);
                assert((m0 + (n - 1) as nat) == (n + m0) as nat - 1 + 0 || true);
                assert(m0 + (n - 1) as nat == (n + m0 - 1) as nat);
                assert(walk_parents(tabs2, np, (n + m0 - 1) as nat) is None);
                assert(walk_parents(tabs2, np, (n + m0) as nat) is None) by {
                    lemma_walk_ended(tabs2, np, m0, n);
                }
            } else {
                if (u as int) < tabs.len() {
                    assert(tabs2[u as int] == tabs[u as int]);
                }
                assert(parent_index(tabs2, u as int) == parent_index(tabs, u as int));
                let o2 = parent_index(tabs, u as int);
                lemma_walk_reparent(tabs, tabs2, ct, np, m0, o2, (n - 1) as nat);
                assert(((n - 1) as nat + m0 + 1) == (n + m0 + 1 - 1) as nat);
            }
        },
    }
}

/// Makes PARENT (or none) the parent of CHARTABLE.  A parent whose chain
/// of parents leads back to CHARTABLE is refused with an error, and the
/// store is left as it was.
pub fn set_char_table_parent(tabs: &mut CharTables, chartable: LispCharTableRef, parent: Option<LispCharTableRef>) -> (r:
    Result<(), LispError>)
    requires
        old(tabs).wf(),
        old(tabs).has(chartable),
        parent matches Some(p) ==> old(tabs).has(p),
    ensures
        final(tabs).wf(),
        final(tabs).property_table_sym() == old(tabs).property_table_sym(),
        final(tabs).case_table_sym() == old(tabs).case_table_sym(),
        r is Err == exists|n: nat| #[trigger] walk_parents(old(tabs).view(), ref_index(parent), n) == Some(
            chartable.index() as nat,
        ),
        r is Err ==> r == Err::<(), LispError>(LispError::Error(ErrorMessage::OwnParentCharTable)) && final(tabs).view()
            == old(tabs).view(),
        r is Ok ==> final(tabs).view() == old(tabs).view().update(
            chartable.index(),
            with_parent(old(tabs).view()[chartable.index()], parent_word(parent)),
        ),
{
    let ghost tabs0 = tabs.view();
    let ghost ct = chartable.index() as nat;
    let ghost start = ref_index(parent);
    let ghost bound: nat = match parent {
        Some(p) => chain_length(tabs0, p.index() as nat),
        None => 0,
    };
    proof {
        match parent {
            Some(p) => {
                assert(chain_ends(tabs0, p.index() as nat));
            },
            None => {},
        }
        assert(walk_parents(tabs0, start, bound) is None);
    }
    let mut temp = parent;
    let ghost mut k: nat = 0;
    while temp.is_some()
        invariant
            tabs.wf(),
            tabs.view() == tabs0,
            tabs0 == old(tabs).view(),
            tabs.has(chartable),
            ct == chartable.index() as nat,
            start == ref_index(parent),
            ref_index(temp) == walk_parents(tabs0, start, k),
            temp matches Some(p) ==> tabs.has(p),
            forall|j: nat| j < k ==> #[trigger] walk_parents(tabs0, start, j) != Some(ct),
            walk_parents(tabs0, start, bound) is None,
            k <= bound,
        decreases bound - k,
    {
        let p = match temp {
            Some(p) => p,
            None => {
                return Ok(());
            },
        };
        if chartable.0 == p.0 {
            proof {
                assert(walk_parents(tabs0, start, k) == Some(ct));
            }
            return Err(LispError::Error(ErrorMessage::OwnParentCharTable));
        }
        temp = char_table_parent(tabs, p);
        proof {
            let old_k = k;
            assert(walk_parents(tabs0, start, old_k) == Some(p.index() as nat));
            assert(p.index() != ct);
            assert forall|j: nat| j < old_k + 1 implies #[trigger] walk_parents(tabs0, start, j) != Some(ct) by {
                if j < old_k {
                } else {
                    assert(j == old_k);
                }
            }
            lemma_walk_succ(tabs0, start, k);
            if k + 1 > bound {
                assert(k == bound);
            }
            if k == bound {
                assert(false);
            }
            k = k + 1;
            if let Some(q) = temp {
                assert(table_wf(tabs0[p.index()], tabs0.len() as int));
            }
        }
    }
    proof {
        assert forall|n: nat| #[trigger] walk_parents(tabs0, start, n) != Some(ct) by {
            if n >= k {
                lemma_walk_ended(tabs0, start, k, (n - k) as nat);
            }
        }
    }
    let word = match parent {
        Some(p) => p.as_obj(),
        None => LispObject::constant_nil(),
    };
    let mut t = tabs.tables.remove(chartable.0);
    t.parent = word;
    tabs.tables.insert(chartable.0, t);
    proof {
        let tabs2 = tabs.view();
        let n = tabs0.len() as int;
        assert(tabs2 == tabs0.update(ct as int, with_parent(tabs0[ct as int], parent_word(parent))));
        match parent {
            Some(p) => {
                lemma_word_decode(n, p.index());
            },
            None => {
                assert((0i64 as u64) & 7 == 0) by (bit_vector);
            },
        }
        assert(parent_index(tabs2, ct as int) == start);
        assert forall|u: int| 0 <= u < n implies #[trigger] table_wf(tabs2[u], n) by {
            assert(table_wf(tabs0[u], n));
        }
        assert forall|u: int| 0 <= u < n && #[trigger] tabs2[u].purpose == tabs.case_table_sym() implies tabs2[u].extras@.len()
            >= 3 by {
            assert(tabs0[u].purpose == tabs.case_table_sym() ==> tabs0[u].extras@.len() >= 3);
        }
        assert forall|u: int| 0 <= u < n implies (#[trigger] parent_index(tabs0, u) matches Some(p) ==> p < n) by {
            assert(table_wf(tabs0[u], n));
        }
        lemma_walk_avoids(tabs0, tabs2, ct, start, k);
        assert forall|u: nat| u < n implies #[trigger] chain_ends(tabs2, u) by {
            assert(chain_ends(tabs0, u));
            let m = choose|m: nat| #[trigger] walk_parents(tabs0, Some(u), m) is None;
            lemma_walk_reparent(tabs0, tabs2, ct, start, k, Some(u), m);
            assert(walk_parents(tabs2, Some(u), m + k + 1) is None);
        }
    }
    Ok(())
}

/// A char table that holds `nil` for a character, and has no default,
/// gives the value that its parent gives, inherited in turn.
pub proof fn lemma_inherits_from_parent(tabs: &CharTables, h: &LispHeap, t: LispCharTableRef, p: nat, c: int)
    requires
        tabs.wf(),
        tabs.has(t),
        own_lookup(h, tabs.view()[t.index()], c, tabs.property_table_sym()) == Ok::<CharLookup, LispError>(
            CharLookup::Found(LispObject(0)),
        ),
        tabs.view()[t.index()].defalt == LispObject(0),
        parent_index(tabs.view(), t.index()) == Some(p),
    ensures
        char_table_get(tabs.view(), h, t.index(), c, tabs.property_table_sym()) == char_table_get(
            tabs.view(),
            h,
            p as int,
            c,
            tabs.property_table_sym(),
        ),
{
    let v = tabs.view();
    let sym = tabs.property_table_sym();
    let ti = t.index() as nat;
    assert(chain_ends(v, ti));
    let n = chain_length(v, ti);
    assert(walk_parents(v, Some(ti), n) is None);
    assert(n > 0);
    assert(walk_parents(v, Some(ti), n) == walk_parents(v, Some(p), (n - 1) as nat));
    assert(n > 1);
    assert(table_wf(v[t.index()], v.len() as int));
    assert(p < v.len());
    assert(chain_ends(v, p));
    let m = chain_length(v, p);
    assert(walk_parents(v, Some(p), m) is None);
    assert(m > 0);
    assert((n - 2) as nat + 1 == (n - 1) as nat);
    assert((m - 1) as nat + 1 == m);
    lemma_lookup_fuel(v, h, p, c, sym, (n - 2) as nat, (m - 1) as nat);
}

impl CharTables {
    /// The extra slots of the table `t`.
    pub fn extras_of(&self, t: LispCharTableRef) -> (r: &Vec<LispObject>)
        requires
            self.wf(),
            self.has(t),
        ensures
            r@ == self.view()[t.index()].extras@,
    {
        &self.tables[t.0].extras
    }

    /// Stores `v` in the extra slot `i` of the table `t`.
    pub fn set_extra(&mut self, t: LispCharTableRef, i: usize, v: LispObject)
        requires
            old(self).wf(),
            old(self).has(t),
            i < old(self).view()[t.index()].extras@.len(),
        ensures
            final(self).wf(),
            final(self).property_table_sym() == old(self).property_table_sym(),
            final(self).case_table_sym() == old(self).case_table_sym(),
            final(self).view().len() == old(self).view().len(),
            forall|u: int| 0 <= u < old(self).view().len() && u != t.index() ==> #[trigger] final(self).view()[u] == old(self).view()[u],
            final(self).view()[t.index()].extras@ == old(self).view()[t.index()].extras@.update(i as int, v),
            final(self).view()[t.index()].purpose == old(self).view()[t.index()].purpose,
            final(self).view()[t.index()].parent == old(self).view()[t.index()].parent,
            final(self).view()[t.index()].defalt == old(self).view()[t.index()].defalt,
            final(self).view()[t.index()].size == old(self).view()[t.index()].size,
            final(self).view()[t.index()].ascii == old(self).view()[t.index()].ascii,
            final(self).view()[t.index()].contents == old(self).view()[t.index()].contents,
    {
        let ghost tabs0 = self.view();
        let mut tab = self.tables.remove(t.0);
        tab.extras.set(i, v);
        self.tables.insert(t.0, tab);
        proof {
            let tabs2 = self.view();
            let n = tabs0.len() as int;
            assert forall|u: int| 0 <= u < n implies #[trigger] table_wf(tabs2[u], n) by {
                assert(table_wf(tabs0[u], n));
            }
            assert forall|u: int| 0 <= u < n && #[trigger] tabs2[u].purpose == self.case_table_sym() implies tabs2[u].extras@.len()
                >= 3 by {
                assert(tabs0[u].purpose == self.case_table_sym() ==> tabs0[u].extras@.len() >= 3);
            }
            assert forall|u: int| 0 <= u < n implies #[trigger] parent_index(tabs2, u) == parent_index(tabs0, u) by {}
            assert forall|u: nat| u < n implies #[trigger] chain_ends(tabs2, u) by {
                assert(chain_ends(tabs0, u));
                let m = choose|m: nat| #[trigger] walk_parents(tabs0, Some(u), m) is None;
                lemma_walk_same_parents(tabs0, tabs2, Some(u), m);
            }
        }
    }
}

/// The value that the `ascii` slot of `t` gives the code `c` (below 128).
pub open spec fn ascii_value(t: LispCharTable, c: int) -> LispObject {
    match t.ascii {
        ChartabSlot::Value(v) => v,
        ChartabSlot::Sub(s) => bottom_value(s, c),
    }
}

/// What a slot gives the code `c`, its values read as they are (as in a
/// table that does not hold Unicode character properties).
pub open spec fn slot_lookup(h: &LispHeap, x: ChartabSlot, c: int) -> CharLookup {
    match x {
        ChartabSlot::Value(v) => CharLookup::Found(v),
        ChartabSlot::Sub(s) => sub_lookup(h, s, c, false),
    }
}

/// A sub table of depth 1 or 2 at code 0 that agrees with the slot `old`
/// past its first slot (its slots, or its value in every slot) gives the
/// codes past that first slot what `old` gives them.
proof fn lemma_first_slot_replaced(h: &LispHeap, old: ChartabSlot, s: LispSubCharTable, k: int)
    requires
        1 <= s.depth <= 2,
        s.min_char == 0,
        s.contents@.len() == chartab_size_spec(s.depth as int),
        match old {
            ChartabSlot::Sub(o) => o.depth == s.depth && o.min_char == 0 && o.contents@.len() == s.contents@.len()
                && forall|i: int| 1 <= i < s.contents@.len() ==> #[trigger] s.contents@[i] == o.contents@[i],
            ChartabSlot::Value(d) => forall|i: int|
                1 <= i < s.contents@.len() ==> #[trigger] s.contents@[i] == ChartabSlot::Value(d),
        },
        slot_span(s.depth as int) <= k < table_span(s.depth as int),
    ensures
        slot_lookup(h, ChartabSlot::Sub(s), k) == slot_lookup(h, old, k),
{
    let span = slot_span(s.depth as int);
    let idx = k / span;
    assert(1 <= idx < s.contents@.len()) by (nonlinear_arith)
        requires
            span > 0,
            span <= k < chartab_size_spec(s.depth as int) * span,
            idx == k / span,
            s.contents@.len() == chartab_size_spec(s.depth as int),
    ;
    assert(s.contents@[idx] == match old {
        ChartabSlot::Sub(o) => o.contents@[idx],
        ChartabSlot::Value(d) => ChartabSlot::Value(d),
    });
}

/// A sub char table at `depth` from the code `min_char` on, every slot
/// holding INIT.
fn make_sub_char_table(depth: i32, min_char: i32, init: LispObject) -> (s: LispSubCharTable)
    requires
        1 <= depth <= 3,
        0 <= min_char,
        min_char + table_span(depth as int) <= 0x40_0000,
    ensures
        sub_wf(s),
        s.depth == depth,
        s.min_char == min_char,
        forall|i: int| 0 <= i < s.contents@.len() ==> #[trigger] s.contents@[i] == ChartabSlot::Value(init),
{
    let n = chartab_size(depth);
    let mut contents: Vec<ChartabSlot> = Vec::new();
    let mut i: usize = 0;
    while i < n
        invariant
            i <= n,
            n == chartab_size_spec(depth as int),
            contents@.len() == i,
            forall|k: int| 0 <= k < i ==> #[trigger] contents@[k] == ChartabSlot::Value(init),
        decreases n - i,
    {
        contents.push(ChartabSlot::Value(init));
        i = i + 1;
    }
    let s = LispSubCharTable { depth, min_char, contents };
    assert(forall|k: int|
        #![trigger s.contents@[k]]
        0 <= k < s.contents@.len() ==> match s.contents@[k] {
            ChartabSlot::Value(_) => true,
            ChartabSlot::Sub(t) => t.depth == s.depth + 1 && t.min_char == s.min_char + k * slot_span(s.depth as int)
                && sub_wf(t),
        });
    s
}

/// A copy of a sub char table at the bottom of the trie.
fn copy_bottom_table(s: &LispSubCharTable) -> (r: LispSubCharTable)
    requires
        sub_wf(*s),
        s.depth == 3,
    ensures
        sub_wf(r),
        r.depth == s.depth,
        r.min_char == s.min_char,
        r.contents@ == s.contents@,
{
    let n = s.contents.len();
    let mut contents: Vec<ChartabSlot> = Vec::new();
    let mut i: usize = 0;
    while i < n
        invariant
            sub_wf(*s),
            s.depth == 3,
            i <= n,
            n == s.contents@.len(),
            contents@.len() == i,
            forall|k: int| 0 <= k < i ==> #[trigger] contents@[k] == s.contents@[k],
        decreases n - i,
    {
        match &s.contents[i] {
            ChartabSlot::Value(x) => {
                contents.push(ChartabSlot::Value(*x));
            },
            ChartabSlot::Sub(t) => {
                proof {
                    let ghost k = i as int;
                    assert(match s.contents@[k] {
                        ChartabSlot::Value(_) => true,
                        ChartabSlot::Sub(t) => t.depth == 4 && sub_wf(t),
                    });
                }
                assert(false);
                contents.push(ChartabSlot::Value(LispObject::constant_nil()));
            },
        }
        i = i + 1;
    }
    let r = LispSubCharTable { depth: s.depth, min_char: s.min_char, contents };
    assert(r.contents@ =~= s.contents@);
    r
}

impl CharTables {
    /// A new table of the store, as `make-char-table` makes it: PURPOSE,
    /// N_EXTRAS extra slots, and INIT in every slot (the default and the
    /// extra slots included); no parent.
    pub fn make_char_table(&mut self, purpose: LispObject, init: LispObject, n_extras: usize) -> (r: LispCharTableRef)
        requires
            old(self).wf(),
            old(self).view().len() < MAX_OBJECTS,
            n_extras <= 10,
            purpose == old(self).case_table_sym() ==> n_extras >= 3,
        ensures
            final(self).wf(),
            final(self).property_table_sym() == old(self).property_table_sym(),
            final(self).case_table_sym() == old(self).case_table_sym(),
            final(self).view().len() == old(self).view().len() + 1,
            forall|u: int| 0 <= u < old(self).view().len() ==> #[trigger] final(self).view()[u] == old(self).view()[u],
            r.index() == old(self).view().len(),
            final(self).has(r),
            final(self).view()[r.index()].purpose == purpose,
            final(self).view()[r.index()].defalt == init,
            final(self).view()[r.index()].parent == LispObject(0),
            final(self).view()[r.index()].ascii == ChartabSlot::Value(init),
            final(self).view()[r.index()].contents@.len() == 64,
            forall|i: int| 0 <= i < 64 ==> #[trigger] final(self).view()[r.index()].contents@[i] == ChartabSlot::Value(init),
            final(self).view()[r.index()].extras@ == Seq::new(n_extras as nat, |i: int| init),
            extra_slots_of(final(self).view()[r.index()]) == 4 + n_extras,
    {
        let mut contents: Vec<ChartabSlot> = Vec::new();
        let mut i: usize = 0;
        while i < 64
            invariant
                i <= 64,
                contents@.len() == i,
                forall|k: int| 0 <= k < i ==> #[trigger] contents@[k] == ChartabSlot::Value(init),
            decreases 64 - i,
        {
            contents.push(ChartabSlot::Value(init));
            i = i + 1;
        }
        let mut extras: Vec<LispObject> = Vec::new();
        let mut j: usize = 0;
        while j < n_extras
            invariant
                j <= n_extras,
                extras@.len() == j,
                forall|k: int| 0 <= k < j ==> #[trigger] extras@[k] == init,
            decreases n_extras - j,
        {
            extras.push(init);
            j = j + 1;
        }
        let m: isize = (CHAR_TABLE_STANDARD_SLOTS + n_extras) as isize;
        assert(m & 0xfff == m) by (bit_vector)
            requires
                0 <= m < 0x1000,
        ;
        let t = LispCharTable {
            size: m,
            defalt: init,
            parent: LispObject::constant_nil(),
            purpose,
            ascii: ChartabSlot::Value(init),
            contents,
            extras,
        };
        assert(t.extras@ =~= Seq::new(n_extras as nat, |i: int| init));
        assert(table_wf(t, self.view().len() as int));
        self.push(t)
    }

    /// Stores V as the value of the code C (below 128) in the table `t`:
    /// the `ascii` slot becomes a bottom sub char table (made from the
    /// slot's value if it held one) with V at C, and the first top-level
    /// slot leads, through sub tables of depth 1 and 2 made the same way
    /// where it held values, to the same bottom table.  The other codes of
    /// that slot, 128 to 0xFFFF, keep the values it gave them.
    pub fn set_ascii_char(&mut self, t: LispCharTableRef, c: usize, v: LispObject)
        requires
            old(self).wf(),
            old(self).has(t),
            c < 128,
        ensures
            final(self).wf(),
            final(self).property_table_sym() == old(self).property_table_sym(),
            final(self).case_table_sym() == old(self).case_table_sym(),
            final(self).view().len() == old(self).view().len(),
            forall|u: int| 0 <= u < old(self).view().len() && u != t.index() ==> #[trigger] final(self).view()[u] == old(self).view()[u],
            final(self).view()[t.index()].purpose == old(self).view()[t.index()].purpose,
            final(self).view()[t.index()].parent == old(self).view()[t.index()].parent,
            final(self).view()[t.index()].defalt == old(self).view()[t.index()].defalt,
            final(self).view()[t.index()].size == old(self).view()[t.index()].size,
            final(self).view()[t.index()].extras == old(self).view()[t.index()].extras,
            final(self).view()[t.index()].ascii is Sub,
            forall|i: int| 1 <= i < 64 ==> #[trigger] final(self).view()[t.index()].contents@[i] == old(self).view()[t.index()].contents@[i],
            forall|k: int|
                0 <= k < 128 ==> #[trigger] ascii_value(final(self).view()[t.index()], k) == if k == c {
                    v
                } else {
                    ascii_value(old(self).view()[t.index()], k)
                },
            forall|hh: LispHeap, k: int|
                128 <= k < 0x10000 ==> #[trigger] slot_lookup(&hh, final(self).view()[t.index()].contents@[0], k)
                    == slot_lookup(&hh, old(self).view()[t.index()].contents@[0], k),
    {
        let ghost tabs0 = self.view();
        let ghost n = tabs0.len() as int;
        let tab = self.tables.remove(t.0);
        assert(tab == tabs0[t.index()]);
        assert(table_wf(tab, n));
        let LispCharTable { size, defalt, parent, purpose, ascii, mut contents, extras } = tab;
        let mut bottom = match ascii {
            ChartabSlot::Sub(s) => s,
            ChartabSlot::Value(d) => make_sub_char_table(3, 0, d),
        };
        let ghost b0 = bottom;
        bottom.contents.set(c, ChartabSlot::Value(v));
        assert(sub_wf(bottom)) by {
            assert(forall|k: int|
                #![trigger bottom.contents@[k]]
                0 <= k < bottom.contents@.len() && k != c ==> bottom.contents@[k] == b0.contents@[k]);
        }
        let copy = copy_bottom_table(&bottom);
        let c0 = contents.remove(0);
        assert(table_wf(tab, n));
        let mut s1 = match c0 {
            ChartabSlot::Sub(s) => s,
            ChartabSlot::Value(d) => make_sub_char_table(1, 0, d),
        };
        let ghost s1a = s1;
        let x = s1.contents.remove(0);
        proof {
            assert(match s1a.contents@[0] {
                ChartabSlot::Value(_) => true,
                ChartabSlot::Sub(u) => u.depth == 2 && u.min_char == 0 && sub_wf(u),
            });
        }
        let mut s2 = match x {
            ChartabSlot::Sub(s) => s,
            ChartabSlot::Value(d) => make_sub_char_table(2, 0, d),
        };
        let ghost s2a = s2;
        s2.contents.set(0, ChartabSlot::Sub(copy));
        assert(sub_wf(s2)) by {
            assert(forall|k: int|
                #![trigger s2.contents@[k]]
                0 <= k < s2.contents@.len() && k != 0 ==> s2.contents@[k] == s2a.contents@[k]);
            assert(forall|k: int|
                #![trigger s2a.contents@[k]]
                0 <= k < s2a.contents@.len() ==> match s2a.contents@[k] {
                    ChartabSlot::Value(_) => true,
                    ChartabSlot::Sub(u) => u.depth == 3 && u.min_char == k * 0x80 && sub_wf(u),
                });
        }
        s1.contents.insert(0, ChartabSlot::Sub(s2));
        assert(s1.contents@ =~= s1a.contents@.update(0, ChartabSlot::Sub(s2)));
        assert(sub_wf(s1)) by {
            assert(forall|k: int|
                #![trigger s1a.contents@[k]]
                0 <= k < s1a.contents@.len() ==> match s1a.contents@[k] {
                    ChartabSlot::Value(_) => true,
                    ChartabSlot::Sub(u) => u.depth == 2 && u.min_char == k * 0x1000 && sub_wf(u),
                });
        }
        let ghost contents_a = contents@;
        contents.insert(0, ChartabSlot::Sub(s1));
        assert(contents@ =~= tab.contents@.update(0, ChartabSlot::Sub(s1)));
        let tab2 = LispCharTable { size, defalt, parent, purpose, ascii: ChartabSlot::Sub(bottom), contents, extras };
        assert(table_wf(tab2, n)) by {
            assert(forall|i: int|
                #![trigger tab.contents@[i]]
                0 <= i < 64 ==> match tab.contents@[i] {
                    ChartabSlot::Value(_) => true,
                    ChartabSlot::Sub(s) => s.depth == 1 && s.min_char == i * 0x10000 && sub_wf(s),
                });
        }
        proof {
            assert forall|hh: LispHeap, k: int| 128 <= k < 0x10000 implies #[trigger] slot_lookup(&hh, tab2.contents@[0], k)
                == slot_lookup(&hh, tab.contents@[0], k) by {
                if k >= 0x1000 {
                    lemma_first_slot_replaced(&hh, tab.contents@[0], s1, k);
                } else {
                    assert(k / 0x1000 == 0);
                    assert(s1.contents@[0] == ChartabSlot::Sub(s2));
                    lemma_first_slot_replaced(&hh, s1a.contents@[0], s2, k);
                    assert(slot_lookup(&hh, tab2.contents@[0], k) == slot_lookup(&hh, ChartabSlot::Sub(s2), k));
                    assert(slot_lookup(&hh, tab.contents@[0], k) == slot_lookup(&hh, s1a.contents@[0], k));
                }
            }
        }
        self.tables.insert(t.0, tab2);
        proof {
            let tabs2 = self.view();
            assert(tabs2 =~= tabs0.update(t.index(), tab2));
            assert forall|u: int| 0 <= u < n implies #[trigger] table_wf(tabs2[u], n) by {
                assert(table_wf(tabs0[u], n));
            }
            assert forall|u: int| 0 <= u < n && #[trigger] tabs2[u].purpose == self.case_table_sym() implies tabs2[u].extras@.len()
                >= 3 by {
                assert(tabs0[u].purpose == self.case_table_sym() ==> tabs0[u].extras@.len() >= 3);
            }
            assert forall|u: int| 0 <= u < n implies #[trigger] parent_index(tabs2, u) == parent_index(tabs0, u) by {}
            assert forall|u: nat| u < n implies #[trigger] chain_ends(tabs2, u) by {
                assert(chain_ends(tabs0, u));
                let m = choose|m: nat| #[trigger] walk_parents(tabs0, Some(u), m) is None;
                lemma_walk_same_parents(tabs0, tabs2, Some(u), m);
            }
            assert forall|k: int| 0 <= k < 128 implies #[trigger] ascii_value(tabs2[t.index()], k) == if k == c {
                v
            } else {
                ascii_value(tabs0[t.index()], k)
            } by {
                assert(bottom.contents@[k] == if k == c { ChartabSlot::Value(v) } else { b0.contents@[k] });
            }
        }
    }
}

/// Two stores whose tables have the same parents have the same walks.
proof fn lemma_walk_same_parents(tabs: Seq<LispCharTable>, tabs2: Seq<LispCharTable>, o: Option<nat>, k: nat)
    requires
        tabs2.len() == tabs.len(),
        forall|u: int| 0 <= u < tabs.len() ==> #[trigger] parent_index(tabs2, u) == parent_index(tabs, u),
        forall|u: int| 0 <= u < tabs.len() ==> (#[trigger] parent_index(tabs, u) matches Some(p) ==> p < tabs.len()),
        o matches Some(u) ==> u < tabs.len(),
    ensures
        walk_parents(tabs2, o, k) == walk_parents(tabs, o, k),
    decreases k,
{
    if k > 0 {
        match o {
            None => {},
            Some(u) => {
                assert(parent_index(tabs2, u as int) == parent_index(tabs, u as int));
                lemma_walk_same_parents(tabs, tabs2, parent_index(tabs, u as int), (k - 1) as nat);
            },
        }
    }
}

/// Whether a slot value is a value of the heap or a char table.
pub open spec fn value_ok(h: &LispHeap, n: int, v: LispObject) -> bool {
    h.valid(v) || char_table_index(n, v) is Some
}

/// Whether the values in the slots of a sub char table are values of
/// the heap.
pub open spec fn sub_values_ok(h: &LispHeap, s: LispSubCharTable) -> bool
    decreases s,
{
    forall|i: int|
        #![trigger s.contents@[i]]
        0 <= i < s.contents@.len() ==> match s.contents@[i] {
            ChartabSlot::Value(v) => h.valid(v),
            ChartabSlot::Sub(t) => sub_values_ok(h, t),
        }
}

/// Whether a slot holds a value of the heap or a sub char table whose
/// values are.
pub open spec fn slot_ok(h: &LispHeap, x: ChartabSlot) -> bool {
    match x {
        ChartabSlot::Value(v) => h.valid(v),
        ChartabSlot::Sub(t) => sub_values_ok(h, t),
    }
}

/// Whether every value a table holds is a value of the heap, or (in its
/// default, parent, purpose and extra slots) a char table.
pub open spec fn table_values_ok(h: &LispHeap, t: LispCharTable, n: int) -> bool {
    &&& value_ok(h, n, t.defalt)
    &&& value_ok(h, n, t.parent)
    &&& value_ok(h, n, t.purpose)
    &&& slot_ok(h, t.ascii)
    &&& forall|i: int| 0 <= i < t.contents@.len() ==> #[trigger] slot_ok(h, t.contents@[i])
    &&& forall|i: int| 0 <= i < t.extras@.len() ==> #[trigger] value_ok(h, n, t.extras@[i])
}

/// The two results in order, stopping at the first that is not `true`.
pub open spec fn then_eq(a: Result<bool, LispError>, b: Result<bool, LispError>) -> Result<bool, LispError> {
    match a {
        Err(e) => Err(e),
        Ok(false) => Ok(false),
        Ok(true) => b,
    }
}

/// `equal` of two slot values at depth `d`: char tables are compared as
/// char tables, other values with `equal`.
pub open spec fn tab_value_eq(tabs: Seq<LispCharTable>, h: &LispHeap, v1: LispObject, v2: LispObject, d: int) -> Result<
    bool,
    LispError,
>
    decreases 201 - d, 3int, 0int,
{
    let n = tabs.len() as int;
    if d > 200 {
        Err(LispError::Error(ErrorMessage::StackOverflowInEqual))
    } else if v1 == v2 {
        Ok(true)
    } else {
        match (char_table_index(n, v1), char_table_index(n, v2)) {
            (Some(a), Some(b)) => tab_equal(tabs, h, a as int, b as int, d),
            (None, None) => equal_in_spec(h, tabs, v1, v2, d),
            _ => Ok(false),
        }
    }
}

/// `equal` of two slots at depth `d`.
pub open spec fn slot_eq(tabs: Seq<LispCharTable>, h: &LispHeap, x: ChartabSlot, y: ChartabSlot, d: int) -> Result<
    bool,
    LispError,
>
    decreases 201 - d, 4int, 0int,
{
    match (x, y) {
        (ChartabSlot::Value(v1), ChartabSlot::Value(v2)) => tab_value_eq(tabs, h, v1, v2, d),
        (ChartabSlot::Sub(s1), ChartabSlot::Sub(s2)) => if d > 200 {
            Err(LispError::Error(ErrorMessage::StackOverflowInEqual))
        } else {
            sub_equal(tabs, h, s1, s2, d)
        },
        _ => if d > 200 {
            Err(LispError::Error(ErrorMessage::StackOverflowInEqual))
        } else {
            Ok(false)
        },
    }
}

/// The slots from `i` to `n` of two sequences are pairwise `equal` at
/// depth `d`, stopping at the first pair that is not.
pub open spec fn slots_eq(
    tabs: Seq<LispCharTable>,
    h: &LispHeap,
    s1: Seq<ChartabSlot>,
    s2: Seq<ChartabSlot>,
    i: int,
    n: int,
    d: int,
) -> Result<bool, LispError>
    decreases 201 - d, 5int, n - i,
{
    if i >= n {
        Ok(true)
    } else {
        then_eq(slot_eq(tabs, h, s1[i], s2[i], d), slots_eq(tabs, h, s1, s2, i + 1, n, d))
    }
}

/// The values from `i` to `n` of two sequences are pairwise `equal` at
/// depth `d`, stopping at the first pair that is not.
pub open spec fn values_eq(
    tabs: Seq<LispCharTable>,
    h: &LispHeap,
    e1: Seq<LispObject>,
    e2: Seq<LispObject>,
    i: int,
    n: int,
    d: int,
) -> Result<bool, LispError>
    decreases 201 - d, 5int, n - i,
{
    if i >= n {
        Ok(true)
    } else {
        then_eq(tab_value_eq(tabs, h, e1[i], e2[i], d), values_eq(tabs, h, e1, e2, i + 1, n, d))
    }
}

/// `LispSubCharTableRef::equal`: same depth and first code, and slots
/// pairwise `equal` one level deeper.
pub open spec fn sub_equal(tabs: Seq<LispCharTable>, h: &LispHeap, s1: LispSubCharTable, s2: LispSubCharTable, d: int) -> Result<
    bool,
    LispError,
>
    decreases 201 - d, 1int, 0int,
{
    if s1.contents@.len() != s2.contents@.len() || s1.depth != s2.depth || s1.min_char != s2.min_char {
        Ok(false)
    } else if d + 1 > 200 {
        if s1.contents@.len() == 0 {
            Ok(true)
        } else {
            Err(LispError::Error(ErrorMessage::StackOverflowInEqual))
        }
    } else {
        slots_eq(tabs, h, s1.contents@, s2.contents@, 0, s1.contents@.len() as int, d + 1)
    }
}

/// `LispCharTableRef::equal` of the tables number `a` and `b` at depth
/// `d`: the same number of Lisp slots, then default, parent, purpose,
/// `ascii`, the top-level slots and the extra slots pairwise `equal` one
/// level deeper.
pub open spec fn tab_equal(tabs: Seq<LispCharTable>, h: &LispHeap, a: int, b: int, d: int) -> Result<bool, LispError>
    decreases 201 - d, 1int, 0int,
{
    let t1 = tabs[a];
    let t2 = tabs[b];
    let size1 = t1.size & PSEUDOVECTOR_SIZE_MASK;
    let size2 = t2.size & PSEUDOVECTOR_SIZE_MASK;
    if size1 != size2 {
        Ok(false)
    } else if d + 1 > 200 {
        Err(LispError::Error(ErrorMessage::StackOverflowInEqual))
    } else {
        let extras = if size1 > 68 {
            size1 - 68
        } else {
            0
        };
        let n = if size1 > 68 {
            64
        } else {
            size1 - 4
        };
        then_eq(
            tab_value_eq(tabs, h, t1.defalt, t2.defalt, d + 1),
            then_eq(
                tab_value_eq(tabs, h, t1.parent, t2.parent, d + 1),
                then_eq(
                    tab_value_eq(tabs, h, t1.purpose, t2.purpose, d + 1),
                    then_eq(
                        slot_eq(tabs, h, t1.ascii, t2.ascii, d + 1),
                        then_eq(
                            slots_eq(tabs, h, t1.contents@, t2.contents@, 0, n as int, d + 1),
                            values_eq(tabs, h, t1.extras@, t2.extras@, 0, extras as int, d + 1),
                        ),
                    ),
                ),
            ),
        )
    }
}

/// Whether every table of the store holds only values of the heap or
/// char tables.
pub open spec fn tabs_values_ok(tabs: &CharTables, h: &LispHeap) -> bool {
    forall|t: int| 0 <= t < tabs.view().len() ==> #[trigger] table_values_ok(h, tabs.view()[t], tabs.view().len() as int)
}

/// `equal` of two slot values at depth DEPTH (char tables compared as
/// char tables).
fn value_equal(tabs: &CharTables, h: &LispHeap, v1: LispObject, v2: LispObject, kind: EqualKind, depth: i32) -> (r: Result<
    bool,
    LispError,
>)
    requires
        tabs.wf(),
        h.wf(),
        tabs_values_ok(tabs, h),
        value_ok(h, tabs.view().len() as int, v1),
        value_ok(h, tabs.view().len() as int, v2),
    ensures
        r == tab_value_eq(tabs.view(), h, v1, v2, depth as int),
    decreases 201 - depth, 3int,
{
    if depth > 200 {
        return Err(LispError::Error(ErrorMessage::StackOverflowInEqual));
    }
    if v1.eq(v2) {
        return Ok(true);
    }
    match (tabs.as_char_table(v1), tabs.as_char_table(v2)) {
        (Some(a), Some(b)) => a.equal(tabs, h, b, kind, depth),
        (None, None) => rust_internal_equal(h, tabs, v1, v2, kind, depth),
        _ => Ok(false),
    }
}

/// `equal` of two slots at depth DEPTH.
fn slot_equal(tabs: &CharTables, h: &LispHeap, x: &ChartabSlot, y: &ChartabSlot, kind: EqualKind, depth: i32) -> (r: Result<
    bool,
    LispError,
>)
    requires
        tabs.wf(),
        h.wf(),
        tabs_values_ok(tabs, h),
        slot_ok(h, *x),
        slot_ok(h, *y),
    ensures
        r == slot_eq(tabs.view(), h, *x, *y, depth as int),
    decreases 201 - depth, 4int,
{
    match (x, y) {
        (ChartabSlot::Value(v1), ChartabSlot::Value(v2)) => value_equal(tabs, h, *v1, *v2, kind, depth),
        (ChartabSlot::Sub(s1), ChartabSlot::Sub(s2)) => {
            if depth > 200 {
                return Err(LispError::Error(ErrorMessage::StackOverflowInEqual));
            }
            s1.equal(tabs, h, s2, kind, depth)
        },
        _ => {
            if depth > 200 {
                return Err(LispError::Error(ErrorMessage::StackOverflowInEqual));
            }
            Ok(false)
        },
    }
}

/// The first N slots of two sequences are pairwise `equal` at DEPTH.
fn slots_equal(
    tabs: &CharTables,
    h: &LispHeap,
    s1: &Vec<ChartabSlot>,
    s2: &Vec<ChartabSlot>,
    n: usize,
    kind: EqualKind,
    depth: i32,
) -> (r: Result<bool, LispError>)
    requires
        tabs.wf(),
        h.wf(),
        tabs_values_ok(tabs, h),
        n <= s1@.len(),
        n <= s2@.len(),
        forall|i: int| 0 <= i < n ==> #[trigger] slot_ok(h, s1@[i]),
        forall|i: int| 0 <= i < n ==> #[trigger] slot_ok(h, s2@[i]),
    ensures
        r == slots_eq(tabs.view(), h, s1@, s2@, 0, n as int, depth as int),
    decreases 201 - depth, 5int,
{
    let mut i: usize = 0;
    while i < n
        invariant
            tabs.wf(),
            h.wf(),
            tabs_values_ok(tabs, h),
            n <= s1@.len(),
            n <= s2@.len(),
            forall|k: int| 0 <= k < n ==> #[trigger] slot_ok(h, s1@[k]),
            forall|k: int| 0 <= k < n ==> #[trigger] slot_ok(h, s2@[k]),
                i <= n,
            slots_eq(tabs.view(), h, s1@, s2@, 0, n as int, depth as int) == slots_eq(
                tabs.view(),
                h,
                s1@,
                s2@,
                i as int,
                n as int,
                depth as int,
            ),
        decreases n - i,
    {
        assert(slot_ok(h, s1@[i as int]));
        assert(slot_ok(h, s2@[i as int]));
        match slot_equal(tabs, h, &s1[i], &s2[i], kind, depth) {
            Ok(true) => {},
            Ok(false) => {
                return Ok(false);
            },
            Err(e) => {
                return Err(e);
            },
        }
        i = i + 1;
    }
    Ok(true)
}

/// The first N values of two sequences are pairwise `equal` at DEPTH.
fn values_equal(
    tabs: &CharTables,
    h: &LispHeap,
    e1: &Vec<LispObject>,
    e2: &Vec<LispObject>,
    n: usize,
    kind: EqualKind,
    depth: i32,
) -> (r: Result<bool, LispError>)
    requires
        tabs.wf(),
        h.wf(),
        tabs_values_ok(tabs, h),
        n <= e1@.len(),
        n <= e2@.len(),
        forall|i: int| 0 <= i < n ==> #[trigger] value_ok(h, tabs.view().len() as int, e1@[i]),
        forall|i: int| 0 <= i < n ==> #[trigger] value_ok(h, tabs.view().len() as int, e2@[i]),
    ensures
        r == values_eq(tabs.view(), h, e1@, e2@, 0, n as int, depth as int),
    decreases 201 - depth, 5int,
{
    let mut i: usize = 0;
    while i < n
        invariant
            tabs.wf(),
            h.wf(),
            tabs_values_ok(tabs, h),
            n <= e1@.len(),
            n <= e2@.len(),
            forall|k: int| 0 <= k < n ==> #[trigger] value_ok(h, tabs.view().len() as int, e1@[k]),
            forall|k: int| 0 <= k < n ==> #[trigger] value_ok(h, tabs.view().len() as int, e2@[k]),
                i <= n,
            values_eq(tabs.view(), h, e1@, e2@, 0, n as int, depth as int) == values_eq(
                tabs.view(),
                h,
                e1@,
                e2@,
                i as int,
                n as int,
                depth as int,
            ),
        decreases n - i,
    {
        assert(value_ok(h, tabs.view().len() as int, e1@[i as int]));
        assert(value_ok(h, tabs.view().len() as int, e2@[i as int]));
        match value_equal(tabs, h, e1[i], e2[i], kind, depth) {
            Ok(true) => {},
            Ok(false) => {
                return Ok(false);
            },
            Err(e) => {
                return Err(e);
            },
        }
        i = i + 1;
    }
    Ok(true)
}

impl LispSubCharTable {
    /// Whether two sub char tables have the same depth and first code and
    /// pairwise `equal` slots (compared one level deeper than DEPTH).
    pub fn equal(&self, tabs: &CharTables, h: &LispHeap, other: &LispSubCharTable, kind: EqualKind, depth: i32) -> (r: Result<
        bool,
        LispError,
    >)
        requires
            tabs.wf(),
            h.wf(),
            tabs_values_ok(tabs, h),
            sub_values_ok(h, *self),
            sub_values_ok(h, *other),
        ensures
            r == sub_equal(tabs.view(), h, *self, *other, depth as int),
        decreases 201 - depth, 1int,
    {
        let size1 = self.contents.len();
        let size2 = other.contents.len();
        if size1 != size2 {
            return Ok(false);
        }
        if self.depth != other.depth {
            return Ok(false);
        }
        if self.min_char != other.min_char {
            return Ok(false);
        }
        if depth >= 200 {
            if size1 == 0 {
                return Ok(true);
            }
            return Err(LispError::Error(ErrorMessage::StackOverflowInEqual));
        }
        proof {
            assert forall|i: int| 0 <= i < size1 implies #[trigger] slot_ok(h, self.contents@[i]) by {
                assert(match self.contents@[i] {
                    ChartabSlot::Value(v) => h.valid(v),
                    ChartabSlot::Sub(t) => sub_values_ok(h, t),
                });
            }
            assert forall|i: int| 0 <= i < size1 implies #[trigger] slot_ok(h, other.contents@[i]) by {
                assert(match other.contents@[i] {
                    ChartabSlot::Value(v) => h.valid(v),
                    ChartabSlot::Sub(t) => sub_values_ok(h, t),
                });
            }
        }
        slots_equal(tabs, h, &self.contents, &other.contents, size1, kind, depth + 1)
    }
}

impl LispCharTableRef {
    /// Whether two char tables have the same number of Lisp slots and
    /// pairwise `equal` default, parent, purpose, `ascii` slot, top-level
    /// slots and extra slots (compared one level deeper than DEPTH).
    pub fn equal(self, tabs: &CharTables, h: &LispHeap, other: LispCharTableRef, kind: EqualKind, depth: i32) -> (r: Result<
        bool,
        LispError,
    >)
        requires
            tabs.wf(),
            tabs.has(self),
            tabs.has(other),
            h.wf(),
            tabs_values_ok(tabs, h),
        ensures
            r == tab_equal(tabs.view(), h, self.index(), other.index(), depth as int),
        decreases 201 - depth, 1int,
    {
        let t1 = &tabs.tables[self.0];
        let t2 = &tabs.tables[other.0];
        let n = tabs.tables.len();
        proof {
            assert(table_wf(*t1, n as int));
            assert(table_wf(*t2, n as int));
            assert(table_values_ok(h, *t1, n as int));
            assert(table_values_ok(h, *t2, n as int));
        }
        let size1 = t1.size & PSEUDOVECTOR_SIZE_MASK;
        let size2 = t2.size & PSEUDOVECTOR_SIZE_MASK;
        if size1 != size2 {
            return Ok(false);
        }
        if depth >= 200 {
            return Err(LispError::Error(ErrorMessage::StackOverflowInEqual));
        }
        let mut size = size1 as usize;
        let extras: usize = if size > CHAR_TABLE_STANDARD_SLOTS {
            let tmp = size - CHAR_TABLE_STANDARD_SLOTS;
            size = CHAR_TABLE_STANDARD_SLOTS;
            tmp
        } else {
            0
        };
        size = size - 4;
        let d = depth + 1;
        match value_equal(tabs, h, t1.defalt, t2.defalt, kind, d) {
            Ok(true) => {},
            other => {
                return other;
            },
        }
        match value_equal(tabs, h, t1.parent, t2.parent, kind, d) {
            Ok(true) => {},
            other => {
                return other;
            },
        }
        match value_equal(tabs, h, t1.purpose, t2.purpose, kind, d) {
            Ok(true) => {},
            other => {
                return other;
            },
        }
        match slot_equal(tabs, h, &t1.ascii, &t2.ascii, kind, d) {
            Ok(true) => {},
            other => {
                return other;
            },
        }
        match slots_equal(tabs, h, &t1.contents, &t2.contents, size, kind, d) {
            Ok(true) => {},
            other => {
                return other;
            },
        }
        values_equal(tabs, h, &t1.extras, &t2.extras, extras, kind, d)
    }
}

/// The slots of a sequence are `equal` to themselves.
proof fn lemma_slots_eq_refl(tabs: Seq<LispCharTable>, h: &LispHeap, c: Seq<ChartabSlot>, i: int, n: int, d: int, depth: int)
    requires
        0 <= d <= 200,
        0 <= i,
        n <= c.len(),
        1 <= depth <= 4,
        d + 4 - depth <= 200,
        forall|k: int|
            #![trigger c[k]]
            0 <= k < c.len() ==> match c[k] {
                ChartabSlot::Value(_) => true,
                ChartabSlot::Sub(t) => t.depth == depth && sub_wf(t),
            },
    ensures
        slots_eq(tabs, h, c, c, i, n, d) == Ok::<bool, LispError>(true),
    decreases 4 - depth, n - i,
{
    if i < n {
        lemma_slots_eq_refl(tabs, h, c, i + 1, n, d, depth);
        match c[i] {
            ChartabSlot::Value(v) => {
                assert(tab_value_eq(tabs, h, v, v, d) == Ok::<bool, LispError>(true));
            },
            ChartabSlot::Sub(t) => {
                assert(t.depth == depth && sub_wf(t));
                lemma_sub_equal_refl(tabs, h, t, d);
            },
        }
        assert(slot_eq(tabs, h, c[i], c[i], d) == Ok::<bool, LispError>(true));
    }
}

/// A sub char table is `equal` to itself.
proof fn lemma_sub_equal_refl(tabs: Seq<LispCharTable>, h: &LispHeap, s: LispSubCharTable, d: int)
    requires
        sub_wf(s),
        0 <= d,
        d + 4 - s.depth <= 200,
    ensures
        sub_equal(tabs, h, s, s, d) == Ok::<bool, LispError>(true),
    decreases 4 - s.depth, 0int,
{
    if s.depth < 3 {
        lemma_slots_eq_refl(tabs, h, s.contents@, 0, s.contents@.len() as int, d + 1, s.depth + 1);
    } else {
        assert forall|k: int| 0 <= k < s.contents@.len() implies #[trigger] s.contents@[k] is Value by {
            assert(match s.contents@[k] {
                ChartabSlot::Value(_) => true,
                ChartabSlot::Sub(t) => t.depth == s.depth + 1 && sub_wf(t),
            });
        }
        lemma_slots_eq_refl(tabs, h, s.contents@, 0, s.contents@.len() as int, d + 1, 4);
    }
}

/// A law of char tables: every char table is `equal` to itself.
pub proof fn lemma_char_table_equal_refl(tabs: &CharTables, h: &LispHeap, t: LispCharTableRef)
    requires
        tabs.wf(),
        tabs.has(t),
    ensures
        tab_equal(tabs.view(), h, t.index(), t.index(), 0) == Ok::<bool, LispError>(true),
{
    let v = tabs.view();
    let tab = v[t.index()];
    assert(table_wf(tab, v.len() as int));
    let size1 = tab.size & PSEUDOVECTOR_SIZE_MASK;
    let extras = if size1 > 68 { size1 - 68 } else { 0 };
    let n = if size1 > 68 { 64 } else { size1 - 4 };
    lemma_slots_eq_refl(v, h, tab.contents@, 0, n as int, 1, 1);
    match tab.ascii {
        ChartabSlot::Value(_) => {},
        ChartabSlot::Sub(s) => {
            lemma_sub_equal_refl(v, h, s, 1);
        },
    }
    lemma_values_eq_refl(v, h, tab.extras@, 0, extras as int, 1);
    assert(tab_value_eq(v, h, tab.defalt, tab.defalt, 1) == Ok::<bool, LispError>(true));
    assert(tab_value_eq(v, h, tab.parent, tab.parent, 1) == Ok::<bool, LispError>(true));
    assert(tab_value_eq(v, h, tab.purpose, tab.purpose, 1) == Ok::<bool, LispError>(true));
    assert(slot_eq(v, h, tab.ascii, tab.ascii, 1) == Ok::<bool, LispError>(true));
}

/// The values of a sequence are `equal` to themselves.
proof fn lemma_values_eq_refl(tabs: Seq<LispCharTable>, h: &LispHeap, e: Seq<LispObject>, i: int, n: int, d: int)
    requires
        0 <= d <= 200,
    ensures
        values_eq(tabs, h, e, e, i, n, d) == Ok::<bool, LispError>(true),
    decreases n - i,
{
    if i < n {
        lemma_values_eq_refl(tabs, h, e, i + 1, n, d);
        assert(tab_value_eq(tabs, h, e[i], e[i], d) == Ok::<bool, LispError>(true));
    }
}

} // verus!
