//! Symbols: their names, function and property cells, and the chains of
//! variable aliases that lead to the symbol holding a value.
//!
//! The symbol number `i` is the word `8 * i` (so `nil` is symbol 0 and `t`
//! symbol 1).
use vstd::prelude::*;

use crate::error::{LispError, TypePredicate};
use crate::heap::LispHeap;
use crate::tag::{word_tag, LispObject};

verus! {

/// How a symbol holds its value.
#[derive(PartialEq, Eq, Structural, Clone, Copy, Debug)]
pub enum SymbolRedirect {
    PlainVal,
    VarAlias,
    Localized,
    Forwarded,
}

/// A symbol.
pub struct LispSymbol {
    pub name: LispObject,
    pub function: LispObject,
    pub plist: LispObject,
    pub redirect: SymbolRedirect,
    /// The symbol this one is an alias of (for `VarAlias`).
    pub alias: usize,
    /// The value (for `PlainVal`).
    pub value: LispObject,
    pub interned_in_initial_obarray: bool,
    pub constant: bool,
}

/// A reference to a symbol of a `Symbols` store.
#[derive(PartialEq, Eq, Structural, Clone, Copy, Debug)]
pub struct LispSymbolRef(usize);

/// The symbols.
pub struct Symbols {
    syms: Vec<LispSymbol>,
}

/// The symbol after `s` along alias links (`s` itself when it is not an
/// alias).
pub open spec fn alias_step(syms: Seq<LispSymbol>, s: nat) -> nat {
    if s < syms.len() && syms[s as int].redirect == SymbolRedirect::VarAlias {
        syms[s as int].alias as nat
    } else {
        s
    }
}

/// The symbol `k` alias links after `s`.
pub open spec fn alias_at(syms: Seq<LispSymbol>, s: nat, k: nat) -> nat
    decreases k,
{
    if k == 0 {
        s
    } else {
        alias_step(syms, alias_at(syms, s, (k - 1) as nat))
    }
}

/// Whether the symbol number `s` is an alias.
pub open spec fn is_alias_at(syms: Seq<LispSymbol>, s: nat) -> bool {
    s < syms.len() && syms[s as int].redirect == SymbolRedirect::VarAlias
}

impl LispSymbolRef {
    /// The number of the symbol.
    pub closed spec fn index(self) -> int {
        self.0 as int
    }

    /// The word of the symbol.
    pub fn as_lisp_obj(self) -> (o: LispObject)
        requires
            self.index() < 0x1000_0000,
        ensures
            o == LispObject((self.index() * 8) as i64),
    {
        LispObject((self.0 as i64) * 8)
    }
}

impl Symbols {
    /// The symbols of the store.
    pub closed spec fn view(&self) -> Seq<LispSymbol> {
        self.syms@
    }

    /// Well-formedness: aliases name symbols of the store, which fits the
    /// words.
    pub open spec fn wf(&self) -> bool {
        &&& self.view().len() < 0x1000_0000
        &&& forall|i: int|
            0 <= i < self.view().len() && #[trigger] self.view()[i].redirect == SymbolRedirect::VarAlias
                ==> self.view()[i].alias < self.view().len()
    }

    /// Whether the reference names a symbol of the store.
    pub open spec fn has(&self, s: LispSymbolRef) -> bool {
        0 <= s.index() < self.view().len()
    }

    /// An empty store.
    pub fn new() -> (r: Symbols)
        ensures
            r.wf(),
            r.view() == Seq::<LispSymbol>::empty(),
    {
        Symbols { syms: Vec::new() }
    }

    /// Adds a symbol.
    pub fn push(&mut self, s: LispSymbol) -> (r: LispSymbolRef)
        requires
            old(self).wf(),
            old(self).view().len() + 1 < 0x1000_0000,
            s.redirect == SymbolRedirect::VarAlias ==> s.alias <= old(self).view().len(),
        ensures
            final(self).wf(),
            final(self).view() == old(self).view().push(s),
            r.index() == old(self).view().len(),
    {
        let n = self.syms.len();
        self.syms.push(s);
        proof {
            assert forall|i: int|
                0 <= i < self.view().len() && #[trigger] self.view()[i].redirect == SymbolRedirect::VarAlias
                    implies self.view()[i].alias < self.view().len() by {
                if i < n {
                    assert(old(self).view()[i].redirect == SymbolRedirect::VarAlias);
                }
            }
        }
        LispSymbolRef(n)
    }

    /// The symbol a word refers to, if any.
    pub fn as_symbol(&self, o: LispObject) -> (r: Option<LispSymbolRef>)
        requires
            self.wf(),
        ensures
            r is Some == (word_tag(o.0) == 0 && 0 <= o.0 / 8 < self.view().len()),
            r matches Some(s) ==> self.has(s) && s.index() == o.0 / 8,
    {
        if o.is_symbol() && o.0 >= 0 && o.0 / 8 < self.syms.len() as i64 {
            Some(LispSymbolRef((o.0 / 8) as usize))
        } else {
            None
        }
    }

    /// The symbol a word refers to, or `wrong-type-argument symbolp`.
    pub fn as_symbol_or_error(&self, o: LispObject) -> (r: Result<LispSymbolRef, LispError>)
        requires
            self.wf(),
        ensures
            r is Ok == (word_tag(o.0) == 0 && 0 <= o.0 / 8 < self.view().len()),
            r matches Ok(s) ==> self.has(s) && s.index() == o.0 / 8,
            r is Err ==> r == Err::<LispSymbolRef, LispError>(LispError::WrongType(TypePredicate::Symbolp, o)),
    {
        match self.as_symbol(o) {
            Some(s) => Ok(s),
            None => Err(LispError::WrongType(TypePredicate::Symbolp, o)),
        }
    }

    /// Sets the alias of a symbol, making it an alias.
    pub fn set_alias(&mut self, s: LispSymbolRef, target: LispSymbolRef)
        requires
            old(self).wf(),
            old(self).has(s),
            old(self).has(target),
        ensures
            final(self).wf(),
            final(self).view().len() == old(self).view().len(),
            alias_step(final(self).view(), s.index() as nat) == target.index(),
            forall|i: int| 0 <= i < old(self).view().len() && i != s.index() ==> #[trigger] final(self).view()[i] == old(
                self,
            ).view()[i],
    {
        let mut sym = self.syms.remove(s.0);
        sym.redirect = SymbolRedirect::VarAlias;
        sym.alias = target.0;
        self.syms.insert(s.0, sym);
        proof {
            assert forall|i: int|
                0 <= i < self.view().len() && #[trigger] self.view()[i].redirect == SymbolRedirect::VarAlias
                    implies self.view()[i].alias < self.view().len() by {
                if i != s.index() {
                    assert(old(self).view()[i] == self.view()[i]);
                }
            }
        }
    }
}

impl LispSymbolRef {
    /// The name of the symbol.
    pub fn symbol_name(self, syms: &Symbols) -> (o: LispObject)
        requires
            syms.has(self),
        ensures
            o == syms.view()[self.index()].name,
    {
        syms.syms[self.0].name
    }

    /// The function cell.
    pub fn get_function(self, syms: &Symbols) -> (o: LispObject)
        requires
            syms.has(self),
        ensures
            o == syms.view()[self.index()].function,
    {
        syms.syms[self.0].function
    }

    /// The property list.
    pub fn get_plist(self, syms: &Symbols) -> (o: LispObject)
        requires
            syms.has(self),
        ensures
            o == syms.view()[self.index()].plist,
    {
        syms.syms[self.0].plist
    }

    /// Whether the symbol is an alias of another.
    pub fn is_alias(self, syms: &Symbols) -> (b: bool)
        requires
            syms.has(self),
        ensures
            b == is_alias_at(syms.view(), self.index() as nat),
    {
        syms.syms[self.0].redirect == SymbolRedirect::VarAlias
    }

    /// The symbol this one is an alias of.
    pub fn get_alias(self, syms: &Symbols) -> (r: LispSymbolRef)
        requires
            syms.wf(),
            syms.has(self),
            is_alias_at(syms.view(), self.index() as nat),
        ensures
            r.index() == alias_step(syms.view(), self.index() as nat),
            syms.has(r),
    {
        LispSymbolRef(syms.syms[self.0].alias)
    }
}

/// Whether the alias chain from `s` reaches a symbol that is not an alias.
pub open spec fn alias_chain_ends(syms: Seq<LispSymbol>, s: nat) -> bool {
    exists|k: nat| !is_alias_at(syms, #[trigger] alias_at(syms, s, k))
}

/// Position `m` is the first of the chain from `s` that is not an alias.
pub open spec fn is_first_end(syms: Seq<LispSymbol>, s: nat, m: nat) -> bool {
    &&& !is_alias_at(syms, alias_at(syms, s, m))
    &&& forall|k: nat| k < m ==> is_alias_at(syms, #[trigger] alias_at(syms, s, k))
}

/// Step `j` is the first (from 1) at which the chain from `s`, walked
/// at two speeds, meets itself.
pub open spec fn is_first_meet(syms: Seq<LispSymbol>, s: nat, j: nat) -> bool {
    &&& j >= 1
    &&& alias_at(syms, s, 2 * j) == alias_at(syms, s, j)
    &&& forall|i: nat| 1 <= i < j ==> alias_at(syms, s, 2 * i) != #[trigger] alias_at(syms, s, i)
}

/// What `get_indirect_variable` gives for the symbol number `s`: the
/// first symbol of its alias chain that is not an alias, or, for a cyclic
/// chain, `cyclic-variable-indirection` with the symbol where the two
/// walks of the chain meet.
pub open spec fn indirect_variable_spec(syms: Seq<LispSymbol>, s: nat) -> Result<nat, LispError> {
    if alias_chain_ends(syms, s) {
        Ok(alias_at(syms, s, choose|m: nat| is_first_end(syms, s, m)))
    } else {
        let j = choose|j: nat| is_first_meet(syms, s, j);
        Err(LispError::CyclicVariableIndirection(LispObject((alias_at(syms, s, 2 * j) * 8) as i64)))
    }
}

/// Equal symbols at two positions of a chain stay equal after as many
/// more steps.
proof fn lemma_alias_shift(syms: Seq<LispSymbol>, s: nat, a: nat, b: nat, t: nat)
    requires
        alias_at(syms, s, a) == alias_at(syms, s, b),
    ensures
        alias_at(syms, s, a + t) == alias_at(syms, s, b + t),
    decreases t,
{
    if t > 0 {
        lemma_alias_shift(syms, s, a, b, (t - 1) as nat);
        assert(alias_at(syms, s, a + t) == alias_step(syms, alias_at(syms, s, (a + t - 1) as nat)));
        assert(alias_at(syms, s, b + t) == alias_step(syms, alias_at(syms, s, (b + t - 1) as nat)));
    }
}

/// A chain that repeats with period `d` from `a` on repeats every
/// multiple of it.
proof fn lemma_alias_period(syms: Seq<LispSymbol>, s: nat, a: nat, d: nat, j: nat, m: nat)
    requires
        alias_at(syms, s, a) == alias_at(syms, s, a + d),
        j >= a,
    ensures
        alias_at(syms, s, j + m * d) == alias_at(syms, s, j),
    decreases m,
{
    if m > 0 {
        lemma_alias_period(syms, s, a, d, j, (m - 1) as nat);
        let k = (j + (m - 1) * d) as nat;
        assert((m - 1) * d >= 0) by (nonlinear_arith)
            requires
                m > 0,
        ;
        assert(k >= a);
        let t = (k - a) as nat;
        lemma_alias_shift(syms, s, a, a + d, t);
        assert(a + t == k);
        assert(a + d + t == k + d);
        assert(alias_at(syms, s, k) == alias_at(syms, s, k + d));
        assert(j + m * d == k + d) by (nonlinear_arith)
            requires
                k == j + (m - 1) * d,
                m > 0,
        ;
    } else {
        assert(m * d == 0) by (nonlinear_arith)
            requires
                m == 0,
        ;
    }
}

/// Every symbol of a chain from a symbol of the store is in the store.
proof fn lemma_alias_in_store(syms: Seq<LispSymbol>, s: nat, k: nat)
    requires
        s < syms.len(),
        forall|i: int| 0 <= i < syms.len() && #[trigger] syms[i].redirect == SymbolRedirect::VarAlias ==> syms[i].alias
            < syms.len(),
    ensures
        alias_at(syms, s, k) < syms.len(),
    decreases k,
{
    if k > 0 {
        lemma_alias_in_store(syms, s, (k - 1) as nat);
    }
}

/// Some step from 1 to the number of symbols meets the chain itself.
proof fn lemma_meet_within(syms: Seq<LispSymbol>, s: nat) -> (j: nat)
    requires
        s < syms.len(),
        forall|i: int| 0 <= i < syms.len() && #[trigger] syms[i].redirect == SymbolRedirect::VarAlias ==> syms[i].alias
            < syms.len(),
    ensures
        1 <= j <= syms.len(),
        alias_at(syms, s, 2 * j) == alias_at(syms, s, j),
{
    let n = syms.len();
    let f = |k: nat| alias_at(syms, s, k);
    assert forall|k: nat| k <= n implies #[trigger] f(k) < n by {
        lemma_alias_in_store(syms, s, k);
    }
    let (a, b) = crate::tails::lemma_pigeonhole(f, n);
    let d = (b - a) as nat;
    let j = (d * (a / d + 1)) as nat;
    assert(j >= a + 1 && j <= a + d && j >= 1) by (nonlinear_arith)
        requires
            d >= 1,
            j == d * (a / d + 1),
    ;
    assert(alias_at(syms, s, a) == alias_at(syms, s, a + d));
    lemma_alias_period(syms, s, a, d, j, (a / d + 1) as nat);
    assert(j + (a / d + 1) * d == 2 * j) by (nonlinear_arith)
        requires
            j == d * (a / d + 1),
    ;
    j
}

/// Once the chain meets itself at step `j`, every symbol from step `j`
/// on is one of the symbols at steps `j` to `2 * j - 1`.
proof fn lemma_after_meet(syms: Seq<LispSymbol>, s: nat, j: nat, k: nat)
    requires
        j >= 1,
        alias_at(syms, s, 2 * j) == alias_at(syms, s, j),
        k >= j,
    ensures
        exists|i: nat| j <= i < 2 * j && alias_at(syms, s, k) == #[trigger] alias_at(syms, s, i),
{
    let r = ((k - j) % (j as int)) as nat;
    let m = ((k - j) / (j as int)) as nat;
    assert(k == (j + r) + m * j && r < j) by (nonlinear_arith)
        requires
            j >= 1,
            k >= j,
            r == (k - j) % (j as int),
            m == (k - j) / (j as int),
    ;
    lemma_alias_period(syms, s, j, j, j + r, m);
    assert(alias_at(syms, s, k) == alias_at(syms, s, j + r));
}

impl LispSymbolRef {
    /// The symbol that holds the value of this one: the end of its chain
    /// of variable aliases; `cyclic-variable-indirection` when the chain
    /// is a cycle (found by walking it at two speeds).
    pub fn get_indirect_variable(self, syms: &Symbols) -> (r: Result<LispSymbolRef, LispError>)
        requires
            syms.wf(),
            syms.has(self),
        ensures
            match indirect_variable_spec(syms.view(), self.index() as nat) {
                Ok(i) => r matches Ok(t) && t.index() == i,
                Err(e) => r == Err::<LispSymbolRef, LispError>(e),
            },
            r matches Ok(t) ==> syms.has(t),
    {
        let ghost v = syms.view();
        let ghost s = self.index() as nat;
        let ghost n = v.len();
        let mut tortoise = self;
        let mut hare = self;
        let ghost mut i: nat = 0;
        while hare.is_alias(syms)
            invariant
                syms.wf(),
                v == syms.view(),
                n == v.len(),
                s == self.index(),
                s < n,
                syms.has(tortoise),
                syms.has(hare),
                tortoise.index() == alias_at(v, s, i),
                hare.index() == alias_at(v, s, 2 * i),
                forall|k: nat| k < 2 * i ==> is_alias_at(v, #[trigger] alias_at(v, s, k)),
                forall|jj: nat| 1 <= jj <= i ==> alias_at(v, s, 2 * jj) != #[trigger] alias_at(v, s, jj),
                i <= n,
            decreases n - i,
        {
            proof {
                if i >= n {
                    let j = lemma_meet_within(v, s);
                    assert(alias_at(v, s, 2 * j) != alias_at(v, s, j));
                }
            }
            hare = hare.get_alias(syms);
            if !hare.is_alias(syms) {
                proof {
                    assert forall|k: nat| k < 2 * i + 1 implies is_alias_at(v, #[trigger] alias_at(v, s, k)) by {
                        if k < 2 * i {
                        }
                    }
                    self.lemma_ends_at(v, s, 2 * i + 1);
                }
                return Ok(hare);
            }
            hare = hare.get_alias(syms);
            tortoise = tortoise.get_alias(syms);
            proof {
                assert(tortoise.index() == alias_at(v, s, i + 1));
                assert(hare.index() == alias_at(v, s, 2 * (i + 1)));
            }
            if hare.0 == tortoise.0 {
                proof {
                    let j = (i + 1) as nat;
                    assert(is_first_meet(v, s, j));
                    assert forall|k: nat| k < 2 * j implies is_alias_at(v, #[trigger] alias_at(v, s, k)) by {
                        if k < 2 * i {
                        } else if k == 2 * i {
                        } else {
                            assert(k == 2 * i + 1);
                        }
                    }
                    if alias_chain_ends(v, s) {
                        let k = choose|k: nat| !is_alias_at(v, #[trigger] alias_at(v, s, k));
                        if k >= j {
                            lemma_after_meet(v, s, j, k);
                        }
                    }
                    self.lemma_meet_unique(v, s, j);
                }
                return Err(LispError::CyclicVariableIndirection(hare.as_lisp_obj()));
            }
            proof {
                assert forall|k: nat| k < 2 * (i + 1) implies is_alias_at(v, #[trigger] alias_at(v, s, k)) by {
                    if k < 2 * i {
                    } else if k == 2 * i {
                    } else {
                        assert(k == 2 * i + 1);
                    }
                }
                i = i + 1;
            }
        }
        proof {
            self.lemma_ends_at(v, s, 2 * i);
        }
        Ok(hare)
    }

    /// A chain whose first non-alias is at `m` gives that symbol.
    proof fn lemma_ends_at(self, v: Seq<LispSymbol>, s: nat, m: nat)
        requires
            is_first_end(v, s, m),
        ensures
            alias_chain_ends(v, s),
            indirect_variable_spec(v, s) == Ok::<nat, LispError>(alias_at(v, s, m)),
    {
        assert(!is_alias_at(v, alias_at(v, s, m)));
        let m2 = choose|m2: nat| is_first_end(v, s, m2);
        assert(is_first_end(v, s, m2));
        if m2 < m {
            assert(is_alias_at(v, alias_at(v, s, m2)));
        } else if m < m2 {
            assert(is_alias_at(v, alias_at(v, s, m)));
        }
    }

    /// The first meeting is unique.
    proof fn lemma_meet_unique(self, v: Seq<LispSymbol>, s: nat, j: nat)
        requires
            is_first_meet(v, s, j),
        ensures
            (choose|j2: nat| is_first_meet(v, s, j2)) == j,
    {
        let j2 = choose|j2: nat| is_first_meet(v, s, j2);
        assert(is_first_meet(v, s, j2));
        if j2 < j {
            assert(alias_at(v, s, 2 * j2) != alias_at(v, s, j2));
        } else if j < j2 {
            assert(alias_at(v, s, 2 * j) != alias_at(v, s, j));
        }
    }
}

impl Symbols {
    /// Sets the function cell of a symbol.
    pub fn set_function(&mut self, s: LispSymbolRef, f: LispObject)
        requires
            old(self).wf(),
            old(self).has(s),
        ensures
            final(self).wf(),
            final(self).view().len() == old(self).view().len(),
            final(self).view()[s.index()] == (LispSymbol { function: f, ..old(self).view()[s.index()] }),
            forall|i: int| 0 <= i < old(self).view().len() && i != s.index() ==> #[trigger] final(self).view()[i] == old(
                self,
            ).view()[i],
    {
        let mut sym = self.syms.remove(s.0);
        sym.function = f;
        self.syms.insert(s.0, sym);
        proof {
            assert forall|i: int|
                0 <= i < self.view().len() && #[trigger] self.view()[i].redirect == SymbolRedirect::VarAlias
                    implies self.view()[i].alias < self.view().len() by {
                if i != s.index() {
                    assert(old(self).view()[i] == self.view()[i]);
                }
            }
        }
    }

    /// Sets the property list of a symbol.
    pub fn set_plist(&mut self, s: LispSymbolRef, plist: LispObject)
        requires
            old(self).wf(),
            old(self).has(s),
        ensures
            final(self).wf(),
            final(self).view().len() == old(self).view().len(),
            final(self).view()[s.index()] == (LispSymbol { plist: plist, ..old(self).view()[s.index()] }),
            forall|i: int| 0 <= i < old(self).view().len() && i != s.index() ==> #[trigger] final(self).view()[i] == old(
                self,
            ).view()[i],
    {
        let mut sym = self.syms.remove(s.0);
        sym.plist = plist;
        self.syms.insert(s.0, sym);
        proof {
            assert forall|i: int|
                0 <= i < self.view().len() && #[trigger] self.view()[i].redirect == SymbolRedirect::VarAlias
                    implies self.view()[i].alias < self.view().len() by {
                if i != s.index() {
                    assert(old(self).view()[i] == self.view()[i]);
                }
            }
        }
    }
}

/// Whether the function cell of SYMBOL is not `nil`.
pub fn fboundp(syms: &Symbols, symbol: LispSymbolRef) -> (b: bool)
    requires
        syms.has(symbol),
    ensures
        b == (syms.view()[symbol.index()].function != LispObject(0)),
{
    symbol.get_function(syms).is_not_nil()
}

/// The function cell of SYMBOL.
pub fn symbol_function(syms: &Symbols, symbol: LispSymbolRef) -> (o: LispObject)
    requires
        syms.has(symbol),
    ensures
        o == syms.view()[symbol.index()].function,
{
    symbol.get_function(syms)
}

/// The property list of SYMBOL.
pub fn symbol_plist(syms: &Symbols, symbol: LispSymbolRef) -> (o: LispObject)
    requires
        syms.has(symbol),
    ensures
        o == syms.view()[symbol.index()].plist,
{
    symbol.get_plist(syms)
}

/// Sets the property list of SYMBOL to NEWPLIST, and returns it.
pub fn setplist(syms: &mut Symbols, symbol: LispSymbolRef, newplist: LispObject) -> (o: LispObject)
    requires
        old(syms).wf(),
        old(syms).has(symbol),
    ensures
        o == newplist,
        final(syms).wf(),
        final(syms).view() == old(syms).view().update(
            symbol.index(),
            (LispSymbol { plist: newplist, ..old(syms).view()[symbol.index()] }),
        ),
{
    syms.set_plist(symbol, newplist);
    proof {
        assert(syms.view() =~= old(syms).view().update(
            symbol.index(),
            LispSymbol { plist: newplist, ..old(syms).view()[symbol.index()] },
        ));
    }
    newplist
}

/// Empties the function cell of the symbol SYMBOL: not a symbol is
/// `wrong-type-argument symbolp`; `nil` and `t` are `setting-constant`.
pub fn fmakunbound(syms: &mut Symbols, symbol: LispObject) -> (r: Result<LispSymbolRef, LispError>)
    requires
        old(syms).wf(),
    ensures
        final(syms).wf(),
        !(word_tag(symbol.0) == 0 && 0 <= symbol.0 / 8 < old(syms).view().len()) ==> r == Err::<LispSymbolRef, LispError>(
            LispError::WrongType(TypePredicate::Symbolp, symbol),
        ) && final(syms).view() == old(syms).view(),
        word_tag(symbol.0) == 0 && 0 <= symbol.0 / 8 < old(syms).view().len() && (symbol.0 == 0 || symbol.0 == 8)
            ==> r == Err::<LispSymbolRef, LispError>(LispError::SettingConstant(symbol)) && final(syms).view() == old(
            syms,
        ).view(),
        r matches Ok(s) ==> s.index() == symbol.0 / 8 && symbol.0 != 0 && symbol.0 != 8 && final(syms).view()
            == old(syms).view().update(s.index(), (LispSymbol { function: LispObject(0), ..old(syms).view()[s.index()] })),
{
    let sym = match syms.as_symbol(symbol) {
        Some(s) => s,
        None => {
            return Err(LispError::WrongType(TypePredicate::Symbolp, symbol));
        },
    };
    if symbol.is_nil() || symbol.is_t() {
        return Err(LispError::SettingConstant(symbol));
    }
    syms.set_function(sym, LispObject::constant_nil());
    proof {
        assert(syms.view() =~= old(syms).view().update(
            sym.index(),
            LispSymbol { function: LispObject(0), ..old(syms).view()[sym.index()] },
        ));
    }
    Ok(sym)
}

/// Whether OBJECT is a keyword: a symbol of the initial obarray whose
/// name starts with `:`.
pub fn keywordp(syms: &Symbols, h: &LispHeap, object: LispObject) -> (b: bool)
    requires
        syms.wf(),
        h.wf(),
    ensures
        b == (word_tag(object.0) == 0 && 0 <= object.0 / 8 < syms.view().len() && {
            let sym = syms.view()[object.0 / 8];
            &&& h.is_string(sym.name)
            &&& h.string_bytes_of(sym.name).len() > 0
            &&& h.string_bytes_of(sym.name)[0] == 58
            &&& sym.interned_in_initial_obarray
        }),
{
    match syms.as_symbol(object) {
        Some(sym) => {
            let name = sym.symbol_name(syms);
            if !h.is_string_obj(name) || h.string_len_bytes(name) == 0 {
                return false;
            }
            h.string_byte_at(name, 0) == 58 && syms.syms[sym.0].interned_in_initial_obarray
        },
        None => false,
    }
}

/// Whether SYMBOL (after its aliases) has a value, when that can be told
/// here: `None` for a buffer-local variable whose value is not swapped
/// in, which the caller looks up in the current buffer.
pub fn boundp(syms: &Symbols, symbol: LispSymbolRef, unbound: LispObject) -> (r: Result<Option<bool>, LispError>)
    requires
        syms.wf(),
        syms.has(symbol),
    ensures
        match indirect_variable_spec(syms.view(), symbol.index() as nat) {
            Err(e) => is_alias_at(syms.view(), symbol.index() as nat) && r == Err::<Option<bool>, LispError>(e),
            Ok(t) => {
                let sym = syms.view()[t as int];
                r == Ok::<Option<bool>, LispError>(
                    match sym.redirect {
                        SymbolRedirect::PlainVal => Some(sym.value != unbound),
                        SymbolRedirect::Forwarded => Some(true),
                        _ => None,
                    },
                )
            },
        },
{
    let mut symbol = symbol;
    if symbol.is_alias(syms) {
        symbol = match symbol.get_indirect_variable(syms) {
            Ok(s) => s,
            Err(e) => {
                return Err(e);
            },
        };
    } else {
        proof {
            assert(is_first_end(syms.view(), symbol.index() as nat, 0));
            symbol.lemma_ends_at(syms.view(), symbol.index() as nat, 0);
        }
    }
    match syms.syms[symbol.0].redirect {
        SymbolRedirect::PlainVal => Ok(Some(syms.syms[symbol.0].value.ne(unbound))),
        SymbolRedirect::Forwarded => Ok(Some(true)),
        _ => Ok(None),
    }
}

/// Whether OBJECT is a symbol.
pub fn symbolp(object: LispObject) -> (b: bool)
    ensures
        b == (word_tag(object.0) == 0),
{
    object.is_symbol()
}

impl LispSymbolRef {
    /// Whether the symbol is a constant (`nil`, `t`, keywords and
    /// `defconst`ants marked so).
    pub fn is_constant(self, syms: &Symbols) -> (b: bool)
        requires
            syms.has(self),
        ensures
            b == syms.view()[self.index()].constant,
    {
        syms.syms[self.0].constant
    }

    /// Whether the symbol is interned in the initial obarray.
    pub fn is_interned_in_initial_obarray(self, syms: &Symbols) -> (b: bool)
        requires
            syms.has(self),
        ensures
            b == syms.view()[self.index()].interned_in_initial_obarray,
    {
        syms.syms[self.0].interned_in_initial_obarray
    }

    /// How the symbol holds its value.
    pub fn get_redirect(self, syms: &Symbols) -> (r: SymbolRedirect)
        requires
            syms.has(self),
        ensures
            r == syms.view()[self.index()].redirect,
    {
        syms.syms[self.0].redirect
    }

    /// The value cell of a symbol that holds its value itself.
    pub fn get_value(self, syms: &Symbols) -> (o: LispObject)
        requires
            syms.has(self),
        ensures
            o == syms.view()[self.index()].value,
    {
        syms.syms[self.0].value
    }
}

/// The variable at the end of OBJECT's chain of aliases; OBJECT itself
/// when it is not a symbol of the store; `cyclic-variable-indirection`
/// when the chain is a cycle.
pub fn indirect_variable_lisp(syms: &Symbols, object: LispObject) -> (r: Result<LispObject, LispError>)
    requires
        syms.wf(),
    ensures
        !(word_tag(object.0) == 0 && 0 <= object.0 / 8 < syms.view().len()) ==> r == Ok::<LispObject, LispError>(object),
        word_tag(object.0) == 0 && 0 <= object.0 / 8 < syms.view().len() ==> match indirect_variable_spec(
            syms.view(),
            (object.0 / 8) as nat,
        ) {
            Ok(t) => r == Ok::<LispObject, LispError>(LispObject((t * 8) as i64)),
            Err(e) => r == Err::<LispObject, LispError>(e),
        },
{
    match syms.as_symbol(object) {
        Some(s) => match s.get_indirect_variable(syms) {
            Ok(t) => Ok(t.as_lisp_obj()),
            Err(e) => Err(e),
        },
        None => Ok(object),
    }
}

/// A chain that has a non-alias at step `k` has a first one, at or
/// before `k`.
proof fn lemma_first_end_exists(v: Seq<LispSymbol>, s: nat, k: nat)
    requires
        !is_alias_at(v, alias_at(v, s, k)),
    ensures
        exists|m: nat| m <= k && is_first_end(v, s, m),
    decreases k,
{
    if forall|k2: nat| k2 < k ==> is_alias_at(v, #[trigger] alias_at(v, s, k2)) {
        assert(is_first_end(v, s, k));
    } else {
        let k2 = choose|k2: nat| k2 < k && !is_alias_at(v, #[trigger] alias_at(v, s, k2));
        lemma_first_end_exists(v, s, k2);
    }
}

/// The variable that holds a symbol's value is never an alias, and a
/// symbol that is not an alias holds its own value.
pub proof fn lemma_indirect_variable_ends(syms: &Symbols, symbol: LispSymbolRef)
    requires
        syms.wf(),
        syms.has(symbol),
    ensures
        indirect_variable_spec(syms.view(), symbol.index() as nat) matches Ok(t) ==> !is_alias_at(syms.view(), t),
        !is_alias_at(syms.view(), symbol.index() as nat) ==> indirect_variable_spec(syms.view(), symbol.index() as nat)
            == Ok::<nat, LispError>(symbol.index() as nat),
{
    let v = syms.view();
    let s = symbol.index() as nat;
    if alias_chain_ends(v, s) {
        let k = choose|k: nat| !is_alias_at(v, #[trigger] alias_at(v, s, k));
        lemma_first_end_exists(v, s, k);
        let m = choose|m: nat| is_first_end(v, s, m);
        assert(is_first_end(v, s, m));
    }
    if !is_alias_at(v, s) {
        assert(is_first_end(v, s, 0));
        symbol.lemma_ends_at(v, s, 0);
    }
}

/// After `setplist`, the symbol's property list is the new one and every
/// other cell of every symbol is as it was.
pub proof fn lemma_setplist_then_symbol_plist(
    before: Seq<LispSymbol>,
    after: Seq<LispSymbol>,
    symbol: LispSymbolRef,
    newplist: LispObject,
)
    requires
        0 <= symbol.index() < before.len(),
        after == before.update(symbol.index(), (LispSymbol { plist: newplist, ..before[symbol.index()] })),
    ensures
        after[symbol.index()].plist == newplist,
        after[symbol.index()].function == before[symbol.index()].function,
        after[symbol.index()].value == before[symbol.index()].value,
        after.len() == before.len(),
        forall|i: int| 0 <= i < before.len() && i != symbol.index() ==> #[trigger] after[i] == before[i],
{
}


/// The name of OBJECT as a string: a symbol's name, a string itself;
/// anything else is `wrong-type-argument stringp`.
pub fn symbol_or_string_as_string(syms: &Symbols, h: &LispHeap, object: LispObject) -> (r: Result<
    LispObject,
    LispError,
>)
    requires
        syms.wf(),
        h.wf(),
        word_tag(object.0) == 0 ==> 0 <= object.0 / 8 < syms.view().len() && h.is_string(
            syms.view()[object.0 / 8].name,
        ),
    ensures
        word_tag(object.0) == 0 ==> r == Ok::<LispObject, LispError>(syms.view()[object.0 / 8].name),
        word_tag(object.0) != 0 && h.is_string(object) ==> r == Ok::<LispObject, LispError>(object),
        word_tag(object.0) != 0 && !h.is_string(object) ==> r == Err::<LispObject, LispError>(
            LispError::WrongType(TypePredicate::Stringp, object),
        ),
{
    match syms.as_symbol(object) {
        Some(sym) => Ok(sym.symbol_name(syms)),
        None => {
            if h.is_string_obj(object) {
                Ok(object)
            } else {
                Err(LispError::WrongType(TypePredicate::Stringp, object))
            }
        },
    }
}


/// Gives SYMBOL the property PROPNAME with the value VALUE (`put`): its
/// property list becomes what `plist-put` makes of it; returns VALUE.
/// An error of `plist-put` leaves the symbol as it was.
pub fn put(syms: &mut Symbols, h: &mut LispHeap, symbol: LispSymbolRef, propname: LispObject, value: LispObject) -> (r:
    Result<LispObject, LispError>)
    requires
        old(syms).wf(),
        old(syms).has(symbol),
        old(h).wf(),
        old(h).valid(old(syms).view()[symbol.index()].plist),
        old(h).valid(propname),
        old(h).valid(value),
        old(h).cells().len() + 2 <= crate::heap::MAX_OBJECTS,
    ensures
        final(syms).wf(),
        final(h).wf(),
        final(h).string_view() == old(h).string_view(),
        final(h).vector_view() == old(h).vector_view(),
        exists|pr: Result<LispObject, LispError>|
            #[trigger] crate::lists::plist_put_result(
                old(h),
                final(h),
                Seq::<crate::chartab::LispCharTable>::empty(),
                old(syms).view()[symbol.index()].plist,
                propname,
                value,
                false,
                pr,
            ) && match pr {
                Ok(p) => r == Ok::<LispObject, LispError>(value) && final(syms).view() == old(syms).view().update(
                    symbol.index(),
                    (LispSymbol { plist: p, ..old(syms).view()[symbol.index()] }),
                ),
                Err(e) => r == Err::<LispObject, LispError>(e) && final(syms).view() == old(syms).view(),
            },
{
    let plist = symbol.get_plist(syms);
    let pr = crate::lists::plist_put(h, plist, propname, value);
    match pr {
        Ok(p) => {
            setplist(syms, symbol, p);
            Ok(value)
        },
        Err(e) => Err(e),
    }
}

} // verus!
