//! Features (`provide`, `featurep`, `require`) and `quote`.
//!
//! Loading a file and running Lisp hooks are the caller's: `provide` says
//! which hooks to run and which symbol property to set, and `require` is
//! split at the load into `require_begin` and `require_finish`.
use vstd::prelude::*;

use crate::error::{ErrorMessage, LispError, TypePredicate};
use crate::heap::{is_cons_word, LispCons, LispHeap, MAX_OBJECTS};
use crate::equal::{equal, equal_spec};
use crate::lists::{
    lemma_memq_grow, lemma_memq_head, assq, assq_spec, car, car_equal, lemma_assq_spec, lemma_memq_spec, member, member_answer, memq, memq_spec,
    search_outcome, walk_end,
};
use crate::tag::{fixnum_word, word_tag, LispObject};
use crate::heap::{lemma_tail_valid, tail_at};
use crate::tails::{iter_tails, iter_tails_safe, lemma_stop_unique, lemma_walk_stops, stops_at};

verus! {

/// The global variables that features use.
pub struct FeatureState {
    /// The list of features provided (`features`).
    pub features: LispObject,
    /// `nil`, `t` while a `require` loads, or the undo list of that load.
    pub autoload_queue: LispObject,
    /// The load history entries of the file being loaded.
    pub current_load_list: LispObject,
    /// `after-load-alist`: hooks to run when a feature is provided.
    pub after_load_alist: LispObject,
    /// `load-history`.
    pub load_history: LispObject,
    /// The features being required, innermost first.
    pub require_nesting_list: LispObject,
    /// Whether a file is being loaded.
    pub load_in_progress: bool,
    /// Non-nil while preparing to dump.
    pub purify_flag: LispObject,
}

/// The symbols that features use.
pub struct FeatureSymbols {
    pub provide: LispObject,
    pub require: LispObject,
}

impl FeatureState {
    /// Whether every variable holds a value of the heap.
    pub open spec fn valid_in(&self, h: &LispHeap) -> bool {
        &&& h.valid(self.features)
        &&& h.valid(self.autoload_queue)
        &&& h.valid(self.current_load_list)
        &&& h.valid(self.after_load_alist)
        &&& h.valid(self.load_history)
        &&& h.valid(self.require_nesting_list)
        &&& h.valid(self.purify_flag)
    }
}

/// Whether the word is a symbol.
pub open spec fn is_symbol_word(o: LispObject) -> bool {
    word_tag(o.0) == 0
}

/// Whether `FEATURE` is provided and, when SUBFEATURE is non-nil, has it
/// among the subfeatures that FEATURE_SUBFEATURES (its `subfeatures`
/// property) lists.
pub fn featurep(
    h: &LispHeap,
    st: &FeatureState,
    feature: LispObject,
    subfeature: LispObject,
    feature_subfeatures: LispObject,
) -> (r: Result<bool, LispError>)
    requires
        h.wf(),
        st.valid_in(h),
        h.valid(subfeature),
        h.valid(feature_subfeatures),
    ensures
        !is_symbol_word(feature) ==> r == Err::<bool, LispError>(LispError::WrongType(TypePredicate::Symbolp, feature)),
        is_symbol_word(feature) ==> match memq_spec(h, feature, st.features) {
            Err(e) => r == Err::<bool, LispError>(e),
            Ok(t) => if t == LispObject(0) {
                r == Ok::<bool, LispError>(false)
            } else if subfeature == LispObject(0) {
                r == Ok::<bool, LispError>(true)
            } else {
                exists|m: Result<LispObject, LispError>|
                    #[trigger] search_outcome(
                        h,
                        feature_subfeatures,
                        car_equal(h, Seq::<crate::chartab::LispCharTable>::empty(), subfeature),
                        member_answer(h, Seq::<crate::chartab::LispCharTable>::empty(), subfeature),
                        Some(TypePredicate::Listp),
                        m,
                    ) && r == match m {
                        Err(e) => Err(e),
                        Ok(x) => Ok(x != LispObject(0)),
                    }
            },
        },
{
    if !feature.is_symbol() {
        return Err(LispError::WrongType(TypePredicate::Symbolp, feature));
    }
    let tem = memq(h, feature, st.features);
    proof {
        lemma_memq_spec(h, feature, st.features, tem);
    }
    let mut tem = match tem {
        Ok(t) => t,
        Err(e) => {
            return Err(e);
        },
    };
    if tem.is_not_nil() && subfeature.is_not_nil() {
        let no_tables = crate::chartab::CharTables::new(LispObject(0), LispObject(0));
        tem = match member(h, &no_tables, subfeature, feature_subfeatures) {
            Ok(t) => t,
            Err(e) => {
                return Err(e);
            },
        };
    }
    Ok(tem.is_not_nil())
}

/// What `provide` leaves to the caller: the value of the feature's
/// `subfeatures` property to set, and the load hooks to run.
pub struct ProvideOutcome {
    pub feature: LispObject,
    pub put_subfeatures: Option<LispObject>,
    pub load_hooks: Option<LispObject>,
}

/// Announces that FEATURE is provided: it joins `features` (once), the
/// load history of the current file records it, and an active autoload
/// queue records the old `features`.  SUBFEATURE must be a list.
#[verifier::rlimit(60)]
pub fn provide(
    h: &mut LispHeap,
    st: &mut FeatureState,
    syms: &FeatureSymbols,
    feature: LispObject,
    subfeature: LispObject,
) -> (r: Result<ProvideOutcome, LispError>)
    requires
        old(h).wf(),
        old(st).valid_in(old(h)),
        old(h).valid(feature),
        old(h).valid(subfeature),
        old(h).valid(syms.provide),
        old(h).cells().len() + 5 <= MAX_OBJECTS,
    ensures
        final(h).wf(),
        final(st).valid_in(final(h)),
        final(h).cells().subrange(0, old(h).cells().len() as int) == old(h).cells(),
        final(h).string_view() == old(h).string_view(),
        final(h).vector_view() == old(h).vector_view(),
        final(st).after_load_alist == old(st).after_load_alist,
        final(st).load_history == old(st).load_history,
        final(st).require_nesting_list == old(st).require_nesting_list,
        final(st).purify_flag == old(st).purify_flag,
        final(st).load_in_progress == old(st).load_in_progress,
        !is_symbol_word(feature) ==> r == Err::<ProvideOutcome, LispError>(
            LispError::WrongType(TypePredicate::Symbolp, feature),
        ) && *final(st) == *old(st),
        is_symbol_word(feature) && !(word_tag(subfeature.0) == 3 || subfeature == LispObject(0)) ==> r == Err::<
            ProvideOutcome,
            LispError,
        >(LispError::WrongType(TypePredicate::Listp, subfeature)) && *final(st) == *old(st),
        is_symbol_word(feature) && (word_tag(subfeature.0) == 3 || subfeature == LispObject(0)) ==> {
            // an active autoload queue records the features as they were
            &&& old(st).autoload_queue != LispObject(0) ==> {
                let q = final(st).autoload_queue;
                let c = final(h).car_of(q);
                &&& final(h).is_cons(q) && final(h).cdr_of(q) == old(st).autoload_queue
                &&& final(h).is_cons(c) && final(h).car_of(c) == LispObject(fixnum_word(0))
                    && final(h).cdr_of(c) == old(st).features
            }
            &&& old(st).autoload_queue == LispObject(0) ==> final(st).autoload_queue == LispObject(0)
            &&& match memq_spec(old(h), feature, old(st).features) {
                Err(e) => r == Err::<ProvideOutcome, LispError>(e) && final(st).features == old(st).features
                    && final(st).current_load_list == old(st).current_load_list,
                Ok(t) => {
                    // the feature joins `features` unless it is there
                    &&& t == LispObject(0) ==> final(h).is_cons(final(st).features) && final(h).car_of(final(st).features)
                        == feature && final(h).cdr_of(final(st).features) == old(st).features
                        && crate::heap::obj_index(final(st).features.0) >= old(h).cells().len()
                    &&& t != LispObject(0) ==> final(st).features == old(st).features
                    // the file's load history records `(provide . FEATURE)`
                    &&& final(h).is_cons(final(st).current_load_list)
                    &&& final(h).cdr_of(final(st).current_load_list) == old(st).current_load_list
                    &&& final(h).is_cons(final(h).car_of(final(st).current_load_list))
                    &&& final(h).car_of(final(h).car_of(final(st).current_load_list)) == syms.provide
                    &&& final(h).cdr_of(final(h).car_of(final(st).current_load_list)) == feature
                    &&& match assq_spec(old(h), feature, old(st).after_load_alist) {
                        Err(e) => r == Err::<ProvideOutcome, LispError>(e),
                        Ok(a) => r matches Ok(out) && out.feature == feature && out.put_subfeatures == (if subfeature
                            == LispObject(0) {
                            None
                        } else {
                            Some(subfeature)
                        }) && out.load_hooks == (if is_cons_word(a.0) {
                            Some(old(h).cdr_of(a))
                        } else {
                            None::<LispObject>
                        }),
                    }
                },
            }
        },
{
    if !feature.is_symbol() {
        return Err(LispError::WrongType(TypePredicate::Symbolp, feature));
    }
    if !subfeature.is_list() {
        return Err(LispError::WrongType(TypePredicate::Listp, subfeature));
    }
    let ghost h0 = *h;
    let found = memq(h, feature, st.features);
    let hook_entry = assq(h, feature, st.after_load_alist);
    proof {
        lemma_memq_spec(h, feature, st.features, found);
        lemma_assq_spec(h, feature, st.after_load_alist, hook_entry);
    }
    let hooks = match hook_entry {
        Ok(a) => {
            if a.is_cons() {
                proof {
                    assert(h.is_cons(a));
                }
                Ok(Some(h.cdr(LispCons(a))))
            } else {
                Ok(None)
            }
        },
        Err(e) => Err(e),
    };
    if st.autoload_queue.is_not_nil() {
        let entry = h.cons(LispObject::from_fixnum(0), st.features);
        let q = h.cons(entry, st.autoload_queue);
        st.autoload_queue = q;
    }
    match found {
        Err(e) => {
            proof {
                assert(h.cells().subrange(0, h0.cells().len() as int) =~= h0.cells());
            }
            return Err(e);
        },
        Ok(t) => {
            if t.is_nil() {
                let f = h.cons(feature, st.features);
                st.features = f;
            }
        },
    }
    let pc = h.cons(syms.provide, feature);
    let cll = h.cons(pc, st.current_load_list);
    st.current_load_list = cll;
    proof {
        assert(h.cells().subrange(0, h0.cells().len() as int) =~= h0.cells());
    }
    match hooks {
        Err(e) => Err(e),
        Ok(load_hooks) => Ok(
            ProvideOutcome {
                feature,
                put_subfeatures: if subfeature.is_nil() {
                    None
                } else {
                    Some(subfeature)
                },
                load_hooks,
            },
        ),
    }
}

/// The number of elements of `l`, or the error that ends its walk.
pub open spec fn length_spec(h: &LispHeap, l: LispObject) -> Result<LispObject, LispError> {
    let len = choose|len: nat| stops_at(h.cdrs(), l, len);
    match walk_end(h, l, len, Some(TypePredicate::Listp)) {
        Err(e) => Err(e),
        Ok(_) => Ok(LispObject(fixnum_word(len as int))),
    }
}

/// The number of elements of LIST: `wrong-type-argument listp` for a
/// dotted list, `circular-list` for a circular one.
pub fn length(h: &LispHeap, list: LispObject) -> (r: Result<LispObject, LispError>)
    requires
        h.wf(),
        h.valid(list),
    ensures
        r == length_spec(h, list),
{
    let mut it = iter_tails(list, Ghost(h.cdrs()));
    let mut n: usize = 0;
    loop
        invariant
            h.wf(),
            h.valid(list),
            it.inv(h.cdrs()),
            it.list() == list,
            it.errsym() == Some(TypePredicate::Listp),
            n == it.steps(),
        decreases 3 * h.cdrs().len() + 2 - it.steps(),
    {
        proof {
            it.lemma_inv(h.cdrs());
        }
        let ghost k = it.steps();
        match it.next(h) {
            Ok(Some(_)) => {
                proof {
                    it.lemma_inv(h.cdrs());
                }
                n = n + 1;
            },
            Ok(None) => {
                proof {
                    let len = choose|len: nat| stops_at(h.cdrs(), list, len);
                    lemma_stop_unique(h.cdrs(), list, len, k);
                }
                return Ok(LispObject::from_natnum(n as i64));
            },
            Err(e) => {
                proof {
                    let len = choose|len: nat| stops_at(h.cdrs(), list, len);
                    lemma_stop_unique(h.cdrs(), list, len, k);
                }
                return Err(e);
            },
        }
    }
}

/// `quote`: the only argument, unevaluated; more than one argument is
/// `wrong-number-of-arguments` with `quote` and their number.
pub fn quote(h: &LispHeap, quote_sym: LispObject, args: LispCons) -> (r: Result<LispObject, LispError>)
    requires
        h.wf(),
        h.is_cons(args.0),
    ensures
        h.cdr_of(args.0) == LispObject(0) ==> r == Ok::<LispObject, LispError>(h.car_of(args.0)),
        h.cdr_of(args.0) != LispObject(0) ==> r == match length_spec(h, args.0) {
            Err(e) => Err::<LispObject, LispError>(e),
            Ok(n) => Err::<LispObject, LispError>(LispError::WrongNumberOfArguments(quote_sym, n)),
        },
{
    if h.cdr(args).is_not_nil() {
        proof {
            assert(h.valid(args.0));
        }
        return match length(h, args.as_obj()) {
            Err(e) => Err(e),
            Ok(n) => Err(LispError::WrongNumberOfArguments(quote_sym, n)),
        };
    }
    Ok(h.car(args))
}

/// The number of the first `k` elements of `l` that are `equal` to
/// `feature`, or the first error that comparing them signals.
pub open spec fn count_equal(h: &LispHeap, feature: LispObject, l: LispObject, k: nat) -> Result<nat, LispError>
    decreases k,
{
    if k == 0 {
        Ok(0)
    } else {
        match count_equal(h, feature, l, (k - 1) as nat) {
            Err(e) => Err(e),
            Ok(c) => match equal_spec(h, feature, h.car_of(tail_at(h.cdrs(), l, (k - 1) as nat)), 0) {
                Err(e) => Err(e),
                Ok(true) => Ok(c + 1),
                Ok(false) => Ok(c),
            },
        }
    }
}

/// How many times `feature` is being required already (`equal` elements
/// of the nesting list), or the error that counting them signals.
pub open spec fn nesting_spec(h: &LispHeap, feature: LispObject, l: LispObject) -> Result<nat, LispError> {
    let len = choose|len: nat| stops_at(h.cdrs(), l, len);
    match count_equal(h, feature, l, len) {
        Err(e) => Err(e),
        Ok(c) => match walk_end(h, l, len, Some(TypePredicate::Listp)) {
            Err(e) => Err(e),
            Ok(_) => Ok(c),
        },
    }
}

/// Counts the elements of LIST `equal` to FEATURE.
fn nesting_count(h: &LispHeap, feature: LispObject, list: LispObject) -> (r: Result<usize, LispError>)
    requires
        h.wf(),
        h.valid(list),
        h.valid(feature),
    ensures
        match nesting_spec(h, feature, list) {
            Err(e) => r == Err::<usize, LispError>(e),
            Ok(c) => r matches Ok(n) && n == c,
        },
{
    let mut it = iter_tails(list, Ghost(h.cdrs()));
    let mut n: usize = 0;
    loop
        invariant
            h.wf(),
            h.valid(list),
            h.valid(feature),
            it.inv(h.cdrs()),
            it.list() == list,
            it.errsym() == Some(TypePredicate::Listp),
            count_equal(h, feature, list, it.steps()) == Ok::<nat, LispError>(n as nat),
            n <= it.steps(),
        decreases 3 * h.cdrs().len() + 2 - it.steps(),
    {
        proof {
            it.lemma_inv(h.cdrs());
        }
        let ghost k = it.steps();
        match it.next(h) {
            Ok(Some(tail)) => {
                proof {
                    it.lemma_inv(h.cdrs());
                    lemma_tail_valid(h, list, k);
                    assert(tail.0 == tail_at(h.cdrs(), list, k));
                    assert(h.valid(h.cells()[crate::heap::obj_index(tail.0.0)].0));
                }
                let e = h.car(tail);
                match equal(h, feature, e) {
                    Ok(true) => {
                        n = n + 1;
                    },
                    Ok(false) => {},
                    Err(err) => {
                        proof {
                            let l0 = lemma_walk_stops(h.cdrs(), list);
                            let len = choose|len: nat| stops_at(h.cdrs(), list, len);
                            crate::lists::lemma_before_stop(h, list, k, len);
                            lemma_count_error(h, feature, list, k + 1, len);
                        }
                        return Err(err);
                    },
                }
            },
            Ok(None) => {
                proof {
                    let len = choose|len: nat| stops_at(h.cdrs(), list, len);
                    lemma_stop_unique(h.cdrs(), list, len, k);
                }
                return Ok(n);
            },
            Err(err) => {
                proof {
                    let len = choose|len: nat| stops_at(h.cdrs(), list, len);
                    lemma_stop_unique(h.cdrs(), list, len, k);
                }
                return Err(err);
            },
        }
    }
}

/// An error among the first `k` comparisons stays the result for more.
proof fn lemma_count_error(h: &LispHeap, feature: LispObject, l: LispObject, k: nat, len: nat)
    requires
        count_equal(h, feature, l, k) is Err,
        k <= len,
    ensures
        count_equal(h, feature, l, len) == count_equal(h, feature, l, k),
    decreases len - k,
{
    if k < len {
        lemma_count_error(h, feature, l, k, (len - 1) as nat);
    }
}

/// The `car` of the last element of the safe walk over `l`, if any.
pub open spec fn last_car_spec(h: &LispHeap, l: LispObject) -> Option<LispObject> {
    let len = choose|len: nat| stops_at(h.cdrs(), l, len);
    if len == 0 {
        None
    } else {
        Some(h.car_of(tail_at(h.cdrs(), l, (len - 1) as nat)))
    }
}

/// The last element of LIST, stopping quietly at an improper end or a
/// cycle.
fn last_car_safe(h: &LispHeap, list: LispObject) -> (r: Option<LispObject>)
    requires
        h.wf(),
        h.valid(list),
    ensures
        r == last_car_spec(h, list),
        r matches Some(o) ==> h.valid(o),
{
    let mut it = iter_tails_safe(list, Ghost(h.cdrs()));
    let mut last: Option<LispObject> = None;
    loop
        invariant
            h.wf(),
            h.valid(list),
            it.inv(h.cdrs()),
            it.list() == list,
            it.errsym() is None,
            it.steps() == 0 ==> last is None,
            it.steps() > 0 ==> last == Some(h.car_of(tail_at(h.cdrs(), list, (it.steps() - 1) as nat))),
            last matches Some(o) ==> h.valid(o),
        decreases 3 * h.cdrs().len() + 2 - it.steps(),
    {
        proof {
            it.lemma_inv(h.cdrs());
        }
        let ghost k = it.steps();
        match it.next(h) {
            Ok(Some(tail)) => {
                proof {
                    it.lemma_inv(h.cdrs());
                    assert(tail.0 == tail_at(h.cdrs(), list, k));
                    assert(h.valid(h.cells()[crate::heap::obj_index(tail.0.0)].0));
                }
                last = Some(h.car(tail));
            },
            Ok(None) => {
                proof {
                    let len = choose|len: nat| stops_at(h.cdrs(), list, len);
                    lemma_stop_unique(h.cdrs(), list, len, k);
                }
                return last;
            },
            Err(_) => {
                return last;
            },
        }
    }
}

/// What `require` does before the load: the feature is provided
/// already, or the file is to be loaded.
pub enum RequireStep {
    /// `require` returns the feature.
    Provided(LispObject),
    /// Load FILE (the feature's name when `None`) with NOERROR, then call
    /// `require_finish` with what was saved.
    Load { file: Option<LispObject>, noerror: LispObject, saved_nesting: LispObject, saved_queue: LispObject },
}

/// Whether the `require` is made from a file: one is being loaded, or
/// the load history's last entry is a file name.
pub open spec fn from_file(h: &LispHeap, st: &FeatureState) -> bool {
    st.load_in_progress || match last_car_spec(h, st.current_load_list) {
        Some(o) => h.is_string(o),
        None => false,
    }
}

/// Whether `require` is called from a file (see `from_file`).
pub fn require_from_file(h: &LispHeap, st: &FeatureState) -> (b: bool)
    requires
        h.wf(),
        st.valid_in(h),
    ensures
        b == from_file(h, st),
{
    if st.load_in_progress {
        return true;
    }
    match last_car_safe(h, st.current_load_list) {
        Some(o) => h.is_string_obj(o),
        None => false,
    }
}

/// The entry `(require . FEATURE)` that the load history of a file gets
/// when it does not hold one (compared with `equal`) already; the caller
/// adds it as `loadhist_attach` does.
pub fn require_history_entry(h: &mut LispHeap, st: &FeatureState, syms: &FeatureSymbols, feature: LispObject) -> (r:
    Result<Option<LispObject>, LispError>)
    requires
        old(h).wf(),
        st.valid_in(old(h)),
        old(h).valid(feature),
        old(h).valid(syms.require),
        old(h).cells().len() < MAX_OBJECTS,
    ensures
        final(h).wf(),
        final(h).cells() == old(h).cells().push((syms.require, feature)),
        final(h).string_view() == old(h).string_view(),
        final(h).vector_view() == old(h).vector_view(),
        ({
            let tem = crate::heap::cons_word(old(h).cells().len() as int);
            exists|m: Result<LispObject, LispError>|
                #[trigger] search_outcome(
                    final(h),
                    st.current_load_list,
                    car_equal(final(h), Seq::<crate::chartab::LispCharTable>::empty(), tem),
                    member_answer(final(h), Seq::<crate::chartab::LispCharTable>::empty(), tem),
                    Some(TypePredicate::Listp),
                    m,
                ) && r == match m {
                    Err(e) => Err(e),
                    Ok(x) => Ok(if x == LispObject(0) { Some(tem) } else { None }),
                }
        }),
{
    let ghost n0 = h.cells().len();
    let tem = h.cons(syms.require, feature);
    assert(tem == crate::heap::cons_word(n0 as int));
    let no_tables = crate::chartab::CharTables::new(LispObject(0), LispObject(0));
    let m = member(h, &no_tables, tem, st.current_load_list);
    assert(search_outcome(
        h,
        st.current_load_list,
        car_equal(h, Seq::<crate::chartab::LispCharTable>::empty(), tem),
        member_answer(h, Seq::<crate::chartab::LispCharTable>::empty(), tem),
        Some(TypePredicate::Listp),
        m,
    ));
    match m {
        Ok(x) => {
            if x.is_nil() {
                Ok(Some(tem))
            } else {
                Ok(None)
            }
        },
        Err(e) => Err(e),
    }
}

/// The rest of the first half of `require`, up to the load: returns a
/// feature already provided, and refuses to load while dumping or when
/// the feature is required recursively more than three times.  Before
/// the load, the feature joins the nesting list and the autoload queue
/// is set to `t`; both are saved for `require_finish`.
#[verifier::rlimit(60)]
pub fn require_begin(
    h: &mut LispHeap,
    st: &mut FeatureState,
    feature: LispObject,
    filename: LispObject,
    noerror: LispObject,
) -> (r: Result<RequireStep, LispError>)
    requires
        old(h).wf(),
        old(st).valid_in(old(h)),
        old(h).valid(feature),
        old(h).cells().len() < MAX_OBJECTS,
    ensures
        final(h).wf(),
        final(st).valid_in(final(h)),
        final(h).cells().subrange(0, old(h).cells().len() as int) == old(h).cells(),
        final(h).string_view() == old(h).string_view(),
        final(h).vector_view() == old(h).vector_view(),
        final(st).features == old(st).features,
        final(st).current_load_list == old(st).current_load_list,
        final(st).after_load_alist == old(st).after_load_alist,
        final(st).load_history == old(st).load_history,
        final(st).purify_flag == old(st).purify_flag,
        final(st).load_in_progress == old(st).load_in_progress,
        !is_symbol_word(feature) ==> r == Err::<RequireStep, LispError>(LispError::WrongType(TypePredicate::Symbolp, feature)),
        is_symbol_word(feature) ==> match memq_spec(old(h), feature, old(st).features) {
            Err(e) => r == Err::<RequireStep, LispError>(e),
            Ok(t) => if t != LispObject(0) {
                r == Ok::<RequireStep, LispError>(RequireStep::Provided(feature))
            } else if old(st).purify_flag != LispObject(0) {
                r == Err::<RequireStep, LispError>(
                    LispError::ErrorWith(ErrorMessage::RequireWhileDumping, feature, LispObject(0)),
                )
            } else {
                match nesting_spec(old(h), feature, old(st).require_nesting_list) {
                    Err(e) => r == Err::<RequireStep, LispError>(e),
                    Ok(c) => if c > 3 {
                        r == Err::<RequireStep, LispError>(
                            LispError::ErrorWith(ErrorMessage::RecursiveRequire, feature, LispObject(0)),
                        )
                    } else {
                        &&& r == Ok::<RequireStep, LispError>(
                            RequireStep::Load {
                                file: if filename == LispObject(0) {
                                    None
                                } else {
                                    Some(filename)
                                },
                                noerror,
                                saved_nesting: old(st).require_nesting_list,
                                saved_queue: old(st).autoload_queue,
                            },
                        )
                        &&& final(st).autoload_queue == LispObject(8)
                        &&& final(h).is_cons(final(st).require_nesting_list)
                        &&& final(h).car_of(final(st).require_nesting_list) == feature
                        &&& final(h).cdr_of(final(st).require_nesting_list) == old(st).require_nesting_list
                    },
                }
            },
        },
        !(r matches Ok(RequireStep::Load { .. })) ==> *final(st) == *old(st),
{
    if !feature.is_symbol() {
        return Err(LispError::WrongType(TypePredicate::Symbolp, feature));
    }
    let ghost h0 = *h;
    let found = memq(h, feature, st.features);
    proof {
        lemma_memq_spec(h, feature, st.features, found);
        assert(h.cells().subrange(0, h0.cells().len() as int) =~= h0.cells());
    }
    match found {
        Err(e) => {
            return Err(e);
        },
        Ok(t) => {
            if t.is_not_nil() {
                return Ok(RequireStep::Provided(feature));
            }
        },
    }
    if st.purify_flag.is_not_nil() {
        return Err(LispError::ErrorWith(ErrorMessage::RequireWhileDumping, feature, LispObject::constant_nil()));
    }
    let n = match nesting_count(h, feature, st.require_nesting_list) {
        Ok(n) => n,
        Err(e) => {
            return Err(e);
        },
    };
    if n > 3 {
        return Err(LispError::ErrorWith(ErrorMessage::RecursiveRequire, feature, LispObject::constant_nil()));
    }
    let saved_nesting = st.require_nesting_list;
    let nl = h.cons(feature, st.require_nesting_list);
    st.require_nesting_list = nl;
    let saved_queue = st.autoload_queue;
    st.autoload_queue = LispObject::constant_t();
    proof {
        assert(h.cells().subrange(0, h0.cells().len() as int) =~= h0.cells());
    }
    Ok(
        RequireStep::Load {
            file: if filename.is_nil() {
                None
            } else {
                Some(filename)
            },
            noerror,
            saved_nesting,
            saved_queue,
        },
    )
}

/// What `car` gives: `nil` for `nil`, the `car` of a cons cell, else
/// `wrong-type-argument consp`.
pub open spec fn car_value(h: &LispHeap, o: LispObject) -> Result<LispObject, LispError> {
    if o.0 == 0 {
        Ok(LispObject(0))
    } else if is_cons_word(o.0) {
        Ok(h.car_of(o))
    } else {
        Err(LispError::WrongType(TypePredicate::Consp, o))
    }
}

/// The error of a `require` whose load did not provide FEATURE, FILE
/// being the file loaded (`nil` when unknown): the message names the
/// feature and the file as strings, so a feature that is not a string
/// (a symbol) is `wrong-type-argument stringp` on it, and so is a file
/// name that is not a string.
pub open spec fn not_provided_error(h: &LispHeap, feature: LispObject, file: LispObject) -> LispError {
    if file == LispObject(0) {
        if h.is_string(feature) {
            LispError::ErrorWith(ErrorMessage::RequiredFeatureNotProvided, feature, LispObject(0))
        } else {
            LispError::WrongType(TypePredicate::Stringp, feature)
        }
    } else if !h.is_string(file) {
        LispError::WrongType(TypePredicate::Stringp, file)
    } else if !h.is_string(feature) {
        LispError::WrongType(TypePredicate::Stringp, feature)
    } else {
        LispError::ErrorWith(ErrorMessage::LoadingFileFailedToProvideFeature, file, feature)
    }
}

/// How `require` ends after the load: its value or error, and, unless
/// the load provided the feature, the old autoload queue that the caller
/// restores with `un_autoload` (which also undoes what the load set up).
pub struct RequireEnd {
    pub result: Result<LispObject, LispError>,
    pub unwind_queue: Option<LispObject>,
}

/// The second half of `require`, after the load (LOADED false when it
/// failed quietly): the nesting list is restored; a load that provided
/// the feature makes `require` return it and the autoload queue become
/// the saved one again; otherwise `nil` is returned for a failed load, and
/// an error for a load that did not provide the feature.
pub fn require_finish(
    h: &LispHeap,
    st: &mut FeatureState,
    feature: LispObject,
    loaded: bool,
    saved_nesting: LispObject,
    saved_queue: LispObject,
) -> (r: RequireEnd)
    requires
        h.wf(),
        old(st).valid_in(h),
        h.valid(feature),
        h.valid(saved_nesting),
        h.valid(saved_queue),
    ensures
        final(st).valid_in(h),
        final(st).require_nesting_list == saved_nesting,
        final(st).features == old(st).features,
        final(st).current_load_list == old(st).current_load_list,
        final(st).load_history == old(st).load_history,
        !loaded ==> r.result == Ok::<LispObject, LispError>(LispObject(0)) && r.unwind_queue == Some(saved_queue),
        loaded ==> match memq_spec(h, feature, old(st).features) {
            Err(e) => r.result == Err::<LispObject, LispError>(e) && r.unwind_queue == Some(saved_queue),
            Ok(t) => if t != LispObject(0) {
                r.result == Ok::<LispObject, LispError>(feature) && r.unwind_queue is None
                    && final(st).autoload_queue == saved_queue
            } else {
                r.unwind_queue == Some(saved_queue) && r.result == match car_value(h, old(st).load_history) {
                    Err(e) => Err::<LispObject, LispError>(e),
                    Ok(first) => match car_value(h, first) {
                        Err(e) => Err::<LispObject, LispError>(e),
                        Ok(file) => Err(not_provided_error(h, feature, file)),
                    },
                }
            },
        },
        r.unwind_queue is Some ==> final(st).autoload_queue == old(st).autoload_queue,
{
    st.require_nesting_list = saved_nesting;
    if !loaded {
        return RequireEnd { result: Ok(LispObject::constant_nil()), unwind_queue: Some(saved_queue) };
    }
    let found = memq(h, feature, st.features);
    proof {
        lemma_memq_spec(h, feature, st.features, found);
    }
    match found {
        Err(e) => RequireEnd { result: Err(e), unwind_queue: Some(saved_queue) },
        Ok(t) => {
            if t.is_nil() {
                let first = match car(h, st.load_history) {
                    Ok(c) => c,
                    Err(e) => {
                        return RequireEnd { result: Err(e), unwind_queue: Some(saved_queue) };
                    },
                };
                let tem3 = match car(h, first) {
                    Ok(c) => c,
                    Err(e) => {
                        return RequireEnd { result: Err(e), unwind_queue: Some(saved_queue) };
                    },
                };
                let err = if tem3.is_nil() {
                    if h.is_string_obj(feature) {
                        LispError::ErrorWith(ErrorMessage::RequiredFeatureNotProvided, feature, LispObject::constant_nil())
                    } else {
                        LispError::WrongType(TypePredicate::Stringp, feature)
                    }
                } else if !h.is_string_obj(tem3) {
                    LispError::WrongType(TypePredicate::Stringp, tem3)
                } else if !h.is_string_obj(feature) {
                    LispError::WrongType(TypePredicate::Stringp, feature)
                } else {
                    LispError::ErrorWith(ErrorMessage::LoadingFileFailedToProvideFeature, tem3, feature)
                };
                RequireEnd { result: Err(err), unwind_queue: Some(saved_queue) }
            } else {
                st.autoload_queue = saved_queue;
                RequireEnd { result: Ok(feature), unwind_queue: None }
            }
        },
    }
}

/// A law of features: once `provide` of FEATURE has returned without an
/// error, FEATURE is among `features`, so that `featurep` of FEATURE is
/// true.  (The requirements are what `provide` ensures when `memq` over
/// the old `features` gives no error.)
pub proof fn lemma_provided_is_featurep(
    h: &LispHeap,
    h2: &LispHeap,
    st: FeatureState,
    st2: FeatureState,
    feature: LispObject,
)
    requires
        h.wf(),
        h2.wf(),
        st.valid_in(h),
        h.cells().len() <= h2.cells().len(),
        h2.cells().subrange(0, h.cells().len() as int) == h.cells(),
        memq_spec(h, feature, st.features) matches Ok(t) && (t == LispObject(0) ==> h2.is_cons(st2.features)
            && h2.car_of(st2.features) == feature && h2.cdr_of(st2.features) == st.features
            && crate::heap::obj_index(st2.features.0) >= h.cells().len()) && (t != LispObject(0) ==> st2.features
            == st.features),
    ensures
        memq_spec(h2, feature, st2.features) matches Ok(t2) && t2 != LispObject(0),
{
    let t = memq_spec(h, feature, st.features)->Ok_0;
    if t != LispObject(0) {
        lemma_memq_grow(h, h2, feature, st.features);
    } else {
        if is_cons_word(st.features.0) {
            assert(crate::heap::obj_index(st.features.0) < h.cells().len());
        }
        assert(st2.features != st.features);
        lemma_memq_head(h2, feature, st2.features);
        crate::heap::lemma_cons_not_nil(st2.features.0);
    }
}

} // verus!
