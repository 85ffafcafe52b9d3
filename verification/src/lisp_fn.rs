//! The rules of the `lisp_fn` attribute, which turns a Rust function into
//! a Lisp primitive: what kind of primitive a signature makes, and the
//! defaults of the attribute's arguments.
//!
//! The Rust syntax that the attribute reads is held here as plain values:
//! a function item's qualifiers, ABI and arguments, and the types of the
//! arguments as far as the rules look at them.
use vstd::prelude::*;

verus! {

/// The kind of Lisp primitive a function makes.
#[derive(PartialEq, Eq, Structural, Clone, Copy, Debug)]
pub enum LispFnType {
    /// A normal function with given max. number of arguments
    Normal(i16),
    /// A function taking an arbitrary amount of arguments as a slice
    Many,
}

impl LispFnType {
    /// The minimum number of arguments when none is given: all of them
    /// for a normal function, none for one that takes a slice.
    pub fn def_min_args(&self) -> (n: i16)
        ensures
            n == match *self {
                LispFnType::Normal(k) => k,
                LispFnType::Many => 0,
            },
    {
        match *self {
            LispFnType::Normal(n) => n,
            LispFnType::Many => 0,
        }
    }
}

/// How the rules classify an argument type.
#[derive(PartialEq, Eq, Structural, Clone, Copy, Debug)]
pub enum ArgType {
    LispObject,
    LispObjectSlice,
    Other,
}

/// A type path: whether it starts with `::`, and its segments.
pub struct TypePath {
    pub leading_colon: bool,
    pub segments: Vec<String>,
}

/// An argument type, as far as the rules look at it.
pub enum TypeModel {
    /// A path type (without a qualified self).
    Path(TypePath),
    /// A reference `&'a T` (`has_lifetime`) or `&T` to a slice `[elem]`.
    RefSlice { has_lifetime: bool, elem: TypePath },
    /// Any other type.
    Other,
}

/// A function argument.
pub enum FnArgModel {
    /// `pattern: type`; the pattern is an identifier (`Some`) or another
    /// pattern (`None`).
    Captured { ident: Option<String>, ty: TypeModel },
    /// A type without a pattern.
    Ignored { ty: TypeModel },
    /// A `self` argument.
    SelfArg,
}

/// The parts of a function item that the rules read.
pub struct ItemFnModel {
    pub ident: String,
    pub is_unsafe: bool,
    pub is_const: bool,
    /// `None` without `extern`; `Some(None)` for a bare `extern`;
    /// `Some(Some(name))` for `extern "name"`.
    pub abi: Option<Option<String>>,
    pub inputs: Vec<FnArgModel>,
}

/// Whether the segments spell `lisp::LispObject` (or `LispObject` alone
/// when `short`).
pub open spec fn is_lisp_object_path(p: TypePath) -> bool {
    let s = p.segments@;
    ||| (!p.leading_colon && s.len() == 1 && s[0]@ == seq!['L', 'i', 's', 'p', 'O', 'b', 'j', 'e', 'c', 't'])
    ||| (s.len() == 2 && s[0]@ == seq!['l', 'i', 's', 'p'] && s[1]@ == seq![
        'L',
        'i',
        's',
        'p',
        'O',
        'b',
        'j',
        'e',
        'c',
        't',
    ])
}

/// Whether two strings hold the same characters.
fn same_text(a: &str, b: &str) -> (r: bool)
    ensures
        r == (a@ == b@),
{
    let n = a.unicode_len();
    if n != b.unicode_len() {
        return false;
    }
    let mut i: usize = 0;
    while i < n
        invariant
            n == a@.len(),
            n == b@.len(),
            i <= n,
            forall|j: int| 0 <= j < i ==> a@[j] == b@[j],
        decreases n - i,
    {
        if a.get_char(i) != b.get_char(i) {
            return false;
        }
        i = i + 1;
    }
    proof {
        assert(a@ =~= b@);
    }
    true
}

/// Whether the path type is `LispObject`, `lisp::LispObject` or
/// `::lisp::LispObject`.
pub fn is_lisp_object(p: &TypePath) -> (r: bool)
    ensures
        r == is_lisp_object_path(*p),
{
    let lisp_object = "LispObject";
    let lisp = "lisp";
    proof {
        reveal_strlit("LispObject");
        reveal_strlit("lisp");
        assert(lisp_object@ =~= seq!['L', 'i', 's', 'p', 'O', 'b', 'j', 'e', 'c', 't']);
        assert(lisp@ =~= seq!['l', 'i', 's', 'p']);
    }
    if p.segments.len() == 1 {
        !p.leading_colon && same_text(p.segments[0].as_str(), lisp_object)
    } else if p.segments.len() == 2 {
        same_text(p.segments[0].as_str(), lisp) && same_text(p.segments[1].as_str(), lisp_object)
    } else {
        false
    }
}

/// The class of an argument type, as `parse_arg_type` gives it.
pub open spec fn arg_type_of(ty: TypeModel) -> ArgType {
    match ty {
        TypeModel::Path(p) => if is_lisp_object_path(p) {
            ArgType::LispObject
        } else {
            ArgType::Other
        },
        TypeModel::RefSlice { has_lifetime, elem } => if !has_lifetime && is_lisp_object_path(elem) {
            ArgType::LispObjectSlice
        } else {
            ArgType::Other
        },
        TypeModel::Other => ArgType::Other,
    }
}

/// Classifies an argument type: `LispObject`, `&[LispObject]` (without
/// a lifetime), or anything else.
pub fn parse_arg_type(ty: &TypeModel) -> (r: ArgType)
    ensures
        r == arg_type_of(*ty),
{
    match ty {
        TypeModel::Path(p) => {
            if is_lisp_object(p) {
                ArgType::LispObject
            } else {
                ArgType::Other
            }
        },
        TypeModel::RefSlice { has_lifetime, elem } => {
            if !*has_lifetime && is_lisp_object(elem) {
                ArgType::LispObjectSlice
            } else {
                ArgType::Other
            }
        },
        TypeModel::Other => ArgType::Other,
    }
}

/// Why a function cannot be a Lisp primitive.
#[derive(PartialEq, Eq, Structural, Clone, Copy, Debug)]
pub enum LispFnError {
    /// "lisp functions cannot be `unsafe`"
    Unsafe,
    /// "lisp functions cannot be `const`"
    Const,
    /// "lisp functions can only use \"Rust\" ABI"
    NotRustAbi,
    /// "invalid function argument"
    InvalidArgument,
    /// "`[LispObject]` cannot be mixed in with other types"
    MixedSlice,
    /// "lisp functions cannot have `self` arguments"
    SelfArgument,
}

/// The type of an argument that has one.
pub open spec fn arg_ty(a: FnArgModel) -> Option<TypeModel> {
    match a {
        FnArgModel::Captured { ty, .. } => Some(ty),
        FnArgModel::Ignored { ty } => Some(ty),
        FnArgModel::SelfArg => None,
    }
}

/// The first argument, from `k` on, that is a slice or `self`.
pub open spec fn first_special(inputs: Seq<FnArgModel>, k: int) -> int
    decreases inputs.len() - k,
{
    if k >= inputs.len() {
        inputs.len() as int
    } else {
        match arg_ty(inputs[k]) {
            None => k,
            Some(t) => if arg_type_of(t) == ArgType::LispObjectSlice {
                k
            } else {
                first_special(inputs, k + 1)
            },
        }
    }
}

/// What `parse_function_type` gives: at the first argument that is
/// `self` an error; at the first that is `&[LispObject]`, `Many` if it is
/// the only argument, else an error; with neither, a normal function of
/// as many arguments as there are (truncated to `i16`).
pub open spec fn function_type_of(inputs: Seq<FnArgModel>) -> Result<LispFnType, LispFnError> {
    let k = first_special(inputs, 0);
    if k < inputs.len() {
        match arg_ty(inputs[k]) {
            None => Err(LispFnError::SelfArgument),
            Some(_) => if inputs.len() != 1 {
                Err(LispFnError::MixedSlice)
            } else {
                Ok(LispFnType::Many)
            },
        }
    } else {
        Ok(LispFnType::Normal(inputs.len() as i16))
    }
}

/// The kind of primitive that the arguments make.
pub fn parse_function_type(inputs: &Vec<FnArgModel>) -> (r: Result<LispFnType, LispFnError>)
    ensures
        r == function_type_of(inputs@),
{
    let mut k: usize = 0;
    while k < inputs.len()
        invariant
            k <= inputs@.len(),
            first_special(inputs@, 0) == first_special(inputs@, k as int),
        decreases inputs@.len() - k,
    {
        match &inputs[k] {
            FnArgModel::Captured { ty, .. } | FnArgModel::Ignored { ty } => {
                match parse_arg_type(ty) {
                    ArgType::LispObjectSlice => {
                        if inputs.len() != 1 {
                            return Err(LispFnError::MixedSlice);
                        }
                        return Ok(LispFnType::Many);
                    },
                    ArgType::LispObject => {},
                    ArgType::Other => {},
                }
            },
            FnArgModel::SelfArg => {
                return Err(LispFnError::SelfArgument);
            },
        }
        k = k + 1;
    }
    #[verifier::truncate]
    let nargs = inputs.len() as i16;
    Ok(LispFnType::Normal(nargs))
}

/// Whether the ABI is Rust's: no `extern`, or a bare `extern`.
pub fn is_rust_abi(abi: &Option<Option<String>>) -> (b: bool)
    ensures
        b == !(abi matches Some(Some(_))),
{
    match abi {
        Some(Some(_)) => false,
        Some(None) => true,
        None => true,
    }
}

/// The identifier of an argument whose pattern is one, else an error.
pub fn get_fn_arg_ident_ty(fn_arg: &FnArgModel) -> (r: Result<String, LispFnError>)
    ensures
        match *fn_arg {
            FnArgModel::Captured { ident: Some(name), .. } => (r matches Ok(s) && s@ == name@),
            _ => r == Err::<String, LispFnError>(LispFnError::InvalidArgument),
        },
{
    match fn_arg {
        FnArgModel::Captured { ident: Some(name), .. } => Ok(name.clone()),
        _ => Err(LispFnError::InvalidArgument),
    }
}

/// A function that can be a Lisp primitive: its name, kind and
/// argument names.
pub struct Function {
    pub name: String,
    pub fntype: LispFnType,
    pub args: Vec<String>,
}

/// Whether an argument's pattern is an identifier.
pub open spec fn is_named(a: FnArgModel) -> bool {
    a matches FnArgModel::Captured { ident: Some(_), .. }
}

/// Whether the argument's pattern is the identifier `s`.
pub open spec fn named_as(a: FnArgModel, s: String) -> bool {
    a matches FnArgModel::Captured { ident: Some(name), .. } && s@ == name@
}

/// Whether every argument's pattern is an identifier.
pub open spec fn all_named(inputs: Seq<FnArgModel>) -> bool {
    forall|k: int| 0 <= k < inputs.len() ==> #[trigger] is_named(inputs[k])
}

impl Function {
    /// Checks that the function item can be a Lisp primitive: not
    /// `unsafe`, not `const`, of the Rust ABI, every argument named, and
    /// of a kind that `parse_function_type` accepts; in that order.
    pub fn parse(item_fn: &ItemFnModel) -> (r: Result<Function, LispFnError>)
        ensures
            item_fn.is_unsafe ==> r == Err::<Function, LispFnError>(LispFnError::Unsafe),
            !item_fn.is_unsafe && item_fn.is_const ==> r == Err::<Function, LispFnError>(LispFnError::Const),
            !item_fn.is_unsafe && !item_fn.is_const && (item_fn.abi matches Some(Some(_))) ==> r == Err::<
                Function,
                LispFnError,
            >(LispFnError::NotRustAbi),
            !item_fn.is_unsafe && !item_fn.is_const && !(item_fn.abi matches Some(Some(_))) ==> {
                if !all_named(item_fn.inputs@) {
                    r == Err::<Function, LispFnError>(LispFnError::InvalidArgument)
                } else {
                    match function_type_of(item_fn.inputs@) {
                        Err(e) => r == Err::<Function, LispFnError>(e),
                        Ok(t) => (r matches Ok(f) && f.name@ == item_fn.ident@ && f.fntype == t && f.args@.len()
                            == item_fn.inputs@.len() && forall|k: int|
                            0 <= k < f.args@.len() ==> #[trigger] named_as(item_fn.inputs@[k], f.args@[k])),
                    }
                }
            },
    {
        if item_fn.is_unsafe {
            return Err(LispFnError::Unsafe);
        }
        if item_fn.is_const {
            return Err(LispFnError::Const);
        }
        if !is_rust_abi(&item_fn.abi) {
            return Err(LispFnError::NotRustAbi);
        }
        let mut args: Vec<String> = Vec::new();
        let mut k: usize = 0;
        while k < item_fn.inputs.len()
            invariant
                !item_fn.is_unsafe,
                !item_fn.is_const,
                !(item_fn.abi matches Some(Some(_))),
                k <= item_fn.inputs@.len(),
                args@.len() == k,
                forall|j: int| 0 <= j < k ==> #[trigger] named_as(item_fn.inputs@[j], args@[j]),
            decreases item_fn.inputs@.len() - k,
        {
            match get_fn_arg_ident_ty(&item_fn.inputs[k]) {
                Ok(name) => {
                    args.push(name);
                },
                Err(e) => {
                    proof {
                        assert(!is_named(item_fn.inputs@[k as int]));
                    }
                    return Err(e);
                },
            }
            k = k + 1;
        }
        proof {
            assert forall|j: int| 0 <= j < item_fn.inputs@.len() implies #[trigger] is_named(item_fn.inputs@[j]) by {
                assert(named_as(item_fn.inputs@[j], args@[j]));
            }
        }
        let fntype = match parse_function_type(&item_fn.inputs) {
            Ok(t) => t,
            Err(e) => {
                return Err(e);
            },
        };
        Ok(Function { name: item_fn.ident.clone(), fntype, args })
    }
}

/// Whether the character is a decimal digit.
pub open spec fn is_digit(c: char) -> bool {
    '0' <= c <= '9'
}

/// The value of a string of decimal digits.
pub open spec fn digits_value(s: Seq<char>) -> int
    decreases s.len(),
{
    if s.len() == 0 {
        0
    } else {
        digits_value(s.drop_last()) * 10 + (s.last() as int - '0' as int)
    }
}

/// Whether all the characters are decimal digits.
pub open spec fn all_digits(s: Seq<char>) -> bool {
    forall|i: int| 0 <= i < s.len() ==> #[trigger] is_digit(s[i])
}

/// What `str::parse::<i16>` gives: an optional sign, then one or more
/// decimal digits, whose value must fit in `i16`.
pub open spec fn parse_i16_spec(s: Seq<char>) -> Option<i16> {
    if s.len() == 0 {
        None
    } else {
        let body = if s[0] == '-' || s[0] == '+' {
            s.drop_first()
        } else {
            s
        };
        let v = if s[0] == '-' {
            -digits_value(body)
        } else {
            digits_value(body)
        };
        if body.len() == 0 || !all_digits(body) || !(-32768 <= v <= 32767) {
            None
        } else {
            Some(v as i16)
        }
    }
}

/// What `str::parse::<bool>` gives: `true` or `false` spelled exactly.
pub open spec fn parse_bool_spec(s: Seq<char>) -> Option<bool> {
    if s == seq!['t', 'r', 'u', 'e'] {
        Some(true)
    } else if s == seq!['f', 'a', 'l', 's', 'e'] {
        Some(false)
    } else {
        None
    }
}

/// A prefix of a string of digits has no greater value.
proof fn lemma_digits_prefix(s: Seq<char>, k: int)
    requires
        all_digits(s),
        0 <= k <= s.len(),
    ensures
        0 <= digits_value(s.subrange(0, k)) <= digits_value(s),
    decreases s.len() - k,
{
    if k < s.len() {
        lemma_digits_prefix(s, k + 1);
        let p = s.subrange(0, k + 1);
        assert(p.drop_last() =~= s.subrange(0, k));
        assert(is_digit(s[k]));
    } else {
        assert(s.subrange(0, k) =~= s);
        lemma_digits_nonneg(s);
    }
}

/// A string of digits has a non-negative value.
proof fn lemma_digits_nonneg(s: Seq<char>)
    requires
        all_digits(s),
    ensures
        digits_value(s) >= 0,
    decreases s.len(),
{
    if s.len() > 0 {
        assert(is_digit(s[s.len() - 1]));
        lemma_digits_nonneg(s.drop_last());
    }
}

/// Parses a decimal `i16` as `str::parse` does.
pub fn parse_i16(s: &str) -> (r: Option<i16>)
    ensures
        r == parse_i16_spec(s@),
{
    let n = s.unicode_len();
    if n == 0 {
        return None;
    }
    let first = s.get_char(0);
    let neg = first == '-';
    let start: usize = if first == '-' || first == '+' {
        1
    } else {
        0
    };
    if start == n {
        proof {
            assert(s@.drop_first().len() == 0);
        }
        return None;
    }
    let ghost body = if first == '-' || first == '+' {
        s@.drop_first()
    } else {
        s@
    };
    let mut v: i32 = 0;
    let mut k: usize = start;
    while k < n
        invariant
            n == s@.len(),
            n > 0,
            first == s@[0],
            neg == (first == '-'),
            start == (if first == '-' || first == '+' { 1usize } else { 0usize }),
            body == (if first == '-' || first == '+' { s@.drop_first() } else { s@ }),
            start < n,
            start <= k <= n,
            body == s@.subrange(start as int, n as int),
            all_digits(body.subrange(0, k - start)),
            v == digits_value(body.subrange(0, k - start)),
            0 <= v <= 32768,
        decreases n - k,
    {
        let c = s.get_char(k);
        if !('0' <= c && c <= '9') {
            proof {
                assert(body[k - start] == c);
                assert(!is_digit(body[k - start]));
                assert(!all_digits(body));
            }
            return None;
        }
        let d = (c as u32 - '0' as u32) as i32;
        proof {
            let p = body.subrange(0, k - start + 1);
            assert(p.drop_last() =~= body.subrange(0, k - start));
            assert(p.last() == c);
            assert(all_digits(p)) by {
                assert forall|i: int| 0 <= i < p.len() implies #[trigger] is_digit(p[i]) by {
                    if i < p.len() - 1 {
                        assert(p[i] == body.subrange(0, k - start)[i]);
                    }
                }
            }
        }
        let ghost p = body.subrange(0, k - start + 1);
        v = v * 10 + d;
        k = k + 1;
        assert(v == digits_value(p));
        assert(p =~= body.subrange(0, k - start));
        if v > 32768 {
            proof {
                if all_digits(body) {
                    lemma_digits_prefix(body, k - start);
                    assert(digits_value(body) > 32768);
                }
            }
            return None;
        }
    }
    proof {
        assert(body.subrange(0, n - start) =~= body);
        if start == 1 {
            assert(body =~= s@.drop_first());
        } else {
            assert(body =~= s@);
        }
    }
    let value: i32 = if neg {
        -v
    } else {
        v
    };
    if value > 32767 {
        return None;
    }
    Some(value as i16)
}

/// Parses a `bool` as `str::parse` does.
pub fn parse_bool(s: &str) -> (r: Option<bool>)
    ensures
        r == parse_bool_spec(s@),
{
    proof {
        reveal_strlit("true");
        reveal_strlit("false");
        assert("true"@ =~= seq!['t', 'r', 'u', 'e']);
        assert("false"@ =~= seq!['f', 'a', 'l', 's', 'e']);
    }
    if same_text(s, "true") {
        Some(true)
    } else if same_text(s, "false") {
        Some(false)
    } else {
        None
    }
}

/// The name with every `_` replaced by `-`.
pub open spec fn dashed(s: Seq<char>) -> Seq<char> {
    Seq::new(s.len(), |i: int| if s[i] == '_' { '-' } else { s[i] })
}

/// Replaces every `_` of the name by `-`.
pub fn dashed_name(s: &str) -> (r: String)
    ensures
        r@ == dashed(s@),
{
    let dash = "-";
    proof {
        reveal_strlit("-");
        assert(dash@ =~= seq!['-']);
    }
    let n = s.unicode_len();
    let mut out = String::from_str("");
    proof {
        reveal_strlit("");
    }
    let mut k: usize = 0;
    while k < n
        invariant
            n == s@.len(),
            k <= n,
            dash@ == seq!['-'],
            out@ == dashed(s@).subrange(0, k as int),
        decreases n - k,
    {
        if s.get_char(k) == '_' {
            out.append(dash);
        } else {
            out.append(s.substring_char(k, k + 1));
        }
        k = k + 1;
        proof {
            assert(out@ =~= dashed(s@).subrange(0, k as int));
        }
    }
    proof {
        assert(dashed(s@).subrange(0, n as int) =~= dashed(s@));
    }
    out
}

/// The arguments of the attribute as written: each may be absent.
pub struct LispFnArgsRaw {
    /// Desired Lisp name of the function.
    /// If not given, derived as the Rust name with "_" -> "-".
    pub name: Option<String>,
    /// Desired C name of the related statics.
    /// If not given, same as the Rust name.
    pub c_name: Option<String>,
    /// Minimum number of required arguments.
    pub min: Option<String>,
    /// The interactive specification.
    pub intspec: Option<String>,
    /// Whether unevalled or not.
    pub unevalled: Option<String>,
}

/// The arguments of the attribute with their defaults filled in.
pub struct LispFnArgs {
    pub name: String,
    pub c_name: String,
    pub intspec: Option<String>,
    pub min: i16,
    pub unevalled: bool,
}

/// The view of an optional string.
pub open spec fn opt_view(o: Option<String>) -> Option<Seq<char>> {
    match o {
        Some(s) => Some(s@),
        None => None,
    }
}

impl LispFnArgsRaw {
    /// Fills in the defaults: the name from DEF_NAME with `_` as `-`, the
    /// C name DEF_NAME, the minimum DEF_MIN_ARGS, and not unevalled; a
    /// minimum that is not an `i16`, or an unevalled flag that is not a
    /// `bool`, is an error, the minimum checked first.
    pub fn convert(self, def_name: &str, def_min_args: i16) -> (r: Result<LispFnArgs, String>)
        ensures
            match self.min {
                Some(m) => parse_i16_spec(m@) is None,
                None => false,
            } ==> (r matches Err(e) && e@ == "invalid \"min\" number of arguments"@),
            !(match self.min {
                Some(m) => parse_i16_spec(m@) is None,
                None => false,
            }) && (match self.unevalled {
                Some(u) => parse_bool_spec(u@) is None,
                None => false,
            }) ==> (r matches Err(e) && e@ == "invalid \"unevalled\" argument"@),
            r matches Ok(a) ==> {
                &&& a.name@ == match self.name {
                    Some(n) => n@,
                    None => dashed(def_name@),
                }
                &&& a.c_name@ == match self.c_name {
                    Some(n) => n@,
                    None => def_name@,
                }
                &&& Some(a.min) == match self.min {
                    Some(m) => parse_i16_spec(m@),
                    None => Some(def_min_args),
                }
                &&& opt_view(a.intspec) == opt_view(self.intspec)
                &&& Some(a.unevalled) == match self.unevalled {
                    Some(u) => parse_bool_spec(u@),
                    None => Some(false),
                }
            },
            r is Err ==> match self.min {
                Some(m) => parse_i16_spec(m@) is None,
                None => false,
            } || match self.unevalled {
                Some(u) => parse_bool_spec(u@) is None,
                None => false,
            },
    {
        let name = match self.name {
            Some(n) => n,
            None => dashed_name(def_name),
        };
        let c_name = match self.c_name {
            Some(n) => n,
            None => String::from_str(def_name),
        };
        let min = match &self.min {
            Some(m) => match parse_i16(m.as_str()) {
                Some(v) => v,
                None => {
                    return Err(String::from_str("invalid \"min\" number of arguments"));
                },
            },
            None => def_min_args,
        };
        let unevalled = match &self.unevalled {
            Some(u) => match parse_bool(u.as_str()) {
                Some(b) => b,
                None => {
                    return Err(String::from_str("invalid \"unevalled\" argument"));
                },
            },
            None => false,
        };
        Ok(LispFnArgs { name, c_name, intspec: self.intspec, min, unevalled })
    }
}

} // verus!
