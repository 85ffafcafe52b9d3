use remacs::lisp_fn::{
    is_rust_abi, parse_arg_type, parse_bool, parse_function_type, parse_i16, dashed_name, ArgType, FnArgModel,
    Function, ItemFnModel, LispFnArgsRaw, LispFnError, LispFnType, TypeModel, TypePath,
};

fn path(lead: bool, segs: &[&str]) -> TypePath {
    TypePath { leading_colon: lead, segments: segs.iter().map(|s| s.to_string()).collect() }
}

fn obj_arg(name: &str) -> FnArgModel {
    FnArgModel::Captured { ident: Some(name.to_string()), ty: TypeModel::Path(path(false, &["LispObject"])) }
}

fn slice_arg(name: &str) -> FnArgModel {
    FnArgModel::Captured {
        ident: Some(name.to_string()),
        ty: TypeModel::RefSlice { has_lifetime: false, elem: path(false, &["LispObject"]) },
    }
}

fn item(inputs: Vec<FnArgModel>) -> ItemFnModel {
    ItemFnModel { ident: "car_safe".to_string(), is_unsafe: false, is_const: false, abi: None, inputs }
}

#[test]
fn default_minimum_arguments() {
    assert_eq!(LispFnType::Normal(3).def_min_args(), 3);
    assert_eq!(LispFnType::Many.def_min_args(), 0);
}

#[test]
fn argument_types() {
    assert_eq!(parse_arg_type(&TypeModel::Path(path(false, &["LispObject"]))), ArgType::LispObject);
    assert_eq!(parse_arg_type(&TypeModel::Path(path(true, &["lisp", "LispObject"]))), ArgType::LispObject);
    assert_eq!(parse_arg_type(&TypeModel::Path(path(true, &["LispObject"]))), ArgType::Other);
    assert_eq!(parse_arg_type(&TypeModel::Path(path(false, &["EmacsInt"]))), ArgType::Other);
    assert_eq!(
        parse_arg_type(&TypeModel::RefSlice { has_lifetime: false, elem: path(false, &["LispObject"]) }),
        ArgType::LispObjectSlice
    );
    assert_eq!(
        parse_arg_type(&TypeModel::RefSlice { has_lifetime: true, elem: path(false, &["LispObject"]) }),
        ArgType::Other
    );
}

#[test]
fn function_types() {
    assert_eq!(parse_function_type(&vec![obj_arg("a"), obj_arg("b")]), Ok(LispFnType::Normal(2)));
    assert_eq!(parse_function_type(&vec![slice_arg("args")]), Ok(LispFnType::Many));
    assert_eq!(parse_function_type(&vec![obj_arg("a"), slice_arg("args")]), Err(LispFnError::MixedSlice));
    assert_eq!(parse_function_type(&vec![FnArgModel::SelfArg]), Err(LispFnError::SelfArgument));
    assert_eq!(parse_function_type(&vec![]), Ok(LispFnType::Normal(0)));
}

#[test]
fn abi_check() {
    assert!(is_rust_abi(&None));
    assert!(is_rust_abi(&Some(None)));
    assert!(!is_rust_abi(&Some(Some("C".to_string()))));
}

#[test]
fn parsing_functions() {
    let f = Function::parse(&item(vec![obj_arg("object")])).unwrap();
    assert_eq!(f.name, "car_safe");
    assert_eq!(f.fntype, LispFnType::Normal(1));
    assert_eq!(f.args, vec!["object".to_string()]);
    let mut u = item(vec![]);
    u.is_unsafe = true;
    u.is_const = true;
    assert_eq!(Function::parse(&u).err(), Some(LispFnError::Unsafe));
    let mut c = item(vec![]);
    c.is_const = true;
    assert_eq!(Function::parse(&c).err(), Some(LispFnError::Const));
    let mut e = item(vec![]);
    e.abi = Some(Some("C".to_string()));
    assert_eq!(Function::parse(&e).err(), Some(LispFnError::NotRustAbi));
    let bad = item(vec![FnArgModel::Captured { ident: None, ty: TypeModel::Other }]);
    assert_eq!(Function::parse(&bad).err(), Some(LispFnError::InvalidArgument));
}

#[test]
fn parsing_numbers_and_flags() {
    assert_eq!(parse_i16("12"), Some(12));
    assert_eq!(parse_i16("-32768"), Some(-32768));
    assert_eq!(parse_i16("+7"), Some(7));
    assert_eq!(parse_i16("32768"), None);
    assert_eq!(parse_i16("-"), None);
    assert_eq!(parse_i16(""), None);
    assert_eq!(parse_i16("1x"), None);
    assert_eq!(parse_i16("99999999999"), None);
    assert_eq!(parse_bool("true"), Some(true));
    assert_eq!(parse_bool("false"), Some(false));
    assert_eq!(parse_bool("True"), None);
    assert_eq!(dashed_name("set_char_table_parent"), "set-char-table-parent");
}

#[test]
fn attribute_defaults() {
    let raw = LispFnArgsRaw { name: None, c_name: None, min: None, intspec: None, unevalled: None };
    let a = raw.convert("buffer_hash", 1).unwrap();
    assert_eq!(a.name, "buffer-hash");
    assert_eq!(a.c_name, "buffer_hash");
    assert_eq!(a.min, 1);
    assert_eq!(a.intspec, None);
    assert!(!a.unevalled);
}

#[test]
fn attribute_given_values_and_errors() {
    let raw = LispFnArgsRaw {
        name: Some("end-kbd-macro".to_string()),
        c_name: Some("end_kbd_macro".to_string()),
        min: Some("0".to_string()),
        intspec: Some("p".to_string()),
        unevalled: Some("true".to_string()),
    };
    let a = raw.convert("end_kbd_macro_lisp", 2).unwrap();
    assert_eq!(a.name, "end-kbd-macro");
    assert_eq!(a.c_name, "end_kbd_macro");
    assert_eq!(a.min, 0);
    assert_eq!(a.intspec, Some("p".to_string()));
    assert!(a.unevalled);
    let bad_min = LispFnArgsRaw { name: None, c_name: None, min: Some("x".to_string()), intspec: None, unevalled: Some("no".to_string()) };
    assert_eq!(bad_min.convert("f", 0).err(), Some("invalid \"min\" number of arguments".to_string()));
    let bad_flag = LispFnArgsRaw { name: None, c_name: None, min: None, intspec: None, unevalled: Some("yes".to_string()) };
    assert_eq!(bad_flag.convert("f", 0).err(), Some("invalid \"unevalled\" argument".to_string()));
}
