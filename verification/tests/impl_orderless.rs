use orderless::call_orderless::{call_orderless, CallOrderlessOptions};
use orderless::create_orderless::{create_orderless, MacroDef};
use orderless::impl_orderless::{
    impl_orderless, ImplBlockModel, ImplFnModel, ImplItemModel, ImplOrderlessOptions, MarkerArgs,
};
use orderless::utils::{ArgsIndexMap, NestedMetaModel, OrderlessError, PathModel, PathSeg};

struct Args {}

impl Args {
    pub fn two(a: bool, b: bool) -> (bool, bool) {
        (a, b)
    }
}

fn ident_path(name: &str) -> PathModel {
    PathModel {
        leading_colon: false,
        segments: vec![PathSeg { ident: name.to_string(), has_arguments: false }],
    }
}

fn nv(name: &str, value: &str) -> NestedMetaModel {
    NestedMetaModel::NameValue { path: ident_path(name), value: value.to_string() }
}

fn bare(name: &str) -> NestedMetaModel {
    NestedMetaModel::BarePath { path: ident_path(name) }
}

fn must<T>(r: Result<T, OrderlessError>) -> T {
    match r {
        Ok(v) => v,
        Err(_) => panic!("expansion was expected to succeed"),
    }
}

fn eval(expr: &str, b_in_scope: bool) -> bool {
    match expr {
        "true" => true,
        "false" => false,
        "b" => b_in_scope,
        other => panic!("unexpected expression: {}", other),
    }
}

/// The macro the original adapter generates for the block around
/// `fn two(a: bool, b: bool)`, marked with `defs(a = false, b = false)`.
fn args_two_macro() -> MacroDef {
    let defs = must(ArgsIndexMap::from_list(&vec![nv("a", "false"), nv("b", "false")]));
    let block = ImplBlockModel {
        self_ty_text: "Args".to_string(),
        items: vec![ImplItemModel::Method {
            func: ImplFnModel {
                ident: "two".to_string(),
                marker: Some(MarkerArgs { name: None, public: None, order: None, defs }),
            },
        }],
    };
    let (rewritten, mut creates) = must(impl_orderless(ImplOrderlessOptions { name: None }, block));
    assert_eq!(rewritten.items.len(), 1);
    assert_eq!(creates.len(), 1);
    let def = must(create_orderless(creates.remove(0)));
    assert_eq!(def.name, "Args__two");
    def
}

fn invoke(def: MacroDef, args: Vec<NestedMetaModel>) -> Vec<String> {
    let args = must(ArgsIndexMap::from_list(&args));
    let call = must(call_orderless(CallOrderlessOptions { func: def.func, defs: def.defs, args }));
    call.args
}

#[test]
fn impl_orderless_none() {
    let vals = invoke(args_two_macro(), vec![]);
    assert_eq!(Args::two(eval(&vals[0], false), eval(&vals[1], false)), (false, false));
}

#[test]
fn impl_orderless_just_a() {
    let vals = invoke(args_two_macro(), vec![nv("a", "true")]);
    assert_eq!(Args::two(eval(&vals[0], false), eval(&vals[1], false)), (true, false));
}

#[test]
fn impl_orderless_just_b() {
    let b: bool = true;
    let vals = invoke(args_two_macro(), vec![bare("b")]);
    assert_eq!(Args::two(eval(&vals[0], b), eval(&vals[1], b)), (false, true));
}

#[test]
fn impl_orderless_a_and_b() {
    let b: bool = true;
    let vals = invoke(args_two_macro(), vec![bare("b"), nv("a", "true")]);
    assert_eq!(Args::two(eval(&vals[0], b), eval(&vals[1], b)), (true, true));
}
