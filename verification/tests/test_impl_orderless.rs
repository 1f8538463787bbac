use orderless::call_orderless::{call_orderless, render_call, CallOrderlessOptions};
use orderless::create_orderless::{create_orderless, MacroDef};
use orderless::impl_orderless::{
    impl_orderless, ImplBlockModel, ImplFnModel, ImplItemModel, ImplOrderlessOptions, MarkerArgs,
};
use orderless::utils::{ArgsIndexMap, NestedMetaModel, OrderlessError, PathModel, PathSeg};

struct Args {
    c: bool,
}

impl Args {
    pub fn three(self, a: bool, b: bool) -> (bool, bool, bool) {
        (a, b, self.c)
    }
}

fn ident_path(name: &str) -> PathModel {
    PathModel {
        leading_colon: false,
        segments: vec![PathSeg { ident: name.to_string(), has_arguments: false }],
    }
}

fn nv(name: &str, value: &str) -> NestedMetaModel {
    NestedMetaModel::NameValue { path: ident_path(name), value: value.to_string() }
}

fn bare(name: &str) -> NestedMetaModel {
    NestedMetaModel::BarePath { path: ident_path(name) }
}

fn must<T>(r: Result<T, OrderlessError>) -> T {
    match r {
        Ok(v) => v,
        Err(_) => panic!("expansion was expected to succeed"),
    }
}

fn eval(expr: &str, b_in_scope: bool) -> bool {
    match expr {
        "true" => true,
        "false" => false,
        "b" => b_in_scope,
        other => panic!("unexpected expression: {}", other),
    }
}

fn eval_receiver(expr: &str) -> Args {
    match expr {
        "Args { c: false }" => Args { c: false },
        other => panic!("unexpected receiver expression: {}", other),
    }
}

/// The macro the original adapter generates for the block around
/// `fn three(self, a: bool, b: bool)`, marked with
/// `defs(self = Args { c: false }, a = false, b = false)`.
fn args_three_macro() -> MacroDef {
    let defs = must(ArgsIndexMap::from_list(&vec![
        nv("self", "Args { c: false }"),
        nv("a", "false"),
        nv("b", "false"),
    ]));
    let block = ImplBlockModel {
        self_ty_text: "Args".to_string(),
        items: vec![ImplItemModel::Method {
            func: ImplFnModel {
                ident: "three".to_string(),
                marker: Some(MarkerArgs { name: None, public: None, order: None, defs }),
            },
        }],
    };
    let (rewritten, mut creates) = must(impl_orderless(ImplOrderlessOptions { name: None }, block));
    match &rewritten.items[0] {
        ImplItemModel::Method { func } => {
            assert_eq!(func.ident, "three");
            assert!(func.marker.is_none());
        }
        ImplItemModel::Other => panic!("the function was not emitted"),
    }
    let def = must(create_orderless(creates.remove(0)));
    assert_eq!(def.name, "Args__three");
    def
}

fn invoke(def: MacroDef, args: Vec<NestedMetaModel>) -> Vec<String> {
    let args = must(ArgsIndexMap::from_list(&args));
    let call = must(call_orderless(CallOrderlessOptions { func: def.func, defs: def.defs, args }));
    call.args
}

#[test]
fn test_impl_orderless_none() {
    let def = args_three_macro();
    let args = must(ArgsIndexMap::from_list(&vec![]));
    let call =
        must(call_orderless(CallOrderlessOptions { func: def.func, defs: def.defs, args }));
    assert_eq!(render_call(&call), "Args::three(Args { c: false }, false, false)");
    let vals = call.args;
    assert_eq!(
        eval_receiver(&vals[0]).three(eval(&vals[1], false), eval(&vals[2], false)),
        (false, false, false)
    );
}

#[test]
fn test_impl_orderless_just_a() {
    let vals = invoke(args_three_macro(), vec![nv("a", "true")]);
    assert_eq!(
        eval_receiver(&vals[0]).three(eval(&vals[1], false), eval(&vals[2], false)),
        (true, false, false)
    );
}

#[test]
fn test_impl_orderless_just_b() {
    let b: bool = true;
    let vals = invoke(args_three_macro(), vec![bare("b")]);
    assert_eq!(
        eval_receiver(&vals[0]).three(eval(&vals[1], b), eval(&vals[2], b)),
        (false, true, false)
    );
}

#[test]
fn test_impl_orderless_a_and_b() {
    let b: bool = true;
    let vals = invoke(args_three_macro(), vec![bare("b"), nv("a", "true")]);
    assert_eq!(
        eval_receiver(&vals[0]).three(eval(&vals[1], b), eval(&vals[2], b)),
        (true, true, false)
    );
}
