use orderless::call_orderless::{call_orderless, render_call, CallOrderlessOptions};
use orderless::utils::{ArgsIndexMap, NestedMetaModel, OrderlessError, PathModel, PathSeg};

fn two<T>(a: T, b: T) -> (T, T) {
    (a, b)
}

fn ident_path(name: &str) -> PathModel {
    PathModel {
        leading_colon: false,
        segments: vec![PathSeg { ident: name.to_string(), has_arguments: false }],
    }
}

fn nv(name: &str, value: &str) -> NestedMetaModel {
    NestedMetaModel::NameValue { path: ident_path(name), value: value.to_string() }
}

fn bare(name: &str) -> NestedMetaModel {
    NestedMetaModel::BarePath { path: ident_path(name) }
}

fn must<T>(r: Result<T, OrderlessError>) -> T {
    match r {
        Ok(v) => v,
        Err(_) => panic!("resolution was expected to succeed"),
    }
}

/// Evaluates an argument expression as the original call sites do: a boolean
/// literal, or the in-scope variable named `b`.
fn eval(expr: &str, b_in_scope: bool) -> bool {
    match expr {
        "true" => true,
        "false" => false,
        "b" => b_in_scope,
        other => panic!("unexpected expression: {}", other),
    }
}

#[test]
fn call_orderless_none() {
    let defs = must(ArgsIndexMap::from_list(&vec![nv("a", "false"), nv("b", "false")]));
    let args = must(ArgsIndexMap::from_list(&vec![]));
    let call = must(call_orderless(CallOrderlessOptions { func: ident_path("two"), defs, args }));
    assert_eq!(render_call(&call), "two(false, false)");
    assert_eq!(two(eval(&call.args[0], false), eval(&call.args[1], false)), (false, false));
}

#[test]
fn call_orderless_just_a() {
    let defs = must(ArgsIndexMap::from_list(&vec![nv("a", "false"), nv("b", "false")]));
    let args = must(ArgsIndexMap::from_list(&vec![nv("a", "true")]));
    let call = must(call_orderless(CallOrderlessOptions { func: ident_path("two"), defs, args }));
    assert_eq!(two(eval(&call.args[0], false), eval(&call.args[1], false)), (true, false));
}

#[test]
fn call_orderless_just_b() {
    let b: bool = true;
    let defs = must(ArgsIndexMap::from_list(&vec![nv("a", "false"), nv("b", "false")]));
    let args = must(ArgsIndexMap::from_list(&vec![bare("b")]));
    let call = must(call_orderless(CallOrderlessOptions { func: ident_path("two"), defs, args }));
    assert_eq!(two(eval(&call.args[0], b), eval(&call.args[1], b)), (false, true));
}

#[test]
fn call_orderless_a_and_b() {
    let b: bool = true;
    let defs = must(ArgsIndexMap::from_list(&vec![nv("a", "false"), nv("b", "false")]));
    let args = must(ArgsIndexMap::from_list(&vec![bare("b"), nv("a", "true")]));
    let call = must(call_orderless(CallOrderlessOptions { func: ident_path("two"), defs, args }));
    assert_eq!(two(eval(&call.args[0], b), eval(&call.args[1], b)), (true, true));
}
