use orderless::call_orderless::{call_orderless, render_call, CallOrderlessOptions};
use orderless::create_orderless::{create_orderless, CreateOrderlessOptions};
use orderless::impl_orderless::{
    impl_orderless, ImplBlockModel, ImplFnModel, ImplItemModel, ImplOrderlessOptions, MarkerArgs,
};
use orderless::make_orderless::{make_orderless, FnSigModel, MakeOrderlessOptions};
use orderless::utils::{
    ArgsIndexMap, DIdent, ExprModel, FnArgModel, IdentIndexSet, NestedMetaModel, OrderlessError,
    PatModel, PathModel, PathSeg,
};

fn path(names: &[&str]) -> PathModel {
    PathModel {
        leading_colon: false,
        segments: names
            .iter()
            .map(|n| PathSeg { ident: n.to_string(), has_arguments: false })
            .collect(),
    }
}

fn ident_path(name: &str) -> PathModel {
    path(&[name])
}

fn nv(name: &str, value: &str) -> NestedMetaModel {
    NestedMetaModel::NameValue { path: ident_path(name), value: value.to_string() }
}

fn bare(name: &str) -> NestedMetaModel {
    NestedMetaModel::BarePath { path: ident_path(name) }
}

fn must<T>(r: Result<T, OrderlessError>) -> T {
    match r {
        Ok(v) => v,
        Err(_) => panic!("expansion was expected to succeed"),
    }
}

fn resolve_two(args: Vec<NestedMetaModel>) -> Result<Vec<String>, OrderlessError> {
    let defs = must(ArgsIndexMap::from_list(&vec![nv("a", "false"), nv("b", "false")]));
    let args = must(ArgsIndexMap::from_list(&args));
    call_orderless(CallOrderlessOptions { func: ident_path("two"), defs, args })
        .map(|call| call.args)
}

#[test]
fn extra_argument_names_the_first_unknown() {
    match resolve_two(vec![bare("b"), nv("c", "true"), nv("d", "true")]) {
        Err(OrderlessError::ExtraArgument { name }) => assert_eq!(name, "c"),
        _ => panic!("an extra argument was expected to fail"),
    }
}

#[test]
fn missing_argument_names_the_first_unsupplied() {
    // `order(a, b)` with a default only for `b`: `a` is required, and the
    // preset decides the positional order.
    let order = must(IdentIndexSet::from_list(&vec![bare("a"), bare("b")]));
    let defs = must(ArgsIndexMap::from_list(&vec![nv("b", "false")]));
    let def = must(create_orderless(CreateOrderlessOptions {
        name: None,
        public: None,
        func: ident_path("two"),
        order: Some(order),
        defs,
    }));
    let args = must(ArgsIndexMap::from_list(&vec![]));
    match call_orderless(CallOrderlessOptions { func: def.func, defs: def.defs, args }) {
        Err(OrderlessError::MissingArgument { name }) => assert_eq!(name, "a"),
        _ => panic!("a missing argument was expected to fail"),
    }
}

#[test]
fn order_preset_keeps_declaration_order() {
    // The preset fixes the order even when the defaults list it afterwards
    // in another order.
    let order = must(IdentIndexSet::from_list(&vec![bare("a"), bare("b")]));
    let defs = must(ArgsIndexMap::from_list(&vec![nv("b", "2"), nv("a", "1")]));
    let def = must(create_orderless(CreateOrderlessOptions {
        name: None,
        public: None,
        func: ident_path("two"),
        order: Some(order),
        defs,
    }));
    let args = must(ArgsIndexMap::from_list(&vec![]));
    let call =
        must(call_orderless(CallOrderlessOptions { func: def.func, defs: def.defs, args }));
    assert_eq!(render_call(&call), "two(1, 2)");
}

#[test]
fn repeated_override_last_write_wins() {
    let vals = must(resolve_two(vec![nv("a", "false"), nv("a", "true")]));
    assert_eq!(vals, vec!["true".to_string(), "false".to_string()]);
}

#[test]
fn override_order_never_changes_positions() {
    let forward = must(resolve_two(vec![bare("b"), nv("a", "true")]));
    let backward = must(resolve_two(vec![nv("a", "true"), bare("b")]));
    assert_eq!(forward, backward);
    assert_eq!(forward, vec!["true".to_string(), "b".to_string()]);
}

#[test]
fn bare_name_is_name_equals_name() {
    let shorthand = must(resolve_two(vec![bare("b")]));
    let spelled_out = must(resolve_two(vec![nv("b", "b")]));
    assert_eq!(shorthand, spelled_out);
    assert_eq!(shorthand, vec!["false".to_string(), "b".to_string()]);
}

#[test]
fn qualified_path_derives_the_macro_name() {
    // Each qualifying separator becomes a single underscore.
    let defs = must(ArgsIndexMap::from_list(&vec![nv("c", "true")]));
    let def = must(create_orderless(CreateOrderlessOptions {
        name: None,
        public: None,
        func: path(&["Three", "three"]),
        order: None,
        defs,
    }));
    assert_eq!(def.name, "Three_three");
}

#[test]
fn unconvertible_name_is_rejected() {
    // A single keyword segment joins to a keyword, which is no identifier.
    let defs = must(ArgsIndexMap::from_list(&vec![nv("a", "false")]));
    match create_orderless(CreateOrderlessOptions {
        name: None,
        public: None,
        func: path(&["self"]),
        order: None,
        defs,
    }) {
        Err(OrderlessError::UnconvertibleName { text }) => assert_eq!(text, "self"),
        _ => panic!("a keyword name was expected to fail"),
    }
}

#[test]
fn generic_self_type_text_is_rejected() {
    let block = ImplBlockModel { self_ty_text: "Three < T >".to_string(), items: vec![] };
    match impl_orderless(ImplOrderlessOptions { name: None }, block) {
        Err(OrderlessError::UnconvertibleName { text }) => assert_eq!(text, "Three < T >"),
        _ => panic!("a generic self type was expected to fail"),
    }
}

#[test]
fn unmarked_items_pass_through_unchanged() {
    let defs = must(ArgsIndexMap::from_list(&vec![nv("a", "false")]));
    let block = ImplBlockModel {
        self_ty_text: "Args".to_string(),
        items: vec![
            ImplItemModel::Other,
            ImplItemModel::Method {
                func: ImplFnModel { ident: "plain".to_string(), marker: None },
            },
            ImplItemModel::Method {
                func: ImplFnModel {
                    ident: "fancy".to_string(),
                    marker: Some(MarkerArgs { name: None, public: None, order: None, defs }),
                },
            },
        ],
    };
    let (rewritten, creates) = must(impl_orderless(ImplOrderlessOptions { name: None }, block));
    assert_eq!(rewritten.items.len(), 3);
    assert!(matches!(rewritten.items[0], ImplItemModel::Other));
    match &rewritten.items[1] {
        ImplItemModel::Method { func } => {
            assert_eq!(func.ident, "plain");
            assert!(func.marker.is_none());
        }
        ImplItemModel::Other => panic!("the unmarked function was not emitted"),
    }
    assert_eq!(creates.len(), 1);
    let def = must(create_orderless(creates.into_iter().next().unwrap()));
    assert_eq!(def.name, "Args__fancy");
}

#[test]
fn non_identifier_argument_is_rejected() {
    let items = vec![NestedMetaModel::Other { text: "1 + 1".to_string() }];
    match ArgsIndexMap::from_list(&items) {
        Err(OrderlessError::ExpectedIdent { text }) => assert_eq!(text, "1 + 1"),
        _ => panic!("a non-identifier item was expected to fail"),
    }
}

#[test]
fn qualified_argument_name_is_rejected() {
    let items = vec![NestedMetaModel::NameValue {
        path: path(&["a", "b"]),
        value: "true".to_string(),
    }];
    match ArgsIndexMap::from_list(&items) {
        Err(OrderlessError::ExpectedIdent { text }) => assert_eq!(text, "a::b"),
        _ => panic!("a qualified name was expected to fail"),
    }
}

#[test]
fn public_flag_marks_the_definition_exported() {
    let defs = must(ArgsIndexMap::from_list(&vec![nv("a", "false")]));
    let def = must(create_orderless(CreateOrderlessOptions {
        name: None,
        public: Some(true),
        func: ident_path("two"),
        order: None,
        defs,
    }));
    assert!(def.public);
}

#[test]
fn name_option_takes_a_plain_identifier() {
    let ok = DIdent::from_expr(&ExprModel::Path { path: ident_path("cool_add") });
    match ok {
        Ok(DIdent(name)) => assert_eq!(name, "cool_add"),
        Err(_) => panic!("a plain identifier was expected to pass"),
    }
    let qualified = DIdent::from_expr(&ExprModel::Path { path: path(&["a", "b"]) });
    match qualified {
        Err(OrderlessError::ExpectedIdent { text }) => assert_eq!(text, "a::b"),
        _ => panic!("a qualified name was expected to fail"),
    }
    let other = DIdent::from_expr(&ExprModel::Other { text: "1 + 1".to_string() });
    assert!(matches!(other, Err(OrderlessError::ExpectedIdent { .. })));
}

#[test]
fn destructured_binding_is_rejected() {
    let sig = FnSigModel {
        ident: "two".to_string(),
        inputs: vec![FnArgModel::Typed {
            pat: PatModel::Other { text: "(a, b)".to_string() },
        }],
    };
    let r = make_orderless(MakeOrderlessOptions { name: None, public: None, defs: None }, &sig);
    match r {
        Err(OrderlessError::NotAnIdentBinding { text }) => assert_eq!(text, "(a, b)"),
        _ => panic!("a destructured binding was expected to fail"),
    }
}

#[test]
fn receiver_counts_as_self() {
    let sig = FnSigModel {
        ident: "three".to_string(),
        inputs: vec![
            FnArgModel::Receiver,
            FnArgModel::Typed { pat: PatModel::Ident { name: "c".to_string() } },
        ],
    };
    let create = must(make_orderless(
        MakeOrderlessOptions { name: None, public: None, defs: None },
        &sig,
    ));
    let def = must(create_orderless(create));
    assert_eq!(def.defs.len(), 2);
    let (first, first_default) = def.defs.entry_at(0);
    assert_eq!(first, "self");
    assert!(first_default.is_none());
    let (second, _) = def.defs.entry_at(1);
    assert_eq!(second, "c");
}

#[test]
fn default_for_undeclared_parameter_is_rejected() {
    // The bare-function form fixes the key set to the declared parameters.
    let sig = FnSigModel {
        ident: "two".to_string(),
        inputs: vec![
            FnArgModel::Typed { pat: PatModel::Ident { name: "a".to_string() } },
            FnArgModel::Typed { pat: PatModel::Ident { name: "b".to_string() } },
        ],
    };
    let defs = must(ArgsIndexMap::from_list(&vec![nv("a", "false"), nv("c", "false")]));
    let r = make_orderless(
        MakeOrderlessOptions { name: None, public: None, defs: Some(defs) },
        &sig,
    );
    match r {
        Err(OrderlessError::ExtraArgument { name }) => assert_eq!(name, "c"),
        _ => panic!("an undeclared default was expected to fail"),
    }
}
