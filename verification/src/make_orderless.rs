//! The definition collector for the attribute form on a function: reads the
//! function's own parameter list (the receiver counts as `self`), seeds every
//! parameter as required with no default, overlays the attribute's declared
//! defaults, and hands the result on as one macro-synthesizer invocation
//! targeting the function.  The function item itself passes through
//! unchanged.

use vstd::prelude::*;

use crate::utils::ArgsIndexMap;
use crate::utils::DIdent;
use crate::utils::FnArgModel;
use crate::utils::OrderlessError;
use crate::utils::PathModel;
use crate::utils::PathSeg;
use crate::utils::SpecEntry;
use crate::utils::fn_arg_name;
use crate::utils::fn_arg_ok;
use crate::utils::fn_arg_text;
use crate::utils::ident_from_fn_arg;
use crate::utils::has_key;
use crate::utils::map_insert;
use crate::utils::unique_keys;
use crate::call_orderless::all_args_known;
use crate::call_orderless::first_extra;
use crate::call_orderless::lemma_first_extra;
use crate::call_orderless::lemma_overlay;
use crate::call_orderless::resolved_at;
use crate::call_orderless::spec_overlay;
use crate::create_orderless::CreateOrderlessOptions;

verus! {

/// The options of the attribute form on a function: an optional macro name,
/// the visibility flag, and optional declared defaults.
pub struct MakeOrderlessOptions {
    pub name: Option<DIdent>,
    pub public: Option<bool>,
    pub defs: Option<ArgsIndexMap>,
}

/// A function signature, as far as the collector reads it: the function's
/// name and its parameter bindings in declaration order.
pub struct FnSigModel {
    pub ident: String,
    pub inputs: Vec<FnArgModel>,
}

/// The mapping a parameter list seeds: each parameter required, with no
/// default, in declaration order.
pub open spec fn seed_params(inputs: Seq<FnArgModel>) -> Seq<SpecEntry>
    decreases inputs.len(),
{
    if inputs.len() == 0 {
        Seq::empty()
    } else {
        map_insert(seed_params(inputs.drop_last()), fn_arg_name(inputs.last()), None)
    }
}

/// The first parameter whose binding is not a plain name (meaningful only
/// when one exists).
pub open spec fn first_bad_arg(inputs: Seq<FnArgModel>) -> int
    decreases inputs.len(),
{
    if inputs.len() == 0 {
        0
    } else if !fn_arg_ok(inputs[0]) {
        0
    } else {
        1 + first_bad_arg(inputs.drop_first())
    }
}

/// `first_bad_arg` finds the first parameter that is not a plain name.
pub proof fn lemma_first_bad_arg(inputs: Seq<FnArgModel>, i: int)
    requires
        0 <= i < inputs.len(),
        forall|j: int| 0 <= j < i ==> fn_arg_ok(#[trigger] inputs[j]),
        !fn_arg_ok(inputs[i]),
    ensures
        first_bad_arg(inputs) == i,
    decreases i,
{
    if i == 0 {
    } else {
        assert(inputs.drop_first()[i - 1] == inputs[i]);
        assert forall|j: int| 0 <= j < i - 1 implies fn_arg_ok(
            #[trigger] inputs.drop_first()[j],
        ) by {
            assert(inputs.drop_first()[j] == inputs[j + 1]);
        }
        lemma_first_bad_arg(inputs.drop_first(), i - 1);
    }
}

/// The declared defaults the attribute contributes (none means none).
pub open spec fn spec_attr_defs(options: MakeOrderlessOptions) -> Seq<SpecEntry> {
    match options.defs {
        Some(m) => m.entries(),
        None => Seq::empty(),
    }
}

/// The macro name the attribute form asks for: the explicit name when given,
/// else the function's own name.
pub open spec fn spec_make_name(options: MakeOrderlessOptions, sig: FnSigModel) -> Seq<char> {
    match options.name {
        Some(d) => d.0@,
        None => sig.ident@,
    }
}

/// Collects a function's parameters and the attribute's defaults into the
/// macro-synthesizer invocation the attribute form emits beside the
/// unchanged function; a parameter binding that is not a plain name is
/// rejected.
pub fn make_orderless(options: MakeOrderlessOptions, sig: &FnSigModel) -> (r: Result<
    CreateOrderlessOptions,
    OrderlessError,
>)
    requires
        options.defs matches Some(m) ==> m.wf(),
    ensures
        ({
            let seeded = seed_params(sig.inputs@);
            let attr_ds = spec_attr_defs(options);
            match r {
                Ok(o) => {
                    &&& forall|i: int|
                        0 <= i < sig.inputs@.len() ==> fn_arg_ok(#[trigger] sig.inputs@[i])
                    &&& all_args_known(seeded, attr_ds)
                    &&& o.name matches Some(d) && d.0@ == spec_make_name(options, *sig)
                    &&& o.public == Some(options.public == Some(true))
                    &&& o.func.is_strict_ident()
                    &&& o.func.ident_name() == sig.ident@
                    &&& o.func.seg_names() =~= seq![sig.ident@]
                    &&& o.order is None
                    &&& o.defs.entries() == spec_overlay(seeded, attr_ds)
                    &&& o.defs.wf()
                },
                Err(OrderlessError::NotAnIdentBinding { text }) => {
                    &&& !(forall|i: int|
                        0 <= i < sig.inputs@.len() ==> fn_arg_ok(#[trigger] sig.inputs@[i]))
                    &&& text@ == fn_arg_text(sig.inputs@[first_bad_arg(sig.inputs@)])
                },
                Err(OrderlessError::ExtraArgument { name }) => {
                    &&& forall|i: int|
                        0 <= i < sig.inputs@.len() ==> fn_arg_ok(#[trigger] sig.inputs@[i])
                    &&& !all_args_known(seeded, attr_ds)
                    &&& name@ == attr_ds[first_extra(seeded, attr_ds)].0
                },
                Err(_) => false,
            }
        }),
{
    let MakeOrderlessOptions { name, public, defs } = options;
    let macro_name: DIdent = match name {
        Some(d) => d,
        None => DIdent(sig.ident.clone()),
    };

    // Every declared parameter, in order, required until a default says
    // otherwise.
    let mut arg_map = ArgsIndexMap::new();
    let n = sig.inputs.len();
    let mut i: usize = 0;
    while i < n
        invariant
            n == sig.inputs@.len(),
            i <= n,
            forall|j: int| 0 <= j < i ==> fn_arg_ok(#[trigger] sig.inputs@[j]),
            arg_map.entries() == seed_params(sig.inputs@.take(i as int)),
            arg_map.wf(),
        decreases n - i,
    {
        let ghost gi = i as int;
        match ident_from_fn_arg(&sig.inputs[i]) {
            Ok(arg_name) => {
                arg_map.insert(arg_name, None);
            },
            Err(e) => {
                proof {
                    assert(!fn_arg_ok(sig.inputs@[gi]));
                    lemma_first_bad_arg(sig.inputs@, gi);
                }
                return Err(e);
            },
        }
        i = i + 1;
        proof {
            assert(sig.inputs@.take(i as int).drop_last() =~= sig.inputs@.take(i - 1));
            assert(sig.inputs@.take(i as int).last() == sig.inputs@[i - 1]);
            assert(None::<String>.deep_view() == None::<Seq<char>>);
        }
    }
    proof {
        assert(sig.inputs@.take(sig.inputs@.len() as int) =~= sig.inputs@);
    }

    // Overlay the attribute's declared defaults, in place; the function's
    // own parameters fix the key set, so a default for an undeclared name is
    // an extra argument.
    let ghost seeded = seed_params(sig.inputs@);
    let ghost attr_ds = match &defs {
        Some(m) => m.entries(),
        None => Seq::<SpecEntry>::empty(),
    };
    proof {
        assert(unique_keys(seeded));
    }
    match &defs {
        Some(m) => {
            let dn = m.len();
            let mut j: usize = 0;
            while j < dn
                invariant
                    forall|i: int|
                        0 <= i < sig.inputs@.len() ==> fn_arg_ok(#[trigger] sig.inputs@[i]),
                    seeded == seed_params(sig.inputs@),
                    attr_ds == spec_attr_defs(options),
                    unique_keys(seeded),
                    unique_keys(attr_ds),
                    dn == attr_ds.len(),
                    attr_ds == m.entries(),
                    j <= dn,
                    forall|jj: int| 0 <= jj < j ==> has_key(seeded, #[trigger] attr_ds[jj].0),
                    arg_map.entries() == spec_overlay(seeded, attr_ds.take(j as int)),
                    arg_map.wf(),
                decreases dn - j,
            {
                let ghost gj = j as int;
                proof {
                    assert forall|a: int, b: int|
                        0 <= a < b < attr_ds.take(gj).len() implies (#[trigger] attr_ds.take(
                        gj,
                    )[a]).0 != (#[trigger] attr_ds.take(gj)[b]).0 by {
                        assert(attr_ds.take(gj)[a] == attr_ds[a]);
                        assert(attr_ds.take(gj)[b] == attr_ds[b]);
                    }
                    assert forall|jj: int| 0 <= jj < attr_ds.take(gj).len() implies has_key(
                        seeded,
                        (#[trigger] attr_ds.take(gj)[jj]).0,
                    ) by {
                        assert(attr_ds.take(gj)[jj] == attr_ds[jj]);
                    }
                    lemma_overlay(seeded, attr_ds.take(gj));
                }
                let (k, v) = m.entry_at(j);
                if arg_map.contains(&k) {
                    proof {
                        let w = choose|ii: int|
                            0 <= ii < arg_map.entries().len() && arg_map.entries()[ii].0 == k@;
                        assert(arg_map.entries()[w] == (
                            seeded[w].0,
                            resolved_at(seeded, attr_ds.take(gj), w),
                        ));
                        assert(has_key(seeded, k@));
                    }
                    arg_map.insert(k, v);
                    j = j + 1;
                    proof {
                        assert(attr_ds.take(gj + 1).drop_last() =~= attr_ds.take(gj));
                        assert(attr_ds.take(gj + 1).last() == attr_ds[gj]);
                        assert((k@, v.deep_view()) == attr_ds[gj]);
                        assert(arg_map.entries() == spec_overlay(seeded, attr_ds.take(j as int)));
                    }
                } else {
                    proof {
                        assert(!has_key(seeded, k@)) by {
                            if has_key(seeded, k@) {
                                let w = choose|ii: int|
                                    0 <= ii < seeded.len() && seeded[ii].0 == k@;
                                assert(arg_map.entries()[w] == (
                                    seeded[w].0,
                                    resolved_at(seeded, attr_ds.take(gj), w),
                                ));
                                assert(has_key(arg_map.entries(), k@));
                            }
                        }
                        assert(attr_ds[gj].0 == k@);
                        lemma_first_extra(seeded, attr_ds, gj);
                    }
                    return Err(OrderlessError::ExtraArgument { name: k });
                }
            }
            proof {
                assert(attr_ds.take(attr_ds.len() as int) =~= attr_ds);
            }
        },
        None => {},
    }

    let is_public: bool = match public {
        Some(p) => p,
        None => false,
    };
    let func = PathModel {
        leading_colon: false,
        segments: vec![PathSeg { ident: sig.ident.clone(), has_arguments: false }],
    };
    Ok(
        CreateOrderlessOptions {
            name: Some(macro_name),
            public: Some(is_public),
            func,
            order: None,
            defs: arg_map,
        },
    )
}

} // verus!
