//! The macro synthesizer: turns a callable reference, a name, a visibility
//! flag, an optional order preset and a defaults list into the definition of
//! a reusable orderless call macro.
//!
//! The macro's name is the explicit one when given, else the callable's path
//! with each qualifying separator replaced by a single underscore; a name
//! that is not a valid identifier is a hard failure.  The defaults mapping
//! is seeded by the order preset (each preset name required, with no
//! default, until the defaults list says otherwise) and then overlaid with
//! the defaults list.

use vstd::prelude::*;

use crate::utils::ArgsIndexMap;
use crate::utils::DIdent;
use crate::utils::IdentIndexSet;
use crate::utils::OrderlessError;
use crate::utils::PathModel;
use crate::utils::SpecEntry;
use crate::utils::check_macro_name;
use crate::utils::join_strings;
use crate::utils::map_insert;
use crate::utils::path_segment_names;
use crate::utils::spec_join;
use crate::utils::valid_macro_ident;
use crate::call_orderless::spec_overlay;

verus! {

/// The options of the definition form: an optional macro name, the
/// visibility flag, the callable, an optional order preset, and the declared
/// defaults.
pub struct CreateOrderlessOptions {
    pub name: Option<DIdent>,
    pub public: Option<bool>,
    pub func: PathModel,
    pub order: Option<IdentIndexSet>,
    pub defs: ArgsIndexMap,
}

/// A synthesized macro definition: its name, whether it is exported, the
/// callable it forwards to, and the defaults it closes over.
pub struct MacroDef {
    pub name: String,
    pub public: bool,
    pub func: PathModel,
    pub defs: ArgsIndexMap,
}

/// The macro name the options ask for: the explicit name when given, else
/// the callable's segments joined with a single underscore (each `::`
/// separator becomes `_`).
pub open spec fn spec_macro_name(options: CreateOrderlessOptions) -> Seq<char> {
    match options.name {
        Some(d) => d.0@,
        None => spec_join(options.func.seg_names(), "_"@),
    }
}

/// The names an order preset contributes, in order.
pub open spec fn spec_order_names(options: CreateOrderlessOptions) -> Seq<Seq<char>> {
    match options.order {
        Some(s) => s.elems(),
        None => Seq::empty(),
    }
}

/// The mapping an order preset seeds: each name required, with no default.
pub open spec fn seed_order(names: Seq<Seq<char>>) -> Seq<SpecEntry>
    decreases names.len(),
{
    if names.len() == 0 {
        Seq::empty()
    } else {
        map_insert(seed_order(names.drop_last()), names.last(), None)
    }
}

/// The defaults a synthesized macro closes over: the order preset's names
/// first, then the declared defaults overlaid in place.
pub open spec fn spec_create_defs(options: CreateOrderlessOptions) -> Seq<SpecEntry> {
    spec_overlay(seed_order(spec_order_names(options)), options.defs.entries())
}

/// Synthesizes the macro definition the options describe; a derived name
/// that is not a valid identifier is rejected.
pub fn create_orderless(options: CreateOrderlessOptions) -> (r: Result<MacroDef, OrderlessError>)
    ensures
        r is Ok <==> valid_macro_ident(spec_macro_name(options)),
        r is Ok ==> ({
            let d = r->Ok_0;
            &&& d.name@ == spec_macro_name(options)
            &&& d.public == (options.public == Some(true))
            &&& d.func == options.func
            &&& d.defs.entries() == spec_create_defs(options)
            &&& d.defs.wf()
        }),
        (r is Err ==> (r->Err_0 matches OrderlessError::UnconvertibleName { text } && text@
            == spec_macro_name(options))),
{
    let CreateOrderlessOptions { name, public, func, order, defs } = options;
    let derived: String = match name {
        Some(d) => d.0,
        None => {
            let names = path_segment_names(&func);
            join_strings(&names, "_")
        },
    };
    let macro_name = match check_macro_name(derived) {
        Ok(n) => n,
        Err(e) => {
            return Err(e);
        },
    };

    let mut args = ArgsIndexMap::new();

    // Seed the key order from the preset, when one is given.
    let ghost order_names = match &order {
        Some(s) => s.elems(),
        None => Seq::<Seq<char>>::empty(),
    };
    match &order {
        Some(sig) => {
            let n = sig.len();
            let mut i: usize = 0;
            while i < n
                invariant
                    n == order_names.len(),
                    order_names == sig.elems(),
                    i <= n,
                    args.entries() == seed_order(order_names.take(i as int)),
                    args.wf(),
                decreases n - i,
            {
                let k = sig.elem_at(i);
                args.insert(k, None);
                i = i + 1;
                proof {
                    assert(order_names.take(i as int).drop_last() =~= order_names.take(i - 1));
                    assert(order_names.take(i as int).last() == order_names[i - 1]);
                    assert(None::<String>.deep_view() == None::<Seq<char>>);
                }
            }
            proof {
                assert(order_names.take(order_names.len() as int) =~= order_names);
            }
        },
        None => {
            proof {
                assert(seed_order(order_names) =~= Seq::<SpecEntry>::empty());
            }
        },
    }

    // Overlay the declared defaults, in place.
    let ghost ds = defs.entries();
    let ghost seeded = seed_order(order_names);
    let n = defs.len();
    let mut i: usize = 0;
    while i < n
        invariant
            n == ds.len(),
            ds == defs.entries(),
            i <= n,
            args.entries() == spec_overlay(seeded, ds.take(i as int)),
            args.wf(),
        decreases n - i,
    {
        let (k, v) = defs.entry_at(i);
        args.insert(k, v);
        i = i + 1;
        proof {
            assert(ds.take(i as int).drop_last() =~= ds.take(i - 1));
            assert(ds.take(i as int).last() == ds[i - 1]);
        }
    }
    proof {
        assert(ds.take(ds.len() as int) =~= ds);
    }

    let is_public: bool = match public {
        Some(p) => p,
        None => false,
    };
    Ok(MacroDef { name: macro_name, public: is_public, func, defs: args })
}

} // verus!
