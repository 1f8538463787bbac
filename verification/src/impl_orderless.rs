//! The adapter for blocks of associated functions: computes a block prefix
//! (an explicit override, else the block's self-type text), strips the
//! orderless marker from each marked function, and drives one macro-synthesizer
//! invocation per marked function, targeting `prefix::function` and named
//! `prefix__function` — prefix and function name joined with a double
//! underscore — unless the marker asks for a name of its own.  The block
//! itself is emitted first, markers removed and everything else unchanged.

use vstd::prelude::*;

use crate::utils::ArgsIndexMap;
use crate::utils::DIdent;
use crate::utils::IdentIndexSet;
use crate::utils::OrderlessError;
use crate::utils::PathModel;
use crate::utils::PathSeg;
use crate::utils::check_macro_name;
use crate::utils::valid_macro_ident;
use crate::create_orderless::CreateOrderlessOptions;

verus! {

/// The options of the attribute form on a block: an optional prefix
/// override.
pub struct ImplOrderlessOptions {
    pub name: Option<DIdent>,
}

/// What a function's orderless marker carries: the options of one
/// macro-synthesizer invocation, less the callable, which the block
/// supplies.
pub struct MarkerArgs {
    pub name: Option<DIdent>,
    pub public: Option<bool>,
    pub order: Option<IdentIndexSet>,
    pub defs: ArgsIndexMap,
}

/// An associated function of the block: its name, and its marker when it
/// carries one.
pub struct ImplFnModel {
    pub ident: String,
    pub marker: Option<MarkerArgs>,
}

/// An item of the block: an associated function, or anything else, which
/// passes through untouched.
pub enum ImplItemModel {
    Method { func: ImplFnModel },
    Other,
}

/// A block of associated functions: its self-type's textual form, and its
/// items in declaration order.
pub struct ImplBlockModel {
    pub self_ty_text: String,
    pub items: Vec<ImplItemModel>,
}

/// The block prefix the options ask for: the override when given, else the
/// self-type text.
pub open spec fn spec_prefix(options: ImplOrderlessOptions, block: ImplBlockModel) -> Seq<char> {
    match options.name {
        Some(d) => d.0@,
        None => block.self_ty_text@,
    }
}

/// How an emitted item relates to the one it came from: a function keeps its
/// name and loses its marker; anything else is unchanged.
pub open spec fn stripped_item(a: ImplItemModel, b: ImplItemModel) -> bool {
    match a {
        ImplItemModel::Method { func } => match b {
            ImplItemModel::Method { func: g } => g.ident@ == func.ident@ && g.marker is None,
            ImplItemModel::Other => false,
        },
        ImplItemModel::Other => b is Other,
    }
}

/// The marked functions of the items, in declaration order.
pub open spec fn marked_fns(items: Seq<ImplItemModel>) -> Seq<ImplFnModel>
    decreases items.len(),
{
    if items.len() == 0 {
        Seq::empty()
    } else {
        let front = marked_fns(items.drop_last());
        match items.last() {
            ImplItemModel::Method { func } => if func.marker is Some {
                front.push(func)
            } else {
                front
            },
            ImplItemModel::Other => front,
        }
    }
}

/// How a synthesizer invocation relates to the marked function it is made
/// for: it carries the marker's options, targets `prefix::function`, and is
/// named `prefix__function` where the marker names nothing.
pub open spec fn create_matches(
    prefix: Seq<char>,
    f: ImplFnModel,
    c: CreateOrderlessOptions,
) -> bool {
    match f.marker {
        Some(m) => {
            &&& (match m.name {
                Some(_) => c.name == m.name,
                None => (c.name matches Some(d) && d.0@ == prefix + "__"@ + f.ident@),
            })
            &&& c.public == m.public
            &&& c.order == m.order
            &&& c.defs == m.defs
            &&& !c.func.leading_colon
            &&& c.func.segments@.len() == 2
            &&& c.func.seg_names() =~= seq![prefix, f.ident@]
            &&& !c.func.segments@[0].has_arguments
            &&& !c.func.segments@[1].has_arguments
        },
        None => false,
    }
}

/// Rewrites a block of associated functions: the block comes back with every
/// marker stripped, beside one macro-synthesizer invocation per marked
/// function, in declaration order; a prefix that is not a valid identifier
/// is rejected.
pub fn impl_orderless(options: ImplOrderlessOptions, block: ImplBlockModel) -> (r: Result<
    (ImplBlockModel, Vec<CreateOrderlessOptions>),
    OrderlessError,
>)
    ensures
        r is Ok <==> (options.name is Some || valid_macro_ident(block.self_ty_text@)),
        r is Ok ==> ({
            let out = r->Ok_0.0;
            let creates = r->Ok_0.1;
            let marked = marked_fns(block.items@);
            &&& out.self_ty_text@ == block.self_ty_text@
            &&& out.items@.len() == block.items@.len()
            &&& forall|i: int|
                0 <= i < block.items@.len() ==> stripped_item(
                    block.items@[i],
                    #[trigger] out.items@[i],
                )
            &&& creates@.len() == marked.len()
            &&& forall|i: int|
                0 <= i < marked.len() ==> create_matches(
                    spec_prefix(options, block),
                    marked[i],
                    #[trigger] creates@[i],
                )
        }),
        (r is Err ==> (r->Err_0 matches OrderlessError::UnconvertibleName { text } && text@
            == block.self_ty_text@ && options.name is None)),
{
    let ImplOrderlessOptions { name } = options;
    let ImplBlockModel { self_ty_text, mut items } = block;
    let ghost orig = items@;
    let ghost prefix_spec = spec_prefix(options, block);

    let prefix: String = match name {
        Some(d) => d.0,
        None => {
            match check_macro_name(self_ty_text.clone()) {
                Ok(n) => n,
                Err(e) => {
                    return Err(e);
                },
            }
        },
    };

    let mut out_items: Vec<ImplItemModel> = Vec::new();
    let mut creates: Vec<CreateOrderlessOptions> = Vec::new();

    while items.len() > 0
        invariant
            prefix@ == prefix_spec,
            out_items@.len() + items@.len() == orig.len(),
            items@ == orig.skip(out_items@.len() as int),
            forall|i: int|
                0 <= i < out_items@.len() ==> stripped_item(orig[i], #[trigger] out_items@[i]),
            creates@.len() == marked_fns(orig.take(out_items@.len() as int)).len(),
            forall|i: int|
                0 <= i < creates@.len() ==> create_matches(
                    prefix_spec,
                    marked_fns(orig.take(out_items@.len() as int))[i],
                    #[trigger] creates@[i],
                ),
        decreases items@.len(),
    {
        let ghost done = out_items@.len() as int;
        let it = items.remove(0);
        proof {
            assert(it == orig.skip(done)[0]);
            assert(it == orig[done]);
            assert(items@ =~= orig.skip(done + 1));
            assert(orig.take(done + 1).drop_last() =~= orig.take(done));
            assert(orig.take(done + 1).last() == orig[done]);
        }
        match it {
            ImplItemModel::Method { func } => {
                let ImplFnModel { ident, marker } = func;
                match marker {
                    Some(m) => {
                        let MarkerArgs { name: m_name, public, order, defs } = m;
                        let create_name: DIdent = match m_name {
                            Some(d) => d,
                            None => {
                                let mut joined = prefix.clone();
                                joined.append("__");
                                joined.append(ident.as_str());
                                DIdent(joined)
                            },
                        };
                        let mut segments: Vec<PathSeg> = Vec::new();
                        segments.push(PathSeg { ident: prefix.clone(), has_arguments: false });
                        segments.push(PathSeg { ident: ident.clone(), has_arguments: false });
                        let target = PathModel { leading_colon: false, segments };
                        creates.push(
                            CreateOrderlessOptions {
                                name: Some(create_name),
                                public,
                                func: target,
                                order,
                                defs,
                            },
                        );
                        out_items.push(
                            ImplItemModel::Method { func: ImplFnModel { ident, marker: None } },
                        );
                    },
                    None => {
                        out_items.push(
                            ImplItemModel::Method { func: ImplFnModel { ident, marker: None } },
                        );
                    },
                }
            },
            ImplItemModel::Other => {
                out_items.push(ImplItemModel::Other);
            },
        }
    }
    proof {
        assert(orig.take(orig.len() as int) =~= orig);
    }
    Ok((ImplBlockModel { self_ty_text, items: out_items }, creates))
}

} // verus!
