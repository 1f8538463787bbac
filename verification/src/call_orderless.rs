//! The argument resolver: merges an ordered defaults list with
//! caller-supplied overrides into a fully positional call.
//!
//! The positional order is always the declaration order of the defaults; an
//! override replaces a value in place.  A caller name unknown to the defaults
//! is an extra argument; a defaultless name never given a value is a missing
//! argument.  Both abort resolution.

use vstd::prelude::*;

use crate::utils::ArgsIndexMap;
use crate::utils::OrderlessError;
use crate::utils::PathModel;
use crate::utils::SpecEntry;
use crate::utils::has_key;
use crate::utils::join_strings;
use crate::utils::key_index;
use crate::utils::lemma_key_index;
use crate::utils::map_insert;
use crate::utils::path_to_string;
use crate::utils::spec_join;
use crate::utils::unique_keys;
use crate::utils::value_of;

verus! {

/// What one defaults entry resolves to under the given overrides: the
/// override value when the name is overridden, else the entry's own default.
pub open spec fn entry_resolved(e: SpecEntry, args: Seq<SpecEntry>) -> Option<Seq<char>> {
    if has_key(args, e.0) {
        value_of(args, e.0)
    } else {
        e.1
    }
}

/// What position `i` of the defaults resolves to under the overrides.
pub open spec fn resolved_at(ds: Seq<SpecEntry>, args: Seq<SpecEntry>, i: int) -> Option<
    Seq<char>,
> {
    entry_resolved(ds[i], args)
}

/// Every override names a declared parameter.
pub open spec fn all_args_known(ds: Seq<SpecEntry>, args: Seq<SpecEntry>) -> bool {
    forall|j: int| 0 <= j < args.len() ==> has_key(ds, #[trigger] args[j].0)
}

/// Every position resolves to a value.
pub open spec fn no_missing(ds: Seq<SpecEntry>, args: Seq<SpecEntry>) -> bool {
    forall|i: int| 0 <= i < ds.len() ==> resolved_at(ds, args, i) is Some
}

/// Resolution succeeds exactly when no override is extra and no position is
/// left without a value.
pub open spec fn resolution_ok(ds: Seq<SpecEntry>, args: Seq<SpecEntry>) -> bool {
    all_args_known(ds, args) && no_missing(ds, args)
}

/// The first override position whose name is not declared (meaningful only
/// when one exists).
pub open spec fn first_extra(ds: Seq<SpecEntry>, args: Seq<SpecEntry>) -> int
    decreases args.len(),
{
    if args.len() == 0 {
        0
    } else if !has_key(ds, args[0].0) {
        0
    } else {
        1 + first_extra(ds, args.drop_first())
    }
}

/// The first defaults position that resolves to nothing (meaningful only
/// when one exists).
pub open spec fn first_missing(ds: Seq<SpecEntry>, args: Seq<SpecEntry>) -> int
    decreases ds.len(),
{
    if ds.len() == 0 {
        0
    } else if entry_resolved(ds[0], args) is None {
        0
    } else {
        1 + first_missing(ds.drop_first(), args)
    }
}

/// `first_extra` finds the first override with an undeclared name.
pub proof fn lemma_first_extra(ds: Seq<SpecEntry>, args: Seq<SpecEntry>, j: int)
    requires
        0 <= j < args.len(),
        forall|jj: int| 0 <= jj < j ==> has_key(ds, #[trigger] args[jj].0),
        !has_key(ds, args[j].0),
    ensures
        first_extra(ds, args) == j,
    decreases j,
{
    if j == 0 {
    } else {
        assert(args.drop_first()[j - 1] == args[j]);
        assert forall|jj: int| 0 <= jj < j - 1 implies has_key(
            ds,
            #[trigger] args.drop_first()[jj].0,
        ) by {
            assert(args.drop_first()[jj] == args[jj + 1]);
        }
        lemma_first_extra(ds, args.drop_first(), j - 1);
    }
}

/// `first_missing` finds the first position left without a value.
pub proof fn lemma_first_missing(ds: Seq<SpecEntry>, args: Seq<SpecEntry>, i: int)
    requires
        0 <= i < ds.len(),
        forall|ii: int| 0 <= ii < i ==> entry_resolved(#[trigger] ds[ii], args) is Some,
        entry_resolved(ds[i], args) is None,
    ensures
        first_missing(ds, args) == i,
    decreases i,
{
    if i == 0 {
    } else {
        assert(ds.drop_first()[i - 1] == ds[i]);
        assert forall|ii: int| 0 <= ii < i - 1 implies entry_resolved(
            #[trigger] ds.drop_first()[ii],
            args,
        ) is Some by {
            assert(ds.drop_first()[ii] == ds[ii + 1]);
        }
        lemma_first_missing(ds.drop_first(), args, i - 1);
    }
}

/// In a mapping with distinct names, the value stored under an entry's name
/// is that entry's value.
pub proof fn lemma_value_unique(args: Seq<SpecEntry>, j: int)
    requires
        unique_keys(args),
        0 <= j < args.len(),
    ensures
        has_key(args, args[j].0),
        key_index(args, args[j].0) == j,
        value_of(args, args[j].0) == args[j].1,
{
    assert(has_key(args, args[j].0));
    lemma_key_index(args, args[j].0);
}

/// The defaults overlaid, in order, with each override.
pub open spec fn spec_overlay(ds: Seq<SpecEntry>, args: Seq<SpecEntry>) -> Seq<SpecEntry>
    decreases args.len(),
{
    if args.len() == 0 {
        ds
    } else {
        map_insert(spec_overlay(ds, args.drop_last()), args.last().0, args.last().1)
    }
}

/// Overlaying declared overrides never changes the names or their order:
/// position `i` keeps its name and holds what it resolves to.
pub proof fn lemma_overlay(ds: Seq<SpecEntry>, args: Seq<SpecEntry>)
    requires
        unique_keys(ds),
        unique_keys(args),
        all_args_known(ds, args),
    ensures
        spec_overlay(ds, args).len() == ds.len(),
        forall|i: int|
            0 <= i < ds.len() ==> #[trigger] spec_overlay(ds, args)[i] == (
                ds[i].0,
                resolved_at(ds, args, i),
            ),
    decreases args.len(),
{
    if args.len() == 0 {
        assert forall|i: int| 0 <= i < ds.len() implies #[trigger] spec_overlay(ds, args)[i] == (
            ds[i].0,
            resolved_at(ds, args, i),
        ) by {
            assert(!has_key(args, ds[i].0));
        }
    } else {
        let front = args.drop_last();
        let last = args.last();
        assert forall|jj: int| 0 <= jj < front.len() implies has_key(
            ds,
            #[trigger] front[jj].0,
        ) by {
            assert(front[jj] == args[jj]);
        }
        lemma_overlay(ds, front);
        let prev = spec_overlay(ds, front);
        // The last override's name is declared at a unique position.
        assert(has_key(ds, last.0)) by {
            assert(args[args.len() - 1] == last);
        }
        lemma_key_index(ds, last.0);
        let di = key_index(ds, last.0);
        assert(prev[di].0 == last.0);
        assert(has_key(prev, last.0));
        lemma_key_index(prev, last.0);
        let pi = key_index(prev, last.0);
        assert(prev[pi].0 == last.0);
        // Names are the defaults' names, pairwise distinct, so the insert
        // position is the declared position.
        assert(pi == di) by {
            assert(prev[pi].0 == ds[pi].0);
            assert(prev[di].0 == ds[di].0);
            if pi < di {
                assert(ds[pi].0 != ds[di].0);
            }
            if di < pi {
                assert(ds[di].0 != ds[pi].0);
            }
        }
        assert(spec_overlay(ds, args) == prev.update(di, (last.0, last.1)));
        lemma_value_unique(args, args.len() - 1);
        assert forall|i: int| 0 <= i < ds.len() implies #[trigger] spec_overlay(ds, args)[i] == (
            ds[i].0,
            resolved_at(ds, args, i),
        ) by {
            if i == di {
                assert(has_key(args, ds[i].0)) by {
                    assert(args[args.len() - 1].0 == ds[i].0);
                }
                assert(spec_overlay(ds, args)[i] == (last.0, last.1));
                assert(resolved_at(ds, args, i) == value_of(args, ds[i].0));
                assert(value_of(args, ds[i].0) == args[args.len() - 1].1);
            } else {
                assert(ds[i].0 != ds[di].0);
                assert(spec_overlay(ds, args)[i] == prev[i]);
                // Resolution at `i` does not see the last override.
                assert(resolved_at(ds, front, i) == resolved_at(ds, args, i)) by {
                    if has_key(front, ds[i].0) {
                        let w = choose|jj: int|
                            0 <= jj < front.len() && front[jj].0 == ds[i].0;
                        assert(args[w].0 == ds[i].0);
                        assert(has_key(args, ds[i].0));
                        assert forall|a: int, b: int|
                            0 <= a < b < front.len() implies (#[trigger] front[a]).0 != (
                        #[trigger] front[b]).0 by {
                            assert(front[a] == args[a]);
                            assert(front[b] == args[b]);
                        }
                        lemma_value_unique(front, w);
                        lemma_value_unique(args, w);
                    } else if has_key(args, ds[i].0) {
                        let w = choose|jj: int| 0 <= jj < args.len() && args[jj].0 == ds[i].0;
                        assert(w == args.len() - 1) by {
                            if w < args.len() - 1 {
                                assert(front[w] == args[w]);
                                assert(has_key(front, ds[i].0));
                            }
                        }
                        assert(args[w].0 == last.0);
                        assert(false);
                    }
                }
            }
        }
    }
}

/// Two override lists that hold the same entries, in whatever order.
pub open spec fn same_entries(args1: Seq<SpecEntry>, args2: Seq<SpecEntry>) -> bool {
    &&& forall|j: int| 0 <= j < args1.len() ==> args2.contains(#[trigger] args1[j])
    &&& forall|j: int| 0 <= j < args2.len() ==> args1.contains(#[trigger] args2[j])
}

/// Reordering overrides with pairwise distinct names never changes what any
/// name resolves to.
pub proof fn lemma_same_entries_same_values(args1: Seq<SpecEntry>, args2: Seq<SpecEntry>)
    requires
        unique_keys(args1),
        unique_keys(args2),
        same_entries(args1, args2),
    ensures
        forall|k: Seq<char>| has_key(args1, k) <==> has_key(args2, k),
        forall|k: Seq<char>|
            has_key(args1, k) ==> #[trigger] value_of(args1, k) == value_of(args2, k),
{
    assert forall|k: Seq<char>| has_key(args1, k) implies has_key(args2, k) by {
        let j = choose|j: int| 0 <= j < args1.len() && args1[j].0 == k;
        assert(args2.contains(args1[j]));
    }
    assert forall|k: Seq<char>| has_key(args2, k) implies has_key(args1, k) by {
        let j = choose|j: int| 0 <= j < args2.len() && args2[j].0 == k;
        assert(args1.contains(args2[j]));
    }
    assert forall|k: Seq<char>| has_key(args1, k) implies #[trigger] value_of(args1, k)
        == value_of(args2, k) by {
        let j = choose|j: int| 0 <= j < args1.len() && args1[j].0 == k;
        lemma_value_unique(args1, j);
        assert(args2.contains(args1[j]));
        let j2 = choose|i: int| 0 <= i < args2.len() && args2[i] == args1[j];
        lemma_value_unique(args2, j2);
    }
}

/// Permuting overrides that target distinct names never changes the
/// resolution: with the same names given the same values, in whatever order,
/// the same inputs succeed, and every position of the defaults resolves to
/// the same value expression.
pub proof fn lemma_override_order_irrelevant(
    ds: Seq<SpecEntry>,
    args1: Seq<SpecEntry>,
    args2: Seq<SpecEntry>,
)
    requires
        unique_keys(args1),
        unique_keys(args2),
        same_entries(args1, args2),
    ensures
        all_args_known(ds, args1) == all_args_known(ds, args2),
        forall|i: int|
            0 <= i < ds.len() ==> #[trigger] resolved_at(ds, args1, i) == resolved_at(
                ds,
                args2,
                i,
            ),
        no_missing(ds, args1) == no_missing(ds, args2),
        resolution_ok(ds, args1) == resolution_ok(ds, args2),
{
    lemma_same_entries_same_values(args1, args2);
    assert forall|i: int| 0 <= i < ds.len() implies #[trigger] resolved_at(ds, args1, i)
        == resolved_at(ds, args2, i) by {
        if has_key(args1, ds[i].0) {
            assert(value_of(args1, ds[i].0) == value_of(args2, ds[i].0));
        } else {
            assert(!has_key(args2, ds[i].0));
        }
    }
    assert(all_args_known(ds, args1) <==> all_args_known(ds, args2)) by {
        if all_args_known(ds, args1) {
            assert forall|j: int| 0 <= j < args2.len() implies has_key(
                ds,
                #[trigger] args2[j].0,
            ) by {
                assert(args1.contains(args2[j]));
                let w = choose|i: int| 0 <= i < args1.len() && args1[i] == args2[j];
                assert(has_key(ds, args1[w].0));
            }
        }
        if all_args_known(ds, args2) {
            assert forall|j: int| 0 <= j < args1.len() implies has_key(
                ds,
                #[trigger] args1[j].0,
            ) by {
                assert(args2.contains(args1[j]));
                let w = choose|i: int| 0 <= i < args2.len() && args2[i] == args1[j];
                assert(has_key(ds, args2[w].0));
            }
        }
    }
    assert(no_missing(ds, args1) <==> no_missing(ds, args2)) by {
        if no_missing(ds, args1) {
            assert forall|i: int| 0 <= i < ds.len() implies resolved_at(ds, args2, i) is Some by {
                assert(resolved_at(ds, args1, i) is Some);
            }
        }
        if no_missing(ds, args2) {
            assert forall|i: int| 0 <= i < ds.len() implies resolved_at(ds, args1, i) is Some by {
                assert(resolved_at(ds, args2, i) is Some);
            }
        }
    }
}

/// The options of the low-level call form: the callable, the declared
/// defaults, and the caller's overrides.
pub struct CallOrderlessOptions {
    pub func: PathModel,
    pub defs: ArgsIndexMap,
    pub args: ArgsIndexMap,
}

/// A fully positional call: the callable and its argument expressions, in
/// declaration order.
pub struct CallExpr {
    pub func: PathModel,
    pub args: Vec<String>,
}

/// The textual form of a positional call.
pub open spec fn spec_call_text(c: CallExpr) -> Seq<char> {
    c.func.text() + "("@ + spec_join(c.args.deep_view(), ", "@) + ")"@
}

/// Merges the defaults with the overrides into the positional value list.
///
/// On success the list follows the defaults' declaration order exactly, each
/// position holding its override when the name was supplied and its own
/// default otherwise.  Otherwise the first extra argument, or failing that
/// the first defaultless parameter never given a value, is named in the
/// error.
pub fn resolve(defs: &ArgsIndexMap, args: &ArgsIndexMap) -> (r: Result<
    Vec<String>,
    OrderlessError,
>)
    requires
        defs.wf(),
        args.wf(),
    ensures
        ({
            let ds = defs.entries();
            let overrides = args.entries();
            match r {
                Ok(vals) => {
                    &&& resolution_ok(ds, overrides)
                    &&& vals@.len() == ds.len()
                    &&& forall|i: int|
                        0 <= i < ds.len() ==> Some(#[trigger] vals@[i]@) == resolved_at(
                            ds,
                            overrides,
                            i,
                        )
                },
                Err(OrderlessError::ExtraArgument { name }) => {
                    &&& !all_args_known(ds, overrides)
                    &&& name@ == overrides[first_extra(ds, overrides)].0
                },
                Err(OrderlessError::MissingArgument { name }) => {
                    &&& all_args_known(ds, overrides)
                    &&& !no_missing(ds, overrides)
                    &&& name@ == ds[first_missing(ds, overrides)].0
                },
                Err(_) => false,
            }
        }),
{
    let ghost ds = defs.entries();
    let ghost overrides = args.entries();

    // Working mapping, initialized from the defaults in declaration order.
    let mut work = ArgsIndexMap::new();
    let n = defs.len();
    let mut i: usize = 0;
    while i < n
        invariant
            defs.wf(),
            n == ds.len(),
            ds == defs.entries(),
            i <= n,
            work.entries() == ds.take(i as int),
            work.wf(),
        decreases n - i,
    {
        let ghost gi = i as int;
        let (k, v) = defs.entry_at(i);
        work.insert(k, v);
        i = i + 1;
        proof {
            assert forall|jj: int| 0 <= jj < gi implies (#[trigger] ds.take(gi)[jj]).0 != ds[gi].0 by {
                assert(ds.take(gi)[jj] == ds[jj]);
            }
            assert(!has_key(ds.take(gi), ds[gi].0));
            assert((k@, v.deep_view()) == ds[gi]);
            assert(work.entries() =~= ds.take(i as int));
        }
    }
    proof {
        assert(ds.take(ds.len() as int) =~= ds);
    }

    // Overlay each override in the order given, in place; an undeclared name
    // is an extra argument.
    let m = args.len();
    let mut j: usize = 0;
    while j < m
        invariant
            defs.wf(),
            args.wf(),
            ds == defs.entries(),
            overrides == args.entries(),
            m == overrides.len(),
            j <= m,
            forall|jj: int| 0 <= jj < j ==> has_key(ds, #[trigger] overrides[jj].0),
            work.entries() == spec_overlay(ds, overrides.take(j as int)),
            work.wf(),
        decreases m - j,
    {
        let ghost gj = j as int;
        proof {
            assert forall|a: int, b: int|
                0 <= a < b < overrides.take(gj).len() implies (#[trigger] overrides.take(gj)[a]).0
                != (#[trigger] overrides.take(gj)[b]).0 by {
                assert(overrides.take(gj)[a] == overrides[a]);
                assert(overrides.take(gj)[b] == overrides[b]);
            }
            assert forall|jj: int| 0 <= jj < overrides.take(gj).len() implies has_key(
                ds,
                (#[trigger] overrides.take(gj)[jj]).0,
            ) by {
                assert(overrides.take(gj)[jj] == overrides[jj]);
            }
            lemma_overlay(ds, overrides.take(gj));
        }
        let (k, v) = args.entry_at(j);
        if work.contains(&k) {
            proof {
                // The working names are the declared names.
                let w = choose|ii: int|
                    0 <= ii < work.entries().len() && work.entries()[ii].0 == k@;
                assert(work.entries()[w] == (ds[w].0, resolved_at(ds, overrides.take(gj), w)));
                assert(has_key(ds, k@));
            }
            work.insert(k, v);
            j = j + 1;
            proof {
                assert(overrides.take(gj + 1).drop_last() =~= overrides.take(gj));
                assert(overrides.take(gj + 1).last() == overrides[gj]);
                assert((k@, v.deep_view()) == overrides[gj]);
                assert(work.entries() == spec_overlay(ds, overrides.take(j as int)));
            }
        } else {
            proof {
                // An undeclared name: were it declared, the working mapping
                // would hold it at the same position.
                assert(!has_key(ds, k@)) by {
                    if has_key(ds, k@) {
                        let w = choose|ii: int| 0 <= ii < ds.len() && ds[ii].0 == k@;
                        assert(work.entries()[w] == (
                            ds[w].0,
                            resolved_at(ds, overrides.take(gj), w),
                        ));
                        assert(has_key(work.entries(), k@));
                    }
                }
                assert(overrides[gj].0 == k@);
                lemma_first_extra(ds, overrides, gj);
            }
            return Err(OrderlessError::ExtraArgument { name: k });
        }
    }
    proof {
        assert(overrides.take(overrides.len() as int) =~= overrides);
        lemma_overlay(ds, overrides);
    }

    // Read the merged mapping off in order; a value still absent is a
    // missing argument.
    let wn = work.len();
    let mut vals: Vec<String> = Vec::new();
    let mut p: usize = 0;
    while p < wn
        invariant
            ds == defs.entries(),
            overrides == args.entries(),
            wn == ds.len(),
            p <= wn,
            all_args_known(ds, overrides),
            work.entries() == spec_overlay(ds, overrides),
            work.entries().len() == ds.len(),
            forall|i: int|
                0 <= i < ds.len() ==> #[trigger] spec_overlay(ds, overrides)[i] == (
                    ds[i].0,
                    resolved_at(ds, overrides, i),
                ),
            vals@.len() == p,
            forall|ii: int|
                0 <= ii < p ==> Some(#[trigger] vals@[ii]@) == resolved_at(ds, overrides, ii),
        decreases wn - p,
    {
        let ghost gp = p as int;
        let (k, v) = work.entry_at(p);
        match v {
            Some(s) => {
                vals.push(s);
                p = p + 1;
            },
            None => {
                proof {
                    assert(resolved_at(ds, overrides, gp) is None);
                    assert forall|ii: int| 0 <= ii < gp implies entry_resolved(
                        #[trigger] ds[ii],
                        overrides,
                    ) is Some by {
                        assert(Some(vals@[ii]@) == resolved_at(ds, overrides, ii));
                    }
                    lemma_first_missing(ds, overrides, gp);
                    assert(k@ == ds[gp].0);
                }
                return Err(OrderlessError::MissingArgument { name: k });
            },
        }
    }
    proof {
        assert forall|i: int| 0 <= i < ds.len() implies resolved_at(ds, overrides, i) is Some by {
            assert(Some(vals@[i]@) == resolved_at(ds, overrides, i));
        }
    }
    Ok(vals)
}

/// Resolves the low-level call form into a positional call to its callable.
pub fn call_orderless(options: CallOrderlessOptions) -> (r: Result<CallExpr, OrderlessError>)
    requires
        options.defs.wf(),
        options.args.wf(),
    ensures
        ({
            let ds = options.defs.entries();
            let overrides = options.args.entries();
            match r {
                Ok(c) => {
                    &&& c.func == options.func
                    &&& resolution_ok(ds, overrides)
                    &&& c.args@.len() == ds.len()
                    &&& forall|i: int|
                        0 <= i < ds.len() ==> Some(#[trigger] c.args@[i]@) == resolved_at(
                            ds,
                            overrides,
                            i,
                        )
                },
                Err(OrderlessError::ExtraArgument { name }) => {
                    &&& !all_args_known(ds, overrides)
                    &&& name@ == overrides[first_extra(ds, overrides)].0
                },
                Err(OrderlessError::MissingArgument { name }) => {
                    &&& all_args_known(ds, overrides)
                    &&& !no_missing(ds, overrides)
                    &&& name@ == ds[first_missing(ds, overrides)].0
                },
                Err(_) => false,
            }
        }),
{
    let CallOrderlessOptions { func, defs, args } = options;
    match resolve(&defs, &args) {
        Ok(vals) => Ok(CallExpr { func, args: vals }),
        Err(e) => Err(e),
    }
}

/// The textual form of a resolved call: the callable's path, then the
/// argument expressions in declaration order, comma-separated, in
/// parentheses.
pub fn render_call(c: &CallExpr) -> (r: String)
    ensures
        r@ == spec_call_text(*c),
{
    let mut r = path_to_string(&c.func);
    r.append("(");
    let inner = join_strings(&c.args, ", ");
    r.append(inner.as_str());
    r.append(")");
    r
}

} // verus!
