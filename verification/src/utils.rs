//! Shared model types: paths, option items, and the ordered name-to-default
//! mappings that the resolver and the generators work on.
//!
//! Parameter names are identifier text; default and override expressions are
//! opaque source text.  The ordered mappings are kept in `indexmap`
//! collections, whose insertion-order behaviour the contracts below state
//! over an abstract sequence of entries.

use vstd::prelude::*;

verus! {

/// One entry of an ordered mapping, at the specification level: a parameter
/// name and its optional value expression, both as character sequences.
pub type SpecEntry = (Seq<char>, Option<Seq<char>>);

#[verifier::external_type_specification]
#[verifier::external_body]
#[verifier::reject_recursive_types(K)]
#[verifier::reject_recursive_types(V)]
#[verifier::reject_recursive_types(S)]
pub struct ExIndexMap<K, V, S>(indexmap::IndexMap<K, V, S>);

/// What an `IndexMap` from names to optional expressions holds, in insertion
/// order (the collection's contents, named).
pub uninterp spec fn index_map_entries(
    m: indexmap::IndexMap<String, Option<String>, std::hash::RandomState>,
) -> Seq<SpecEntry>;

/// Whether some entry of `es` has the key `k`.
pub open spec fn has_key(es: Seq<SpecEntry>, k: Seq<char>) -> bool {
    exists|i: int| 0 <= i < es.len() && es[i].0 == k
}

/// The first index of `es` whose entry has the key `k` (meaningful only when
/// `has_key(es, k)` holds).
pub open spec fn key_index(es: Seq<SpecEntry>, k: Seq<char>) -> int
    decreases es.len(),
{
    if es.len() == 0 {
        0
    } else if es[0].0 == k {
        0
    } else {
        1 + key_index(es.drop_first(), k)
    }
}

/// No two entries of `es` share a key.
pub open spec fn unique_keys(es: Seq<SpecEntry>) -> bool {
    forall|i: int, j: int| 0 <= i < j < es.len() ==> es[i].0 != es[j].0
}

/// Ordered-map insertion: an existing key keeps its place and only its value
/// changes; a new key goes last.
pub open spec fn map_insert(es: Seq<SpecEntry>, k: Seq<char>, v: Option<Seq<char>>) -> Seq<
    SpecEntry,
> {
    if has_key(es, k) {
        es.update(key_index(es, k), (k, v))
    } else {
        es.push((k, v))
    }
}

/// The value stored under `k` (meaningful only when `has_key(es, k)` holds).
pub open spec fn value_of(es: Seq<SpecEntry>, k: Seq<char>) -> Option<Seq<char>> {
    es[key_index(es, k)].1
}

/// `key_index` finds the first entry with the given key.
pub proof fn lemma_key_index(es: Seq<SpecEntry>, k: Seq<char>)
    requires
        has_key(es, k),
    ensures
        0 <= key_index(es, k) < es.len(),
        es[key_index(es, k)].0 == k,
        forall|j: int| 0 <= j < key_index(es, k) ==> es[j].0 != k,
    decreases es.len(),
{
    if es.len() == 0 {
    } else if es[0].0 == k {
    } else {
        let w = choose|i: int| 0 <= i < es.len() && es[i].0 == k;
        assert(es.drop_first()[w - 1].0 == k);
        lemma_key_index(es.drop_first(), k);
        let i = key_index(es.drop_first(), k);
        assert(es[i + 1] == es.drop_first()[i]);
        assert forall|j: int| 0 <= j < key_index(es, k) implies es[j].0 != k by {
            if j > 0 {
                assert(es.drop_first()[j - 1] == es[j]);
            }
        }
    }
}

/// Ordered-map insertion keeps keys unique.
pub proof fn lemma_map_insert_unique(es: Seq<SpecEntry>, k: Seq<char>, v: Option<Seq<char>>)
    requires
        unique_keys(es),
    ensures
        unique_keys(map_insert(es, k, v)),
{
    if has_key(es, k) {
        lemma_key_index(es, k);
    }
}

/// Two entry lists with the same names position by position store a name at
/// the same first position.
pub proof fn lemma_key_index_same_keys(es1: Seq<SpecEntry>, es2: Seq<SpecEntry>, k: Seq<char>)
    requires
        es1.len() == es2.len(),
        forall|i: int| 0 <= i < es1.len() ==> (#[trigger] es1[i]).0 == es2[i].0,
        has_key(es1, k),
    ensures
        has_key(es2, k),
        key_index(es1, k) == key_index(es2, k),
{
    lemma_key_index(es1, k);
    let i = key_index(es1, k);
    assert(es2[i].0 == k);
    assert(has_key(es2, k));
    lemma_key_index(es2, k);
    let w = key_index(es2, k);
    if w < i {
        assert(es1[w].0 == es2[w].0);
    }
    if i < w {
        assert(es2[i].0 == es1[i].0);
    }
}

/// A name found in a list is found at the same first position, with the same
/// value, after another entry is appended.
pub proof fn lemma_key_index_extend(es: Seq<SpecEntry>, e: SpecEntry, k: Seq<char>)
    requires
        has_key(es, k),
    ensures
        has_key(es.push(e), k),
        key_index(es.push(e), k) == key_index(es, k),
        value_of(es.push(e), k) == value_of(es, k),
{
    lemma_key_index(es, k);
    let i = key_index(es, k);
    assert(es.push(e)[i] == es[i]);
    assert(has_key(es.push(e), k));
    lemma_key_index(es.push(e), k);
    let w = key_index(es.push(e), k);
    if w < i {
        assert(es[w] == es.push(e)[w]);
    }
    if i < w {
        assert(es.push(e)[i].0 == k);
    }
}

/// After an insertion, the inserted name holds the inserted value.
pub proof fn lemma_map_insert_value(es: Seq<SpecEntry>, k: Seq<char>, v: Option<Seq<char>>)
    ensures
        has_key(map_insert(es, k, v), k),
        value_of(map_insert(es, k, v), k) == v,
{
    let built = map_insert(es, k, v);
    if has_key(es, k) {
        lemma_key_index(es, k);
        let i = key_index(es, k);
        assert forall|jj: int| 0 <= jj < es.len() implies (#[trigger] es[jj]).0 == built[jj].0 by {}
        lemma_key_index_same_keys(es, built, k);
        assert(built[i].1 == v);
    } else {
        assert(built[es.len() as int] == (k, v));
        assert(has_key(built, k));
        lemma_key_index(built, k);
        let w = key_index(built, k);
        if w < es.len() {
            assert(es[w] == built[w]);
            assert(has_key(es, k));
        }
        assert(w == es.len());
    }
}

/// An insertion leaves every other name, and what it holds, untouched.
pub proof fn lemma_map_insert_other(
    es: Seq<SpecEntry>,
    k: Seq<char>,
    v: Option<Seq<char>>,
    k2: Seq<char>,
)
    requires
        k2 != k,
    ensures
        has_key(map_insert(es, k, v), k2) == has_key(es, k2),
        has_key(es, k2) ==> value_of(map_insert(es, k, v), k2) == value_of(es, k2),
{
    let built = map_insert(es, k, v);
    if has_key(es, k) {
        lemma_key_index(es, k);
        let i = key_index(es, k);
        assert forall|jj: int| 0 <= jj < es.len() implies (#[trigger] es[jj]).0 == built[jj].0 by {}
        if has_key(es, k2) {
            lemma_key_index_same_keys(es, built, k2);
            lemma_key_index(es, k2);
            assert(key_index(es, k2) != i);
            assert(built[key_index(es, k2)].1 == es[key_index(es, k2)].1);
        }
        if has_key(built, k2) {
            lemma_key_index_same_keys(built, es, k2);
        }
    } else {
        if has_key(es, k2) {
            lemma_key_index_extend(es, (k, v), k2);
        }
        if has_key(built, k2) {
            lemma_key_index(built, k2);
            let w = key_index(built, k2);
            assert(built[w].0 == k2);
            if w == es.len() {
                assert(built[w] == (k, v));
            }
            assert(es[w] == built[w]);
            assert(has_key(es, k2));
        }
    }
}

/// Relies on `indexmap::IndexMap::new`: the new map is empty.
#[verifier::external_body]
fn index_map_new() -> (m: indexmap::IndexMap<String, Option<String>, std::hash::RandomState>)
    ensures
        index_map_entries(m) == Seq::<SpecEntry>::empty(),
{
    indexmap::IndexMap::new()
}

/// Relies on `indexmap::IndexMap::insert`: an equivalent key retains its
/// place in the order and only its value is updated; a new key is inserted
/// last in order.
#[verifier::external_body]
fn index_map_insert(
    m: &mut indexmap::IndexMap<String, Option<String>, std::hash::RandomState>,
    k: String,
    v: Option<String>,
)
    ensures
        index_map_entries(*final(m)) == map_insert(index_map_entries(*old(m)), k@, v.deep_view()),
{
    m.insert(k, v);
}

/// Relies on `indexmap::IndexMap::contains_key`.
#[verifier::external_body]
fn index_map_contains(
    m: &indexmap::IndexMap<String, Option<String>, std::hash::RandomState>,
    k: &String,
) -> (r: bool)
    ensures
        r == has_key(index_map_entries(*m), k@),
{
    m.contains_key(k)
}

/// Relies on `indexmap::IndexMap::len`: the number of entries.
#[verifier::external_body]
fn index_map_len(m: &indexmap::IndexMap<String, Option<String>, std::hash::RandomState>) -> (r:
    usize)
    ensures
        r == index_map_entries(*m).len(),
{
    m.len()
}

/// Relies on `indexmap::IndexMap::get_index`: the entry at a position in
/// insertion order.
#[verifier::external_body]
fn index_map_entry_at(
    m: &indexmap::IndexMap<String, Option<String>, std::hash::RandomState>,
    i: usize,
) -> (r: (String, Option<String>))
    requires
        i < index_map_entries(*m).len(),
    ensures
        (r.0@, r.1.deep_view()) == index_map_entries(*m)[i as int],
{
    let (k, v) = m.get_index(i).unwrap();
    (k.clone(), v.clone())
}

#[verifier::external_type_specification]
#[verifier::external_body]
#[verifier::reject_recursive_types(T)]
#[verifier::reject_recursive_types(S)]
pub struct ExIndexSet<T, S>(indexmap::IndexSet<T, S>);

/// What an `IndexSet` of names holds, in insertion order (the collection's
/// contents, named).
pub uninterp spec fn index_set_entries(
    s: indexmap::IndexSet<String, std::hash::RandomState>,
) -> Seq<Seq<char>>;

/// Ordered-set insertion: an element already present keeps its place and
/// nothing changes; a new element goes last.
pub open spec fn set_insert(es: Seq<Seq<char>>, k: Seq<char>) -> Seq<Seq<char>> {
    if es.contains(k) {
        es
    } else {
        es.push(k)
    }
}

/// Relies on `indexmap::IndexSet::new`: the new set is empty.
#[verifier::external_body]
fn index_set_new() -> (s: indexmap::IndexSet<String, std::hash::RandomState>)
    ensures
        index_set_entries(s) == Seq::<Seq<char>>::empty(),
{
    indexmap::IndexSet::new()
}

/// Relies on `indexmap::IndexSet::insert`: an equivalent element already in
/// the set is left in its place; a new element is inserted last in order.
#[verifier::external_body]
fn index_set_insert(s: &mut indexmap::IndexSet<String, std::hash::RandomState>, k: String)
    ensures
        index_set_entries(*final(s)) == set_insert(index_set_entries(*old(s)), k@),
{
    s.insert(k);
}

/// Relies on `indexmap::IndexSet::len`: the number of elements.
#[verifier::external_body]
fn index_set_len(s: &indexmap::IndexSet<String, std::hash::RandomState>) -> (r: usize)
    ensures
        r == index_set_entries(*s).len(),
{
    s.len()
}

/// Relies on `indexmap::IndexSet::get_index`: the element at a position in
/// insertion order.
#[verifier::external_body]
fn index_set_elem_at(s: &indexmap::IndexSet<String, std::hash::RandomState>, i: usize) -> (r:
    String)
    requires
        i < index_set_entries(*s).len(),
    ensures
        r@ == index_set_entries(*s)[i as int],
{
    s.get_index(i).unwrap().clone()
}

/// `parts` joined with the separator `sep` between consecutive parts.
pub open spec fn spec_join(parts: Seq<Seq<char>>, sep: Seq<char>) -> Seq<char>
    decreases parts.len(),
{
    if parts.len() <= 0 {
        Seq::empty()
    } else if parts.len() == 1 {
        parts[0]
    } else {
        spec_join(parts.drop_last(), sep) + sep + parts.last()
    }
}

/// Joins the given strings with `sep` between consecutive ones.
pub fn join_strings(parts: &Vec<String>, sep: &str) -> (r: String)
    ensures
        r@ == spec_join(parts.deep_view(), sep@),
{
    let mut r = String::new();
    let mut i: usize = 0;
    while i < parts.len()
        invariant
            i <= parts.len(),
            r@ == spec_join(parts.deep_view().take(i as int), sep@),
        decreases parts.len() - i,
    {
        if i > 0 {
            r.append(sep);
        }
        r.append(parts[i].as_str());
        i = i + 1;
        proof {
            let dv = parts.deep_view();
            assert(dv.take(i as int).drop_last() =~= dv.take(i - 1));
            assert(dv.take(i as int).last() == dv[i - 1]);
        }
    }
    proof {
        assert(parts.deep_view().take(parts.len() as int) =~= parts.deep_view());
    }
    r
}

/// One segment of a path: its identifier text, and whether the segment
/// carries generic or other arguments.
pub struct PathSeg {
    pub ident: String,
    pub has_arguments: bool,
}

/// A callable reference: a possibly qualified path, kept as the identifier
/// text of its segments.
pub struct PathModel {
    pub leading_colon: bool,
    pub segments: Vec<PathSeg>,
}

impl PathModel {
    /// The identifier text of each segment, in order.
    pub open spec fn seg_names(&self) -> Seq<Seq<char>> {
        self.segments.deep_view()
    }

    /// Whether the path is a single plain identifier.
    pub open spec fn is_strict_ident(&self) -> bool {
        &&& !self.leading_colon
        &&& self.segments@.len() == 1
        &&& !self.segments@[0].has_arguments
    }

    /// The identifier a single-segment path stands for.
    pub open spec fn ident_name(&self) -> Seq<char> {
        self.segments@[0].ident@
    }

    /// The textual form of the path: segments joined with `::`.
    pub open spec fn text(&self) -> Seq<char> {
        spec_join(self.seg_names(), "::"@)
    }
}

impl DeepView for PathSeg {
    type V = Seq<char>;

    open spec fn deep_view(&self) -> Seq<char> {
        self.ident@
    }
}

/// The identifier text of each of a path's segments, in order.
pub fn path_segment_names(path: &PathModel) -> (r: Vec<String>)
    ensures
        r.deep_view() == path.seg_names(),
{
    let mut r: Vec<String> = Vec::new();
    let mut i: usize = 0;
    while i < path.segments.len()
        invariant
            i <= path.segments.len(),
            r@.len() == i,
            forall|j: int| 0 <= j < i ==> r@[j]@ == path.segments@[j].ident@,
        decreases path.segments.len() - i,
    {
        r.push(path.segments[i].ident.clone());
        i = i + 1;
    }
    proof {
        assert(r.deep_view() =~= path.seg_names());
    }
    r
}

/// The textual form of a path: its segment identifiers joined with `::`
/// (qualifying details other than the identifiers are not kept).
pub fn path_to_string(path: &PathModel) -> (r: String)
    ensures
        r@ == path.text(),
{
    let names = path_segment_names(path);
    join_strings(&names, "::")
}

/// The ways an expansion can fail.  Every failure aborts the expansion; none
/// is recovered from.
pub enum OrderlessError {
    /// An option or argument where a plain identifier was expected.
    ExpectedIdent { text: String },
    /// A declared parameter whose binding is not a plain name.
    NotAnIdentBinding { text: String },
    /// A derived macro name that is not a valid identifier.
    UnconvertibleName { text: String },
    /// A caller-supplied argument name unknown to the defaults.
    ExtraArgument { name: String },
    /// A defaultless parameter that was never given a value.
    MissingArgument { name: String },
}

/// The single identifier a path stands for; a qualified path, a leading
/// colon, or segment arguments are rejected.
pub fn strict_ident_from_path(path: &PathModel) -> (r: Result<String, OrderlessError>)
    ensures
        r is Ok <==> path.is_strict_ident(),
        r is Ok ==> r->Ok_0@ == path.ident_name(),
        (r is Err ==> (r->Err_0 matches OrderlessError::ExpectedIdent { text } && text@
            == path.text())),
{
    if path.leading_colon || path.segments.len() != 1 || path.segments[0].has_arguments {
        Err(OrderlessError::ExpectedIdent { text: path_to_string(path) })
    } else {
        Ok(path.segments[0].ident.clone())
    }
}

/// Whether the outside parser accepts the text as exactly one valid
/// identifier; the answer depends on the characters alone.
pub uninterp spec fn valid_macro_ident(s: Seq<char>) -> bool;

/// Relies on `darling::FromMeta::from_string` for `syn::Ident`, which parses
/// the string with `syn::parse_str::<syn::Ident>`: it accepts exactly the
/// strings that form one valid identifier, and the answer is a function of
/// the characters alone.
#[verifier::external_body]
fn parse_ident_ok(s: &str) -> (r: bool)
    ensures
        r == valid_macro_ident(s@),
{
    <syn::Ident as darling::FromMeta>::from_string(s).is_ok()
}

/// Checks that a derived macro name is a valid identifier.
pub fn check_macro_name(name: String) -> (r: Result<String, OrderlessError>)
    ensures
        r is Ok <==> valid_macro_ident(name@),
        r is Ok ==> r->Ok_0@ == name@,
        (r is Err ==> (r->Err_0 matches OrderlessError::UnconvertibleName { text } && text@
            == name@)),
{
    if parse_ident_ok(name.as_str()) {
        Ok(name)
    } else {
        Err(OrderlessError::UnconvertibleName { text: name })
    }
}

/// A source expression, as far as an option value reads it: either a path or
/// some other expression kept as text.
pub enum ExprModel {
    Path { path: PathModel },
    Other { text: String },
}

/// An identifier given as an option value.
pub struct DIdent(pub String);

/// Whether the expression is a single plain identifier.
pub open spec fn expr_is_ident(e: ExprModel) -> bool {
    match e {
        ExprModel::Path { path } => path.is_strict_ident(),
        ExprModel::Other { .. } => false,
    }
}

/// The identifier an expression stands for (meaningful only when
/// `expr_is_ident` holds).
pub open spec fn expr_ident_name(e: ExprModel) -> Seq<char> {
    match e {
        ExprModel::Path { path } => path.ident_name(),
        ExprModel::Other { .. } => Seq::empty(),
    }
}

/// The textual form of an expression.
pub open spec fn expr_text(e: ExprModel) -> Seq<char> {
    match e {
        ExprModel::Path { path } => path.text(),
        ExprModel::Other { text } => text@,
    }
}

impl DIdent {
    /// Reads an option value as one plain identifier; anything else is
    /// rejected.
    pub fn from_expr(expr: &ExprModel) -> (r: Result<DIdent, OrderlessError>)
        ensures
            r is Ok <==> expr_is_ident(*expr),
            r is Ok ==> r->Ok_0.0@ == expr_ident_name(*expr),
            (r is Err ==> (r->Err_0 matches OrderlessError::ExpectedIdent { text } && text@
                == expr_text(*expr))),
    {
        match expr {
            ExprModel::Path { path } => match strict_ident_from_path(path) {
                Ok(name) => Ok(DIdent(name)),
                Err(e) => Err(e),
            },
            ExprModel::Other { text } => Err(
                OrderlessError::ExpectedIdent { text: text.clone() },
            ),
        }
    }
}

/// A declared parameter binding: the conventional receiver, or a typed
/// binding with its pattern.
pub enum FnArgModel {
    Receiver,
    Typed { pat: PatModel },
}

/// A binding pattern: a plain identifier, or some other pattern kept as text.
pub enum PatModel {
    Ident { name: String },
    Other { text: String },
}

/// Whether a declared parameter binds a plain name.
pub open spec fn fn_arg_ok(a: FnArgModel) -> bool {
    match a {
        FnArgModel::Receiver => true,
        FnArgModel::Typed { pat } => pat is Ident,
    }
}

/// The parameter name a binding declares (the receiver counts as `self`).
pub open spec fn fn_arg_name(a: FnArgModel) -> Seq<char> {
    match a {
        FnArgModel::Receiver => "self"@,
        FnArgModel::Typed { pat } => match pat {
            PatModel::Ident { name } => name@,
            PatModel::Other { .. } => Seq::empty(),
        },
    }
}

/// The textual form of a parameter binding's offending part, for
/// diagnostics.
pub open spec fn fn_arg_text(a: FnArgModel) -> Seq<char> {
    match a {
        FnArgModel::Receiver => Seq::empty(),
        FnArgModel::Typed { pat } => match pat {
            PatModel::Ident { name } => name@,
            PatModel::Other { text } => text@,
        },
    }
}

/// The parameter name declared by a function argument; a pattern that is not
/// a plain name is rejected.
pub fn ident_from_fn_arg(arg: &FnArgModel) -> (r: Result<String, OrderlessError>)
    ensures
        r is Ok <==> fn_arg_ok(*arg),
        r is Ok ==> r->Ok_0@ == fn_arg_name(*arg),
        (r is Err ==> (r->Err_0 matches OrderlessError::NotAnIdentBinding { text } && text@
            == fn_arg_text(*arg))),
{
    match arg {
        FnArgModel::Receiver => Ok(String::from_str("self")),
        FnArgModel::Typed { pat } => match pat {
            PatModel::Ident { name } => Ok(name.clone()),
            PatModel::Other { text } => Err(
                OrderlessError::NotAnIdentBinding { text: text.clone() },
            ),
        },
    }
}

/// One item of an option list: `name = value`, a bare name, or something
/// else (kept as text, and always rejected where a name is required).
pub enum NestedMetaModel {
    NameValue { path: PathModel, value: String },
    BarePath { path: PathModel },
    Other { text: String },
}

/// Whether an option-list item has the shape `name = value` or `name`, with
/// the name a plain identifier.
pub open spec fn meta_item_ok(it: NestedMetaModel) -> bool {
    match it {
        NestedMetaModel::NameValue { path, .. } => path.is_strict_ident(),
        NestedMetaModel::BarePath { path } => path.is_strict_ident(),
        NestedMetaModel::Other { .. } => false,
    }
}

/// The name an option-list item carries.
pub open spec fn meta_item_key(it: NestedMetaModel) -> Seq<char> {
    match it {
        NestedMetaModel::NameValue { path, .. } => path.ident_name(),
        NestedMetaModel::BarePath { path } => path.ident_name(),
        NestedMetaModel::Other { .. } => Seq::empty(),
    }
}

/// The value expression an option-list item carries; a bare name `b` is the
/// shorthand for `b = b`, so its value is the name itself.
pub open spec fn meta_item_value(it: NestedMetaModel) -> Seq<char> {
    match it {
        NestedMetaModel::NameValue { value, .. } => value@,
        NestedMetaModel::BarePath { path } => path.ident_name(),
        NestedMetaModel::Other { .. } => Seq::empty(),
    }
}

/// The textual form of an option-list item's offending part, for diagnostics.
pub open spec fn meta_item_text(it: NestedMetaModel) -> Seq<char> {
    match it {
        NestedMetaModel::NameValue { path, .. } => path.text(),
        NestedMetaModel::BarePath { path } => path.text(),
        NestedMetaModel::Other { text } => text@,
    }
}

/// The first index of `items` whose item fails `ok` (meaningful only when
/// one does).
pub open spec fn first_failing(
    items: Seq<NestedMetaModel>,
    ok: spec_fn(NestedMetaModel) -> bool,
) -> int
    decreases items.len(),
{
    if items.len() == 0 {
        0
    } else if !ok(items[0]) {
        0
    } else {
        1 + first_failing(items.drop_first(), ok)
    }
}

/// `first_failing` finds the first item that fails `ok`.
pub proof fn lemma_first_failing(
    items: Seq<NestedMetaModel>,
    ok: spec_fn(NestedMetaModel) -> bool,
    i: int,
)
    requires
        0 <= i < items.len(),
        forall|j: int| 0 <= j < i ==> ok(items[j]),
        !ok(items[i]),
    ensures
        first_failing(items, ok) == i,
    decreases i,
{
    if i == 0 {
    } else {
        assert(items.drop_first()[i - 1] == items[i]);
        assert forall|j: int| 0 <= j < i - 1 implies ok(items.drop_first()[j]) by {
            assert(items.drop_first()[j] == items[j + 1]);
        }
        lemma_first_failing(items.drop_first(), ok, i - 1);
    }
}

/// The ordered mapping the items of an option list build up, later items
/// overwriting earlier ones of the same name in place.
pub open spec fn build_args_map(items: Seq<NestedMetaModel>) -> Seq<SpecEntry>
    decreases items.len(),
{
    if items.len() == 0 {
        Seq::empty()
    } else {
        map_insert(
            build_args_map(items.drop_last()),
            meta_item_key(items.last()),
            Some(meta_item_value(items.last())),
        )
    }
}

/// Later items of an option list overwrite earlier ones of the same name in
/// place: the value the built mapping stores under a name is the last value
/// the list gives for it.
pub proof fn lemma_last_write_wins(items: Seq<NestedMetaModel>, j: int)
    requires
        0 <= j < items.len(),
        forall|jj: int|
            j < jj < items.len() ==> meta_item_key(#[trigger] items[jj]) != meta_item_key(
                items[j],
            ),
    ensures
        has_key(build_args_map(items), meta_item_key(items[j])),
        value_of(build_args_map(items), meta_item_key(items[j])) == Some(
            meta_item_value(items[j]),
        ),
    decreases items.len(),
{
    let k = meta_item_key(items[j]);
    let front = build_args_map(items.drop_last());
    if j == items.len() - 1 {
        lemma_map_insert_value(front, k, Some(meta_item_value(items[j])));
    } else {
        assert(items.drop_last()[j] == items[j]);
        assert forall|jj: int|
            j < jj < items.drop_last().len() implies meta_item_key(
            #[trigger] items.drop_last()[jj],
        ) != k by {
            assert(items.drop_last()[jj] == items[jj]);
        }
        lemma_last_write_wins(items.drop_last(), j);
        let k_last = meta_item_key(items.last());
        assert(k_last != k) by {
            assert(items[items.len() - 1] == items.last());
        }
        lemma_map_insert_other(front, k_last, Some(meta_item_value(items.last())), k);
    }
}

/// Whether two option-list items carry the same argument: the same validity,
/// the same name, and the same value expression.
pub open spec fn same_arg_item(a: NestedMetaModel, b: NestedMetaModel) -> bool {
    &&& meta_item_ok(a) == meta_item_ok(b)
    &&& meta_item_key(a) == meta_item_key(b)
    &&& meta_item_value(a) == meta_item_value(b)
}

/// A bare name carries itself as its value expression: `b` alone is the
/// `b = b` shorthand.
pub proof fn lemma_bare_item_value(path: PathModel)
    ensures
        meta_item_key(NestedMetaModel::BarePath { path }) == path.ident_name(),
        meta_item_value(NestedMetaModel::BarePath { path }) == path.ident_name(),
        meta_item_ok(NestedMetaModel::BarePath { path }) == path.is_strict_ident(),
{
}

/// Option lists that agree item by item on name and value expression build
/// the same mapping.  In particular, replacing a bare `b` with `b = b`
/// changes nothing: the two items carry the same argument
/// (`lemma_bare_item_value`), so the final call is shaped alike.
pub proof fn lemma_bare_name_shorthand(
    items1: Seq<NestedMetaModel>,
    items2: Seq<NestedMetaModel>,
)
    requires
        items1.len() == items2.len(),
        forall|i: int|
            0 <= i < items1.len() ==> same_arg_item(
                #[trigger] items1[i],
                #[trigger] items2[i],
            ),
    ensures
        build_args_map(items1) == build_args_map(items2),
    decreases items1.len(),
{
    if items1.len() == 0 {
    } else {
        assert forall|i: int| 0 <= i < items1.len() - 1 implies same_arg_item(
            #[trigger] items1.drop_last()[i],
            #[trigger] items2.drop_last()[i],
        ) by {
            assert(items1.drop_last()[i] == items1[i]);
            assert(items2.drop_last()[i] == items2[i]);
        }
        lemma_bare_name_shorthand(items1.drop_last(), items2.drop_last());
        assert(same_arg_item(items1[items1.len() - 1], items2[items2.len() - 1]));
    }
}

/// An ordered mapping from parameter names to optional value expressions,
/// preserving insertion order; re-inserting a name replaces its value in
/// place.
pub struct ArgsIndexMap(pub indexmap::IndexMap<String, Option<String>, std::hash::RandomState>);

impl ArgsIndexMap {
    /// The entries, in order.
    pub open spec fn entries(&self) -> Seq<SpecEntry> {
        index_map_entries(self.0)
    }

    /// Every reachable mapping has pairwise distinct names.
    pub open spec fn wf(&self) -> bool {
        unique_keys(self.entries())
    }

    /// An empty mapping.
    pub fn new() -> (m: ArgsIndexMap)
        ensures
            m.entries() == Seq::<SpecEntry>::empty(),
            m.wf(),
    {
        ArgsIndexMap(index_map_new())
    }

    /// Inserts or overwrites in place, as `map_insert` says.
    pub fn insert(&mut self, k: String, v: Option<String>)
        ensures
            final (self).entries() == map_insert(old(self).entries(), k@, v.deep_view()),
            old(self).wf() ==> final (self).wf(),
    {
        proof {
            if old(self).wf() {
                lemma_map_insert_unique(old(self).entries(), k@, v.deep_view());
            }
        }
        index_map_insert(&mut self.0, k, v);
    }

    /// Whether a name is among the entries.
    pub fn contains(&self, k: &String) -> (r: bool)
        ensures
            r == has_key(self.entries(), k@),
    {
        index_map_contains(&self.0, k)
    }

    /// The number of entries.
    pub fn len(&self) -> (r: usize)
        ensures
            r == self.entries().len(),
    {
        index_map_len(&self.0)
    }

    /// The entry at a position, in insertion order.
    pub fn entry_at(&self, i: usize) -> (r: (String, Option<String>))
        requires
            i < self.entries().len(),
        ensures
            (r.0@, r.1.deep_view()) == self.entries()[i as int],
    {
        index_map_entry_at(&self.0, i)
    }

    /// Reads an option list of `name = value` and bare-name items into an
    /// ordered mapping; an item whose name is not a plain identifier is
    /// rejected.
    pub fn from_list(items: &Vec<NestedMetaModel>) -> (r: Result<ArgsIndexMap, OrderlessError>)
        ensures
            (r is Ok <==> forall|i: int|
                0 <= i < items@.len() ==> #[trigger] meta_item_ok(items@[i])),
            r is Ok ==> r->Ok_0.entries() == build_args_map(items@) && r->Ok_0.wf(),
            (r is Err ==> (r->Err_0 matches OrderlessError::ExpectedIdent { text } && text@
                == meta_item_text(items@[first_failing(items@, |it: NestedMetaModel| meta_item_ok(it))]))),
    {
        let mut m = ArgsIndexMap::new();
        let mut i: usize = 0;
        while i < items.len()
            invariant
                i <= items@.len(),
                forall|j: int| 0 <= j < i ==> #[trigger] meta_item_ok(items@[j]),
                m.entries() == build_args_map(items@.take(i as int)),
                m.wf(),
            decreases items@.len() - i,
        {
            let ghost gi = i as int;
            match &items[i] {
                NestedMetaModel::NameValue { path, value } => {
                    match strict_ident_from_path(path) {
                        Ok(name) => {
                            m.insert(name, Some(value.clone()));
                        },
                        Err(e) => {
                            proof {
                                assert(!meta_item_ok(items@[gi]));
                                lemma_first_failing(
                                    items@,
                                    |it: NestedMetaModel| meta_item_ok(it),
                                    gi,
                                );
                            }
                            return Err(e);
                        },
                    }
                },
                NestedMetaModel::BarePath { path } => {
                    match strict_ident_from_path(path) {
                        Ok(name) => {
                            let value = name.clone();
                            m.insert(name, Some(value));
                        },
                        Err(e) => {
                            proof {
                                assert(!meta_item_ok(items@[gi]));
                                lemma_first_failing(
                                    items@,
                                    |it: NestedMetaModel| meta_item_ok(it),
                                    gi,
                                );
                            }
                            return Err(e);
                        },
                    }
                },
                NestedMetaModel::Other { text } => {
                    let t = text.clone();
                    proof {
                        assert(!meta_item_ok(items@[gi]));
                        lemma_first_failing(items@, |it: NestedMetaModel| meta_item_ok(it), gi);
                    }
                    return Err(OrderlessError::ExpectedIdent { text: t });
                },
            }
            i = i + 1;
            proof {
                assert(items@.take(i as int).drop_last() =~= items@.take(i - 1));
                assert(items@.take(i as int).last() == items@[i - 1]);
            }
        }
        proof {
            assert(items@.take(items@.len() as int) =~= items@);
        }
        Ok(m)
    }
}

/// Whether an option-list item is a bare name (as the `order` preset asks
/// for), with the name a plain identifier.
pub open spec fn order_item_ok(it: NestedMetaModel) -> bool {
    match it {
        NestedMetaModel::BarePath { path } => path.is_strict_ident(),
        _ => false,
    }
}

/// The ordered name list the items of an `order` preset build up, a repeated
/// name keeping its first place.
pub open spec fn build_ident_set(items: Seq<NestedMetaModel>) -> Seq<Seq<char>>
    decreases items.len(),
{
    if items.len() == 0 {
        Seq::empty()
    } else {
        set_insert(build_ident_set(items.drop_last()), meta_item_key(items.last()))
    }
}

/// An ordered set of parameter names, preserving first-insertion order.
pub struct IdentIndexSet(pub indexmap::IndexSet<String, std::hash::RandomState>);

impl IdentIndexSet {
    /// The elements, in order.
    pub open spec fn elems(&self) -> Seq<Seq<char>> {
        index_set_entries(self.0)
    }

    /// An empty set.
    pub fn new() -> (s: IdentIndexSet)
        ensures
            s.elems() == Seq::<Seq<char>>::empty(),
    {
        IdentIndexSet(index_set_new())
    }

    /// Inserts, a repeated element keeping its first place.
    pub fn insert(&mut self, k: String)
        ensures
            final (self).elems() == set_insert(old(self).elems(), k@),
    {
        index_set_insert(&mut self.0, k);
    }

    /// The number of elements.
    pub fn len(&self) -> (r: usize)
        ensures
            r == self.elems().len(),
    {
        index_set_len(&self.0)
    }

    /// The element at a position, in insertion order.
    pub fn elem_at(&self, i: usize) -> (r: String)
        requires
            i < self.elems().len(),
        ensures
            r@ == self.elems()[i as int],
    {
        index_set_elem_at(&self.0, i)
    }

    /// Reads an option list of bare names into an ordered set; an item that
    /// is not a plain identifier is rejected.
    pub fn from_list(items: &Vec<NestedMetaModel>) -> (r: Result<IdentIndexSet, OrderlessError>)
        ensures
            (r is Ok <==> forall|i: int|
                0 <= i < items@.len() ==> #[trigger] order_item_ok(items@[i])),
            r is Ok ==> r->Ok_0.elems() == build_ident_set(items@),
            (r is Err ==> (r->Err_0 matches OrderlessError::ExpectedIdent { text } && text@
                == meta_item_text(items@[first_failing(items@, |it: NestedMetaModel| order_item_ok(it))]))),
    {
        let mut s = IdentIndexSet::new();
        let mut i: usize = 0;
        while i < items.len()
            invariant
                i <= items@.len(),
                forall|j: int| 0 <= j < i ==> #[trigger] order_item_ok(items@[j]),
                s.elems() == build_ident_set(items@.take(i as int)),
            decreases items@.len() - i,
        {
            let ghost gi = i as int;
            match &items[i] {
                NestedMetaModel::BarePath { path } => {
                    match strict_ident_from_path(path) {
                        Ok(name) => {
                            s.insert(name);
                        },
                        Err(e) => {
                            proof {
                                assert(!order_item_ok(items@[gi]));
                                lemma_first_failing(
                                    items@,
                                    |it: NestedMetaModel| order_item_ok(it),
                                    gi,
                                );
                            }
                            return Err(e);
                        },
                    }
                },
                NestedMetaModel::NameValue { path, .. } => {
                    let t = path_to_string(path);
                    proof {
                        assert(!order_item_ok(items@[gi]));
                        lemma_first_failing(items@, |it: NestedMetaModel| order_item_ok(it), gi);
                    }
                    return Err(OrderlessError::ExpectedIdent { text: t });
                },
                NestedMetaModel::Other { text } => {
                    let t = text.clone();
                    proof {
                        assert(!order_item_ok(items@[gi]));
                        lemma_first_failing(items@, |it: NestedMetaModel| order_item_ok(it), gi);
                    }
                    return Err(OrderlessError::ExpectedIdent { text: t });
                },
            }
            i = i + 1;
            proof {
                assert(items@.take(i as int).drop_last() =~= items@.take(i - 1));
                assert(items@.take(i as int).last() == items@[i - 1]);
            }
        }
        proof {
            assert(items@.take(items@.len() as int) =~= items@);
        }
        Ok(s)
    }
}

} // verus!
