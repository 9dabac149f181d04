//! What a syntax tree keeps in memory: every buffer and box that it owns, and their size.
use std::rc::Rc;
use vstd::layout::size_of;
use vstd::prelude::*;
use crate::ast::{
    ArrayElem, ArrayPatElem, Class, ClassMember, ExportSpec, Expr, ForInit, Function, ImportDecl,
    ImportSpec, ObjPatProp, Param, Pattern, PropDef, PropKey, Stmt, SwitchCase,
};

verus! {

/// What a buffer or box holds.
#[derive(Clone, Copy, PartialEq, Eq, Structural, Debug)]
pub enum HeldKind {
    /// The bytes of a string.
    Text,
    StmtBox,
    ExprBox,
    ForInitBox,
    Stmts,
    Decls,
    Cases,
    ImportSpecs,
    ExportSpecs,
    PatternElems,
    PatternProps,
    Elems,
    PropDefs,
    Exprs,
    Quasis,
    Members,
    Params,
    /// A text or BigInt that the tree shares: it is counted where it is owned.
    SharedText,
    SharedBigInt,
    /// A function or class that the tree shares: it is counted where it is owned.
    SharedFunction,
    SharedClass,
}

/// What a tree shares with others: the very text, BigInt, function or class, which is counted where
/// it is owned.
#[derive(Clone, Copy)]
pub enum Shared<'a> {
    Absent,
    Text(&'a String),
    BigInt(&'a String),
    Function(&'a Rc<Function>),
    Class(&'a Rc<Class>),
}

/// What is shared, as contracts speak of it.
pub enum SharedItem {
    Absent,
    Text(Seq<char>),
    BigInt(Seq<char>),
    Function(Rc<Function>),
    Class(Rc<Class>),
}

impl<'a> Shared<'a> {
    pub open spec fn item(self) -> SharedItem {
        match self {
            Shared::Absent => SharedItem::Absent,
            Shared::Text(s) => SharedItem::Text(s@),
            Shared::BigInt(s) => SharedItem::BigInt(s@),
            Shared::Function(f) => SharedItem::Function(*f),
            Shared::Class(c) => SharedItem::Class(*c),
        }
    }
}

/// A buffer or box, how many elements it holds, and what it shares.
pub struct Held {
    pub kind: HeldKind,
    pub len: usize,
    pub shared: SharedItem,
}

/// A buffer or box with the room that it takes, in elements.
#[derive(Clone, Copy)]
pub struct Holding<'a> {
    pub kind: HeldKind,
    pub len: usize,
    pub capacity: usize,
    pub shared: Shared<'a>,
}

impl<'a> Holding<'a> {
    pub open spec fn held(self) -> Held {
        Held { kind: self.kind, len: self.len, shared: self.shared.item() }
    }
}

/// What is held, in the order of a walk.
pub open spec fn held_in(h: Seq<Holding>) -> Seq<Held> {
    h.map_values(|x: Holding| x.held())
}

/// A box, or something shared: it takes exactly its own room.
pub open spec fn single(k: HeldKind) -> bool {
    match k {
        HeldKind::StmtBox => true,
        HeldKind::ExprBox => true,
        HeldKind::ForInitBox => true,
        HeldKind::SharedText => true,
        HeldKind::SharedBigInt => true,
        HeldKind::SharedFunction => true,
        HeldKind::SharedClass => true,
        _ => false,
    }
}

/// No buffer has less room than it needs, and a box has no more.
pub open spec fn roomy(h: Seq<Holding>) -> bool {
    forall|j: int|
        0 <= j < h.len() ==> (#[trigger] h[j]).capacity >= h[j].len && (single(h[j].kind)
            ==> h[j].capacity == h[j].len)
}

/// `Vec::capacity`: the room that a vector has, which is never less than what it holds. How much
/// more it is rests with the allocator, and nothing is said of it.
#[verifier::external_body]
fn vec_capacity<T>(v: &Vec<T>) -> (r: usize)
    ensures
        r >= v@.len(),
{
    v.capacity()
}

/// `String::capacity`: the room that a string has, in bytes. Every character takes a byte at least.
/// How much more it is rests with the allocator, and nothing is said of it.
#[verifier::external_body]
fn text_capacity(s: &String) -> (r: usize)
    ensures
        r >= s@.len(),
{
    s.capacity()
}

fn add_holding(out: &mut Vec<Holding>, kind: HeldKind, len: usize, capacity: usize)
    requires
        roomy(old(out)@),
        capacity >= len,
        single(kind) ==> capacity == len,
    ensures
        held_in(final(out)@) == held_in(old(out)@).push(
            Held { kind, len, shared: SharedItem::Absent },
        ),
        roomy(final(out)@),
{
    let ghost before = out@;
    out.push(Holding { kind, len, capacity, shared: Shared::Absent });
    assert(held_in(out@) =~= held_in(before).push(Held { kind, len, shared: SharedItem::Absent }));
}

/// Something shared, behind `acc`.
pub open spec fn with_item(acc: Seq<Held>, kind: HeldKind, shared: SharedItem) -> Seq<Held> {
    acc.push(Held { kind, len: 1, shared })
}

pub open spec fn with_function(acc: Seq<Held>, f: Rc<Function>) -> Seq<Held> {
    with_item(acc, HeldKind::SharedFunction, SharedItem::Function(f))
}

pub open spec fn with_class(acc: Seq<Held>, c: Rc<Class>) -> Seq<Held> {
    with_item(acc, HeldKind::SharedClass, SharedItem::Class(c))
}

pub open spec fn with_bigint(acc: Seq<Held>, s: Seq<char>) -> Seq<Held> {
    with_item(acc, HeldKind::SharedBigInt, SharedItem::BigInt(s))
}

/// Lists something shared.
fn add_shared<'a>(out: &mut Vec<Holding<'a>>, kind: HeldKind, shared: Shared<'a>)
    requires
        roomy(old(out)@),
    ensures
        held_in(final(out)@) == with_item(held_in(old(out)@), kind, shared.item()),
        roomy(final(out)@),
{
    let ghost before = out@;
    out.push(Holding { kind, len: 1, capacity: 1, shared });
    assert(held_in(out@) =~= with_item(held_in(before), kind, shared.item()));
}

/// A buffer with its elements, behind `acc`.
pub open spec fn with_buffer(acc: Seq<Held>, kind: HeldKind, len: nat) -> Seq<Held> {
    acc.push(Held { kind, len: len as usize, shared: SharedItem::Absent })
}

fn add_buffer<T>(out: &mut Vec<Holding>, kind: HeldKind, v: &Vec<T>)
    requires
        roomy(old(out)@),
        !single(kind),
    ensures
        held_in(final(out)@) == with_buffer(held_in(old(out)@), kind, v@.len()),
        roomy(final(out)@),
{
    add_holding(out, kind, v.len(), vec_capacity(v));
}

fn add_box(out: &mut Vec<Holding>, kind: HeldKind)
    requires
        roomy(old(out)@),
    ensures
        held_in(final(out)@) == with_buffer(held_in(old(out)@), kind, 1),
        roomy(final(out)@),
{
    add_holding(out, kind, 1, 1);
}

/// A string, behind `acc`.
pub open spec fn with_text(acc: Seq<Held>, s: Seq<char>) -> Seq<Held> {
    with_buffer(acc, HeldKind::Text, s.len())
}

fn add_text(out: &mut Vec<Holding>, s: &String)
    requires
        roomy(old(out)@),
    ensures
        held_in(final(out)@) == with_text(held_in(old(out)@), s@),
        roomy(final(out)@),
{
    let n: usize = s.as_str().unicode_len();
    add_holding(out, HeldKind::Text, n, text_capacity(s));
}

pub open spec fn with_opt_text(acc: Seq<Held>, s: Option<String>) -> Seq<Held> {
    match s {
        Some(s) => with_text(acc, s@),
        None => acc,
    }
}

fn add_opt_text(out: &mut Vec<Holding>, s: &Option<String>)
    requires
        roomy(old(out)@),
    ensures
        held_in(final(out)@) == with_opt_text(held_in(old(out)@), *s),
        roomy(final(out)@),
{
    if let Some(s) = s {
        add_text(out, s);
    }
}

/// A shared text, behind `acc`.
pub open spec fn with_shared(acc: Seq<Held>, s: Seq<char>) -> Seq<Held> {
    with_item(acc, HeldKind::SharedText, SharedItem::Text(s))
}

pub open spec fn with_opt_shared(acc: Seq<Held>, s: Option<String>) -> Seq<Held> {
    match s {
        Some(s) => with_shared(acc, s@),
        None => acc,
    }
}

fn add_opt_shared<'a>(out: &mut Vec<Holding<'a>>, s: &'a Option<String>)
    requires
        roomy(old(out)@),
    ensures
        held_in(final(out)@) == with_opt_shared(held_in(old(out)@), *s),
        roomy(final(out)@),
{
    if let Some(s) = s {
        add_shared(out, HeldKind::SharedText, Shared::Text(s));
    }
}

// What each piece of a tree holds, behind `acc`

pub open spec fn expr_holds(e: Expr, acc: Seq<Held>) -> Seq<Held>
    decreases e, 0nat,
{
    match e {
        Expr::Paren(inner) => boxed_expr_holds(inner, acc),
        Expr::ToStr(inner) => boxed_expr_holds(inner, acc),
        Expr::Await(inner) => boxed_expr_holds(inner, acc),
        Expr::OptionalChain(inner) => boxed_expr_holds(inner, acc),
        Expr::Num(_) => acc,
        Expr::Bool(_) => acc,
        Expr::Null => acc,
        Expr::Undefined => acc,
        Expr::This => acc,
        Expr::Super => acc,
        Expr::ImportMeta => acc,
        Expr::NewTarget => acc,
        Expr::BigInt(s) => with_bigint(acc, s@),
        Expr::Str(s) => with_shared(acc, s@),
        Expr::Ident(s) => with_text(acc, s@),
        Expr::Regex { body, flags } => with_shared(with_shared(acc, body@), flags@),
        Expr::Array(elems) => elems_hold(
            elems,
            elems.len() as nat,
            with_buffer(acc, HeldKind::Elems, elems.len() as nat),
        ),
        Expr::Object(props) => prop_defs_hold(
            props,
            props.len() as nat,
            with_buffer(acc, HeldKind::PropDefs, props.len() as nat),
        ),
        Expr::Func(f) => with_function(acc, f),
        Expr::Class(c) => with_class(acc, c),
        Expr::Yield { delegate: _, arg } => opt_boxed_holds(arg, acc),
        Expr::Unary { op: _, arg } => boxed_expr_holds(arg, acc),
        Expr::Update { op: _, prefix: _, arg } => boxed_expr_holds(arg, acc),
        Expr::Binary { op: _, left, right } => boxed_expr_holds(
            right,
            boxed_expr_holds(left, acc),
        ),
        Expr::Logical { op: _, left, right } => boxed_expr_holds(
            right,
            boxed_expr_holds(left, acc),
        ),
        Expr::Assign { op: _, target, value } => boxed_expr_holds(
            value,
            boxed_expr_holds(target, acc),
        ),
        Expr::Cond { test, cons, alt } => boxed_expr_holds(
            alt,
            boxed_expr_holds(cons, boxed_expr_holds(test, acc)),
        ),
        Expr::Call { callee, args, optional: _ } => elems_hold(
            args,
            args.len() as nat,
            with_buffer(boxed_expr_holds(callee, acc), HeldKind::Elems, args.len() as nat),
        ),
        Expr::New { callee, args } => elems_hold(
            args,
            args.len() as nat,
            with_buffer(boxed_expr_holds(callee, acc), HeldKind::Elems, args.len() as nat),
        ),
        Expr::Member { obj, prop, optional: _ } => with_text(boxed_expr_holds(obj, acc), prop@),
        Expr::Index { obj, index, optional: _ } => boxed_expr_holds(
            index,
            boxed_expr_holds(obj, acc),
        ),
        Expr::Sequence(exprs) => exprs_hold(
            exprs,
            exprs.len() as nat,
            with_buffer(acc, HeldKind::Exprs, exprs.len() as nat),
        ),
        Expr::TaggedTemplate { tag, site: _, quasis, subs } => exprs_hold(
            subs,
            subs.len() as nat,
            with_buffer(
                quasis_hold(
                    quasis,
                    quasis.len() as nat,
                    with_buffer(
                        boxed_expr_holds(tag, acc),
                        HeldKind::Quasis,
                        quasis.len() as nat,
                    ),
                ),
                HeldKind::Exprs,
                subs.len() as nat,
            ),
        ),
        Expr::PrivateIn { name, obj } => boxed_expr_holds(obj, with_text(acc, name@)),
        Expr::ImportCall { spec, phase: _, options } => opt_boxed_holds(
            options,
            boxed_expr_holds(spec, acc),
        ),
    }
}

pub open spec fn boxed_expr_holds(e: Box<Expr>, acc: Seq<Held>) -> Seq<Held>
    decreases e, 1nat,
{
    expr_holds(*e, with_buffer(acc, HeldKind::ExprBox, 1))
}

pub open spec fn opt_boxed_holds(e: Option<Box<Expr>>, acc: Seq<Held>) -> Seq<Held>
    decreases e, 0nat,
{
    match e {
        Some(e) => boxed_expr_holds(e, acc),
        None => acc,
    }
}

pub open spec fn opt_expr_holds(e: Option<Expr>, acc: Seq<Held>) -> Seq<Held>
    decreases e, 0nat,
{
    match e {
        Some(e) => expr_holds(e, acc),
        None => acc,
    }
}

pub open spec fn exprs_hold(v: Vec<Expr>, n: nat, acc: Seq<Held>) -> Seq<Held>
    decreases v, n,
{
    if n == 0 || n > v.len() {
        acc
    } else {
        expr_holds(v[n - 1], exprs_hold(v, (n - 1) as nat, acc))
    }
}

pub open spec fn elem_holds(el: ArrayElem, acc: Seq<Held>) -> Seq<Held>
    decreases el, 0nat,
{
    match el {
        ArrayElem::Item(e) => expr_holds(e, acc),
        ArrayElem::Spread(e) => expr_holds(e, acc),
        ArrayElem::Hole => acc,
    }
}

pub open spec fn elems_hold(v: Vec<ArrayElem>, n: nat, acc: Seq<Held>) -> Seq<Held>
    decreases v, n,
{
    if n == 0 || n > v.len() {
        acc
    } else {
        elem_holds(v[n - 1], elems_hold(v, (n - 1) as nat, acc))
    }
}

pub open spec fn quasis_hold(v: Vec<(Option<String>, String)>, n: nat, acc: Seq<Held>) -> Seq<Held>
    decreases n,
{
    if n == 0 || n > v.len() {
        acc
    } else {
        with_text(
            with_opt_text(quasis_hold(v, (n - 1) as nat, acc), v[n - 1].0),
            v[n - 1].1@,
        )
    }
}

pub open spec fn prop_key_holds(k: PropKey, acc: Seq<Held>) -> Seq<Held>
    decreases k, 0nat,
{
    match k {
        PropKey::Ident(s) => with_text(acc, s@),
        PropKey::Str(s) => with_shared(acc, s@),
        PropKey::Num(_) => acc,
        PropKey::Computed(e) => expr_holds(e, acc),
    }
}

pub open spec fn prop_def_holds(p: PropDef, acc: Seq<Held>) -> Seq<Held>
    decreases p, 0nat,
{
    match p {
        PropDef::KeyValue { key, value } => expr_holds(value, prop_key_holds(key, acc)),
        PropDef::Cover { key, value } => expr_holds(value, prop_key_holds(key, acc)),
        PropDef::Method { key, func } => with_function(prop_key_holds(key, acc), func),
        PropDef::Getter { key, func } => with_function(prop_key_holds(key, acc), func),
        PropDef::Setter { key, func } => with_function(prop_key_holds(key, acc), func),
        PropDef::Spread(e) => expr_holds(e, acc),
        PropDef::Proto(e) => expr_holds(e, acc),
    }
}

pub open spec fn prop_defs_hold(v: Vec<PropDef>, n: nat, acc: Seq<Held>) -> Seq<Held>
    decreases v, n,
{
    if n == 0 || n > v.len() {
        acc
    } else {
        prop_def_holds(v[n - 1], prop_defs_hold(v, (n - 1) as nat, acc))
    }
}

pub open spec fn pattern_elem_holds(el: ArrayPatElem, acc: Seq<Held>) -> Seq<Held>
    decreases el, 0nat,
{
    match el {
        ArrayPatElem::Hole => acc,
        ArrayPatElem::Elem { pattern, default } => opt_expr_holds(
            default,
            pattern_holds(pattern, acc),
        ),
        ArrayPatElem::Rest(pattern) => pattern_holds(pattern, acc),
    }
}

pub open spec fn pattern_elems_hold(v: Vec<ArrayPatElem>, n: nat, acc: Seq<Held>) -> Seq<Held>
    decreases v, n,
{
    if n == 0 || n > v.len() {
        acc
    } else {
        pattern_elem_holds(v[n - 1], pattern_elems_hold(v, (n - 1) as nat, acc))
    }
}

pub open spec fn pattern_prop_holds(p: ObjPatProp, acc: Seq<Held>) -> Seq<Held>
    decreases p, 0nat,
{
    opt_expr_holds(p.default, pattern_holds(p.value, prop_key_holds(p.key, acc)))
}

pub open spec fn pattern_props_hold(v: Vec<ObjPatProp>, n: nat, acc: Seq<Held>) -> Seq<Held>
    decreases v, n,
{
    if n == 0 || n > v.len() {
        acc
    } else {
        pattern_prop_holds(v[n - 1], pattern_props_hold(v, (n - 1) as nat, acc))
    }
}

pub open spec fn pattern_holds(p: Pattern, acc: Seq<Held>) -> Seq<Held>
    decreases p, 0nat,
{
    match p {
        Pattern::Ident(s) => with_text(acc, s@),
        Pattern::Array(elems) => pattern_elems_hold(
            elems,
            elems.len() as nat,
            with_buffer(acc, HeldKind::PatternElems, elems.len() as nat),
        ),
        Pattern::Object(o) => with_opt_text(
            pattern_props_hold(
                o.props,
                o.props.len() as nat,
                with_buffer(acc, HeldKind::PatternProps, o.props.len() as nat),
            ),
            o.rest,
        ),
        Pattern::Member(e) => boxed_expr_holds(e, acc),
    }
}

pub open spec fn decl_holds(d: (Pattern, Option<Expr>), acc: Seq<Held>) -> Seq<Held>
    decreases d, 0nat,
{
    opt_expr_holds(d.1, pattern_holds(d.0, acc))
}

pub open spec fn decls_each_hold(v: Vec<(Pattern, Option<Expr>)>, n: nat, acc: Seq<Held>) -> Seq<Held>
    decreases v, n,
{
    if n == 0 || n > v.len() {
        acc
    } else {
        decl_holds(v[n - 1], decls_each_hold(v, (n - 1) as nat, acc))
    }
}

pub open spec fn decls_hold(v: Vec<(Pattern, Option<Expr>)>, acc: Seq<Held>) -> Seq<Held>
    decreases v, v.len() + 1,
{
    decls_each_hold(v, v.len() as nat, with_buffer(acc, HeldKind::Decls, v.len() as nat))
}

pub open spec fn stmts_each_hold(v: Vec<Stmt>, n: nat, acc: Seq<Held>) -> Seq<Held>
    decreases v, n,
{
    if n == 0 || n > v.len() {
        acc
    } else {
        stmt_holds(v[n - 1], stmts_each_hold(v, (n - 1) as nat, acc))
    }
}

pub open spec fn stmts_hold(v: Vec<Stmt>, acc: Seq<Held>) -> Seq<Held>
    decreases v, v.len() + 1,
{
    stmts_each_hold(v, v.len() as nat, with_buffer(acc, HeldKind::Stmts, v.len() as nat))
}

pub open spec fn boxed_stmt_holds(s: Box<Stmt>, acc: Seq<Held>) -> Seq<Held>
    decreases s, 1nat,
{
    stmt_holds(*s, with_buffer(acc, HeldKind::StmtBox, 1))
}

pub open spec fn opt_stmt_holds(s: Option<Box<Stmt>>, acc: Seq<Held>) -> Seq<Held>
    decreases s, 0nat,
{
    match s {
        Some(s) => boxed_stmt_holds(s, acc),
        None => acc,
    }
}

pub open spec fn for_init_holds(i: ForInit, acc: Seq<Held>) -> Seq<Held>
    decreases i, 0nat,
{
    match i {
        ForInit::VarDecl { kind: _, decls } => decls_hold(decls, acc),
        ForInit::Expr(e) => expr_holds(e, acc),
    }
}

pub open spec fn opt_for_init_holds(i: Option<Box<ForInit>>, acc: Seq<Held>) -> Seq<Held>
    decreases i, 0nat,
{
    match i {
        Some(i) => for_init_holds(*i, with_buffer(acc, HeldKind::ForInitBox, 1)),
        None => acc,
    }
}

pub open spec fn opt_pattern_holds(p: Option<Pattern>, acc: Seq<Held>) -> Seq<Held>
    decreases p, 0nat,
{
    match p {
        Some(p) => pattern_holds(p, acc),
        None => acc,
    }
}

pub open spec fn handler_holds(h: Option<(Option<Pattern>, Vec<Stmt>)>, acc: Seq<Held>) -> Seq<Held>
    decreases h, 0nat,
{
    match h {
        Some(h) => stmts_hold(h.1, opt_pattern_holds(h.0, acc)),
        None => acc,
    }
}

pub open spec fn opt_stmts_hold(b: Option<Vec<Stmt>>, acc: Seq<Held>) -> Seq<Held>
    decreases b, 0nat,
{
    match b {
        Some(b) => stmts_hold(b, acc),
        None => acc,
    }
}

pub open spec fn case_holds(c: SwitchCase, acc: Seq<Held>) -> Seq<Held>
    decreases c, 0nat,
{
    stmts_hold(c.body, opt_expr_holds(c.test, acc))
}

pub open spec fn cases_hold(v: Vec<SwitchCase>, n: nat, acc: Seq<Held>) -> Seq<Held>
    decreases v, n,
{
    if n == 0 || n > v.len() {
        acc
    } else {
        case_holds(v[n - 1], cases_hold(v, (n - 1) as nat, acc))
    }
}

pub open spec fn import_spec_holds(s: ImportSpec, acc: Seq<Held>) -> Seq<Held> {
    match s {
        ImportSpec::Default(l) => with_text(acc, l@),
        ImportSpec::Namespace(l) => with_text(acc, l@),
        ImportSpec::DeferNamespace(l) => with_text(acc, l@),
        ImportSpec::Source(l) => with_text(acc, l@),
        ImportSpec::Named { imported, local } => with_text(with_text(acc, imported@), local@),
    }
}

pub open spec fn import_specs_hold(v: Vec<ImportSpec>, n: nat, acc: Seq<Held>) -> Seq<Held>
    decreases n,
{
    if n == 0 || n > v.len() {
        acc
    } else {
        import_spec_holds(v[n - 1], import_specs_hold(v, (n - 1) as nat, acc))
    }
}

pub open spec fn import_holds(i: ImportDecl, acc: Seq<Held>) -> Seq<Held> {
    with_opt_text(
        import_specs_hold(
            i.specs,
            i.specs.len() as nat,
            with_buffer(with_shared(acc, i.source@), HeldKind::ImportSpecs, i.specs.len() as nat),
        ),
        i.attr_type,
    )
}

pub open spec fn export_specs_hold(v: Vec<ExportSpec>, n: nat, acc: Seq<Held>) -> Seq<Held>
    decreases n,
{
    if n == 0 || n > v.len() {
        acc
    } else {
        with_text(
            with_text(export_specs_hold(v, (n - 1) as nat, acc), v[n - 1].local@),
            v[n - 1].exported@,
        )
    }
}

pub open spec fn stmt_holds(s: Stmt, acc: Seq<Held>) -> Seq<Held>
    decreases s, 0nat,
{
    match s {
        Stmt::Expr(e) => expr_holds(e, acc),
        Stmt::Throw(e) => expr_holds(e, acc),
        Stmt::VarDecl { kind: _, decls } => decls_hold(decls, acc),
        Stmt::FuncDecl(f) => with_function(acc, f),
        Stmt::Return(e) => opt_expr_holds(e, acc),
        Stmt::If { test, cons, alt } => opt_stmt_holds(
            alt,
            boxed_stmt_holds(cons, expr_holds(test, acc)),
        ),
        Stmt::Block(b) => stmts_hold(b, acc),
        Stmt::While { test, body } => boxed_stmt_holds(body, expr_holds(test, acc)),
        Stmt::DoWhile { body, test } => expr_holds(test, boxed_stmt_holds(body, acc)),
        Stmt::For { init, test, update, body } => boxed_stmt_holds(
            body,
            opt_expr_holds(update, opt_expr_holds(test, opt_for_init_holds(init, acc))),
        ),
        Stmt::ForInOf { decl: _, left, right, of: _, is_await: _, body } => boxed_stmt_holds(
            body,
            expr_holds(right, pattern_holds(left, acc)),
        ),
        Stmt::Break(l) => with_opt_text(acc, l),
        Stmt::Continue(l) => with_opt_text(acc, l),
        Stmt::Try { block, handler, finalizer } => opt_stmts_hold(
            finalizer,
            handler_holds(handler, stmts_hold(block, acc)),
        ),
        Stmt::Switch { disc, cases } => cases_hold(
            cases,
            cases.len() as nat,
            with_buffer(expr_holds(disc, acc), HeldKind::Cases, cases.len() as nat),
        ),
        Stmt::Labeled { label, body } => boxed_stmt_holds(body, with_text(acc, label@)),
        Stmt::With { obj, body } => boxed_stmt_holds(body, expr_holds(obj, acc)),
        Stmt::ClassDecl(c) => with_class(acc, c),
        Stmt::Empty => acc,
        Stmt::Debugger => acc,
        Stmt::Import(i) => import_holds(i, acc),
        Stmt::ExportNamed { specs, source } => with_opt_shared(
            export_specs_hold(
                specs,
                specs.len() as nat,
                with_buffer(acc, HeldKind::ExportSpecs, specs.len() as nat),
            ),
            source,
        ),
        Stmt::ExportDecl(inner) => boxed_stmt_holds(inner, acc),
        Stmt::ExportDefault(inner) => boxed_stmt_holds(inner, acc),
        Stmt::ExportAll { source, exported } => with_opt_text(
            with_shared(acc, source@),
            exported,
        ),
    }
}

pub open spec fn opt_func_holds(f: Option<Rc<Function>>, acc: Seq<Held>) -> Seq<Held> {
    match f {
        Some(f) => with_function(acc, f),
        None => acc,
    }
}

pub open spec fn member_holds(m: ClassMember, acc: Seq<Held>) -> Seq<Held> {
    exprs_hold(
        m.decorators,
        m.decorators.len() as nat,
        with_buffer(
            opt_expr_holds(m.value, opt_func_holds(m.func, prop_key_holds(m.key, acc))),
            HeldKind::Exprs,
            m.decorators.len() as nat,
        ),
    )
}

pub open spec fn members_hold(v: Vec<ClassMember>, n: nat, acc: Seq<Held>) -> Seq<Held>
    decreases n,
{
    if n == 0 || n > v.len() {
        acc
    } else {
        member_holds(v[n - 1], members_hold(v, (n - 1) as nat, acc))
    }
}

/// What a class holds.
pub open spec fn class_holds(c: Class, acc: Seq<Held>) -> Seq<Held> {
    with_opt_shared(
        exprs_hold(
            c.decorators,
            c.decorators.len() as nat,
            with_buffer(
                members_hold(
                    c.members,
                    c.members.len() as nat,
                    with_buffer(
                        opt_boxed_holds(c.superclass, with_opt_text(acc, c.name)),
                        HeldKind::Members,
                        c.members.len() as nat,
                    ),
                ),
                HeldKind::Exprs,
                c.decorators.len() as nat,
            ),
        ),
        c.source,
    )
}

pub open spec fn param_holds(p: Param, acc: Seq<Held>) -> Seq<Held> {
    opt_expr_holds(p.default, pattern_holds(p.pattern, acc))
}

pub open spec fn params_hold(v: Vec<Param>, n: nat, acc: Seq<Held>) -> Seq<Held>
    decreases n,
{
    if n == 0 || n > v.len() {
        acc
    } else {
        param_holds(v[n - 1], params_hold(v, (n - 1) as nat, acc))
    }
}

/// What a function holds.
pub open spec fn function_holds(f: Function, acc: Seq<Held>) -> Seq<Held> {
    with_opt_shared(
        stmts_hold(
            f.body,
            params_hold(
                f.params,
                f.params.len() as nat,
                with_buffer(
                    with_opt_text(acc, f.name),
                    HeldKind::Params,
                    f.params.len() as nat,
                ),
            ),
        ),
        f.source,
    )
}

// The walk

fn walk_expr<'a>(e: &'a Expr, out: &mut Vec<Holding<'a>>)
    requires
        roomy(old(out)@),
    ensures
        held_in(final(out)@) == expr_holds(*e, held_in(old(out)@)),
        roomy(final(out)@),
    decreases *e, 0nat,
{
    match e {
        Expr::Paren(inner) => walk_boxed_expr(inner, out),
        Expr::ToStr(inner) => walk_boxed_expr(inner, out),
        Expr::Await(inner) => walk_boxed_expr(inner, out),
        Expr::OptionalChain(inner) => walk_boxed_expr(inner, out),
        Expr::Num(_) => {},
        Expr::Bool(_) => {},
        Expr::Null => {},
        Expr::Undefined => {},
        Expr::This => {},
        Expr::Super => {},
        Expr::ImportMeta => {},
        Expr::NewTarget => {},
        Expr::BigInt(s) => add_shared(out, HeldKind::SharedBigInt, Shared::BigInt(s)),
        Expr::Str(s) => add_shared(out, HeldKind::SharedText, Shared::Text(s)),
        Expr::Ident(s) => add_text(out, s),
        Expr::Regex { body, flags } => {
            add_shared(out, HeldKind::SharedText, Shared::Text(body));
            add_shared(out, HeldKind::SharedText, Shared::Text(flags));
        },
        Expr::Array(elems) => {
            add_buffer(out, HeldKind::Elems, elems);
            walk_elems(elems, out);
        },
        Expr::Object(props) => {
            add_buffer(out, HeldKind::PropDefs, props);
            walk_prop_defs(props, out);
        },
        Expr::Func(f) => add_shared(out, HeldKind::SharedFunction, Shared::Function(f)),
        Expr::Class(c) => add_shared(out, HeldKind::SharedClass, Shared::Class(c)),
        Expr::Yield { delegate: _, arg } => walk_opt_boxed(arg, out),
        Expr::Unary { op: _, arg } => walk_boxed_expr(arg, out),
        Expr::Update { op: _, prefix: _, arg } => walk_boxed_expr(arg, out),
        Expr::Binary { op: _, left, right } => {
            walk_boxed_expr(left, out);
            walk_boxed_expr(right, out);
        },
        Expr::Logical { op: _, left, right } => {
            walk_boxed_expr(left, out);
            walk_boxed_expr(right, out);
        },
        Expr::Assign { op: _, target, value } => {
            walk_boxed_expr(target, out);
            walk_boxed_expr(value, out);
        },
        Expr::Cond { test, cons, alt } => {
            walk_boxed_expr(test, out);
            walk_boxed_expr(cons, out);
            walk_boxed_expr(alt, out);
        },
        Expr::Call { callee, args, optional: _ } => {
            walk_boxed_expr(callee, out);
            add_buffer(out, HeldKind::Elems, args);
            walk_elems(args, out);
        },
        Expr::New { callee, args } => {
            walk_boxed_expr(callee, out);
            add_buffer(out, HeldKind::Elems, args);
            walk_elems(args, out);
        },
        Expr::Member { obj, prop, optional: _ } => {
            walk_boxed_expr(obj, out);
            add_text(out, prop);
        },
        Expr::Index { obj, index, optional: _ } => {
            walk_boxed_expr(obj, out);
            walk_boxed_expr(index, out);
        },
        Expr::Sequence(exprs) => {
            add_buffer(out, HeldKind::Exprs, exprs);
            walk_exprs(exprs, out);
        },
        Expr::TaggedTemplate { tag, site: _, quasis, subs } => {
            walk_boxed_expr(tag, out);
            add_buffer(out, HeldKind::Quasis, quasis);
            walk_quasis(quasis, out);
            add_buffer(out, HeldKind::Exprs, subs);
            walk_exprs(subs, out);
        },
        Expr::PrivateIn { name, obj } => {
            add_text(out, name);
            walk_boxed_expr(obj, out);
        },
        Expr::ImportCall { spec, phase: _, options } => {
            walk_boxed_expr(spec, out);
            walk_opt_boxed(options, out);
        },
    }
}

fn walk_boxed_expr<'a>(e: &'a Box<Expr>, out: &mut Vec<Holding<'a>>)
    requires
        roomy(old(out)@),
    ensures
        held_in(final(out)@) == boxed_expr_holds(*e, held_in(old(out)@)),
        roomy(final(out)@),
    decreases *e, 1nat,
{
    add_box(out, HeldKind::ExprBox);
    walk_expr(&**e, out);
}

fn walk_opt_boxed<'a>(e: &'a Option<Box<Expr>>, out: &mut Vec<Holding<'a>>)
    requires
        roomy(old(out)@),
    ensures
        held_in(final(out)@) == opt_boxed_holds(*e, held_in(old(out)@)),
        roomy(final(out)@),
    decreases *e, 0nat,
{
    if let Some(e) = e {
        walk_boxed_expr(e, out);
    }
}

fn walk_opt_expr<'a>(e: &'a Option<Expr>, out: &mut Vec<Holding<'a>>)
    requires
        roomy(old(out)@),
    ensures
        held_in(final(out)@) == opt_expr_holds(*e, held_in(old(out)@)),
        roomy(final(out)@),
    decreases *e, 0nat,
{
    if let Some(e) = e {
        walk_expr(e, out);
    }
}

fn walk_exprs<'a>(v: &'a Vec<Expr>, out: &mut Vec<Holding<'a>>)
    requires
        roomy(old(out)@),
    ensures
        held_in(final(out)@) == exprs_hold(*v, v.len() as nat, held_in(old(out)@)),
        roomy(final(out)@),
    decreases *v, v.len() as nat,
{
    let mut k: usize = 0;
    while k < v.len()
        invariant
            k <= v.len(),
            roomy(out@),
            held_in(out@) == exprs_hold(*v, k as nat, held_in(old(out)@)),
        decreases v.len() - k,
    {
        walk_expr(&v[k], out);
        k += 1;
    }
}

fn walk_elem<'a>(el: &'a ArrayElem, out: &mut Vec<Holding<'a>>)
    requires
        roomy(old(out)@),
    ensures
        held_in(final(out)@) == elem_holds(*el, held_in(old(out)@)),
        roomy(final(out)@),
    decreases *el, 0nat,
{
    match el {
        ArrayElem::Item(e) => walk_expr(e, out),
        ArrayElem::Spread(e) => walk_expr(e, out),
        ArrayElem::Hole => {},
    }
}

fn walk_elems<'a>(v: &'a Vec<ArrayElem>, out: &mut Vec<Holding<'a>>)
    requires
        roomy(old(out)@),
    ensures
        held_in(final(out)@) == elems_hold(*v, v.len() as nat, held_in(old(out)@)),
        roomy(final(out)@),
    decreases *v, v.len() as nat,
{
    let mut k: usize = 0;
    while k < v.len()
        invariant
            k <= v.len(),
            roomy(out@),
            held_in(out@) == elems_hold(*v, k as nat, held_in(old(out)@)),
        decreases v.len() - k,
    {
        walk_elem(&v[k], out);
        k += 1;
    }
}

fn walk_quasis<'a>(v: &'a Vec<(Option<String>, String)>, out: &mut Vec<Holding<'a>>)
    requires
        roomy(old(out)@),
    ensures
        held_in(final(out)@) == quasis_hold(*v, v.len() as nat, held_in(old(out)@)),
        roomy(final(out)@),
{
    let mut k: usize = 0;
    while k < v.len()
        invariant
            k <= v.len(),
            roomy(out@),
            held_in(out@) == quasis_hold(*v, k as nat, held_in(old(out)@)),
        decreases v.len() - k,
    {
        add_opt_text(out, &v[k].0);
        add_text(out, &v[k].1);
        k += 1;
    }
}

fn walk_prop_key<'a>(k: &'a PropKey, out: &mut Vec<Holding<'a>>)
    requires
        roomy(old(out)@),
    ensures
        held_in(final(out)@) == prop_key_holds(*k, held_in(old(out)@)),
        roomy(final(out)@),
    decreases *k, 0nat,
{
    match k {
        PropKey::Ident(s) => add_text(out, s),
        PropKey::Str(s) => add_shared(out, HeldKind::SharedText, Shared::Text(s)),
        PropKey::Num(_) => {},
        PropKey::Computed(e) => walk_expr(e, out),
    }
}

fn walk_prop_def<'a>(p: &'a PropDef, out: &mut Vec<Holding<'a>>)
    requires
        roomy(old(out)@),
    ensures
        held_in(final(out)@) == prop_def_holds(*p, held_in(old(out)@)),
        roomy(final(out)@),
    decreases *p, 0nat,
{
    match p {
        PropDef::KeyValue { key, value } => {
            walk_prop_key(key, out);
            walk_expr(value, out);
        },
        PropDef::Cover { key, value } => {
            walk_prop_key(key, out);
            walk_expr(value, out);
        },
        PropDef::Method { key, func } => {
            walk_prop_key(key, out);
            add_shared(out, HeldKind::SharedFunction, Shared::Function(func));
        },
        PropDef::Getter { key, func } => {
            walk_prop_key(key, out);
            add_shared(out, HeldKind::SharedFunction, Shared::Function(func));
        },
        PropDef::Setter { key, func } => {
            walk_prop_key(key, out);
            add_shared(out, HeldKind::SharedFunction, Shared::Function(func));
        },
        PropDef::Spread(e) => walk_expr(e, out),
        PropDef::Proto(e) => walk_expr(e, out),
    }
}

fn walk_prop_defs<'a>(v: &'a Vec<PropDef>, out: &mut Vec<Holding<'a>>)
    requires
        roomy(old(out)@),
    ensures
        held_in(final(out)@) == prop_defs_hold(*v, v.len() as nat, held_in(old(out)@)),
        roomy(final(out)@),
    decreases *v, v.len() as nat,
{
    let mut k: usize = 0;
    while k < v.len()
        invariant
            k <= v.len(),
            roomy(out@),
            held_in(out@) == prop_defs_hold(*v, k as nat, held_in(old(out)@)),
        decreases v.len() - k,
    {
        walk_prop_def(&v[k], out);
        k += 1;
    }
}

fn walk_pattern_elem<'a>(el: &'a ArrayPatElem, out: &mut Vec<Holding<'a>>)
    requires
        roomy(old(out)@),
    ensures
        held_in(final(out)@) == pattern_elem_holds(*el, held_in(old(out)@)),
        roomy(final(out)@),
    decreases *el, 0nat,
{
    match el {
        ArrayPatElem::Hole => {},
        ArrayPatElem::Elem { pattern, default } => {
            walk_pattern(pattern, out);
            walk_opt_expr(default, out);
        },
        ArrayPatElem::Rest(pattern) => walk_pattern(pattern, out),
    }
}

fn walk_pattern_elems<'a>(v: &'a Vec<ArrayPatElem>, out: &mut Vec<Holding<'a>>)
    requires
        roomy(old(out)@),
    ensures
        held_in(final(out)@) == pattern_elems_hold(*v, v.len() as nat, held_in(old(out)@)),
        roomy(final(out)@),
    decreases *v, v.len() as nat,
{
    let mut k: usize = 0;
    while k < v.len()
        invariant
            k <= v.len(),
            roomy(out@),
            held_in(out@) == pattern_elems_hold(*v, k as nat, held_in(old(out)@)),
        decreases v.len() - k,
    {
        walk_pattern_elem(&v[k], out);
        k += 1;
    }
}

fn walk_pattern_prop<'a>(p: &'a ObjPatProp, out: &mut Vec<Holding<'a>>)
    requires
        roomy(old(out)@),
    ensures
        held_in(final(out)@) == pattern_prop_holds(*p, held_in(old(out)@)),
        roomy(final(out)@),
    decreases *p, 0nat,
{
    walk_prop_key(&p.key, out);
    walk_pattern(&p.value, out);
    walk_opt_expr(&p.default, out);
}

fn walk_pattern_props<'a>(v: &'a Vec<ObjPatProp>, out: &mut Vec<Holding<'a>>)
    requires
        roomy(old(out)@),
    ensures
        held_in(final(out)@) == pattern_props_hold(*v, v.len() as nat, held_in(old(out)@)),
        roomy(final(out)@),
    decreases *v, v.len() as nat,
{
    let mut k: usize = 0;
    while k < v.len()
        invariant
            k <= v.len(),
            roomy(out@),
            held_in(out@) == pattern_props_hold(*v, k as nat, held_in(old(out)@)),
        decreases v.len() - k,
    {
        walk_pattern_prop(&v[k], out);
        k += 1;
    }
}

fn walk_pattern<'a>(p: &'a Pattern, out: &mut Vec<Holding<'a>>)
    requires
        roomy(old(out)@),
    ensures
        held_in(final(out)@) == pattern_holds(*p, held_in(old(out)@)),
        roomy(final(out)@),
    decreases *p, 0nat,
{
    match p {
        Pattern::Ident(s) => add_text(out, s),
        Pattern::Array(elems) => {
            add_buffer(out, HeldKind::PatternElems, elems);
            walk_pattern_elems(elems, out);
        },
        Pattern::Object(o) => {
            add_buffer(out, HeldKind::PatternProps, &o.props);
            walk_pattern_props(&o.props, out);
            add_opt_text(out, &o.rest);
        },
        Pattern::Member(e) => walk_boxed_expr(e, out),
    }
}

fn walk_decl<'a>(d: &'a (Pattern, Option<Expr>), out: &mut Vec<Holding<'a>>)
    requires
        roomy(old(out)@),
    ensures
        held_in(final(out)@) == decl_holds(*d, held_in(old(out)@)),
        roomy(final(out)@),
    decreases *d, 0nat,
{
    walk_pattern(&d.0, out);
    walk_opt_expr(&d.1, out);
}

fn walk_decls_each<'a>(v: &'a Vec<(Pattern, Option<Expr>)>, out: &mut Vec<Holding<'a>>)
    requires
        roomy(old(out)@),
    ensures
        held_in(final(out)@) == decls_each_hold(*v, v.len() as nat, held_in(old(out)@)),
        roomy(final(out)@),
    decreases *v, v.len() as nat,
{
    let mut k: usize = 0;
    while k < v.len()
        invariant
            k <= v.len(),
            roomy(out@),
            held_in(out@) == decls_each_hold(*v, k as nat, held_in(old(out)@)),
        decreases v.len() - k,
    {
        walk_decl(&v[k], out);
        k += 1;
    }
}

fn walk_decls<'a>(v: &'a Vec<(Pattern, Option<Expr>)>, out: &mut Vec<Holding<'a>>)
    requires
        roomy(old(out)@),
    ensures
        held_in(final(out)@) == decls_hold(*v, held_in(old(out)@)),
        roomy(final(out)@),
    decreases *v, v.len() + 1,
{
    add_buffer(out, HeldKind::Decls, v);
    walk_decls_each(v, out);
}

fn walk_stmts_each<'a>(v: &'a Vec<Stmt>, out: &mut Vec<Holding<'a>>)
    requires
        roomy(old(out)@),
    ensures
        held_in(final(out)@) == stmts_each_hold(*v, v.len() as nat, held_in(old(out)@)),
        roomy(final(out)@),
    decreases *v, v.len() as nat,
{
    let mut k: usize = 0;
    while k < v.len()
        invariant
            k <= v.len(),
            roomy(out@),
            held_in(out@) == stmts_each_hold(*v, k as nat, held_in(old(out)@)),
        decreases v.len() - k,
    {
        walk_stmt(&v[k], out);
        k += 1;
    }
}

fn walk_stmts<'a>(v: &'a Vec<Stmt>, out: &mut Vec<Holding<'a>>)
    requires
        roomy(old(out)@),
    ensures
        held_in(final(out)@) == stmts_hold(*v, held_in(old(out)@)),
        roomy(final(out)@),
    decreases *v, v.len() + 1,
{
    add_buffer(out, HeldKind::Stmts, v);
    walk_stmts_each(v, out);
}

fn walk_boxed_stmt<'a>(s: &'a Box<Stmt>, out: &mut Vec<Holding<'a>>)
    requires
        roomy(old(out)@),
    ensures
        held_in(final(out)@) == boxed_stmt_holds(*s, held_in(old(out)@)),
        roomy(final(out)@),
    decreases *s, 1nat,
{
    add_box(out, HeldKind::StmtBox);
    walk_stmt(&**s, out);
}

fn walk_opt_stmt<'a>(s: &'a Option<Box<Stmt>>, out: &mut Vec<Holding<'a>>)
    requires
        roomy(old(out)@),
    ensures
        held_in(final(out)@) == opt_stmt_holds(*s, held_in(old(out)@)),
        roomy(final(out)@),
    decreases *s, 0nat,
{
    if let Some(s) = s {
        walk_boxed_stmt(s, out);
    }
}

fn walk_for_init<'a>(i: &'a ForInit, out: &mut Vec<Holding<'a>>)
    requires
        roomy(old(out)@),
    ensures
        held_in(final(out)@) == for_init_holds(*i, held_in(old(out)@)),
        roomy(final(out)@),
    decreases *i, 0nat,
{
    match i {
        ForInit::VarDecl { kind: _, decls } => walk_decls(decls, out),
        ForInit::Expr(e) => walk_expr(e, out),
    }
}

fn walk_opt_for_init<'a>(i: &'a Option<Box<ForInit>>, out: &mut Vec<Holding<'a>>)
    requires
        roomy(old(out)@),
    ensures
        held_in(final(out)@) == opt_for_init_holds(*i, held_in(old(out)@)),
        roomy(final(out)@),
    decreases *i, 0nat,
{
    if let Some(i) = i {
        add_box(out, HeldKind::ForInitBox);
        walk_for_init(&**i, out);
    }
}

fn walk_opt_pattern<'a>(p: &'a Option<Pattern>, out: &mut Vec<Holding<'a>>)
    requires
        roomy(old(out)@),
    ensures
        held_in(final(out)@) == opt_pattern_holds(*p, held_in(old(out)@)),
        roomy(final(out)@),
    decreases *p, 0nat,
{
    if let Some(p) = p {
        walk_pattern(p, out);
    }
}

fn walk_handler<'a>(h: &'a Option<(Option<Pattern>, Vec<Stmt>)>, out: &mut Vec<Holding<'a>>)
    requires
        roomy(old(out)@),
    ensures
        held_in(final(out)@) == handler_holds(*h, held_in(old(out)@)),
        roomy(final(out)@),
    decreases *h, 0nat,
{
    if let Some(h) = h {
        walk_opt_pattern(&h.0, out);
        walk_stmts(&h.1, out);
    }
}

fn walk_opt_stmts<'a>(b: &'a Option<Vec<Stmt>>, out: &mut Vec<Holding<'a>>)
    requires
        roomy(old(out)@),
    ensures
        held_in(final(out)@) == opt_stmts_hold(*b, held_in(old(out)@)),
        roomy(final(out)@),
    decreases *b, 0nat,
{
    if let Some(b) = b {
        walk_stmts(b, out);
    }
}

fn walk_case<'a>(c: &'a SwitchCase, out: &mut Vec<Holding<'a>>)
    requires
        roomy(old(out)@),
    ensures
        held_in(final(out)@) == case_holds(*c, held_in(old(out)@)),
        roomy(final(out)@),
    decreases *c, 0nat,
{
    walk_opt_expr(&c.test, out);
    walk_stmts(&c.body, out);
}

fn walk_cases<'a>(v: &'a Vec<SwitchCase>, out: &mut Vec<Holding<'a>>)
    requires
        roomy(old(out)@),
    ensures
        held_in(final(out)@) == cases_hold(*v, v.len() as nat, held_in(old(out)@)),
        roomy(final(out)@),
    decreases *v, v.len() as nat,
{
    let mut k: usize = 0;
    while k < v.len()
        invariant
            k <= v.len(),
            roomy(out@),
            held_in(out@) == cases_hold(*v, k as nat, held_in(old(out)@)),
        decreases v.len() - k,
    {
        walk_case(&v[k], out);
        k += 1;
    }
}

fn walk_import_spec<'a>(s: &'a ImportSpec, out: &mut Vec<Holding<'a>>)
    requires
        roomy(old(out)@),
    ensures
        held_in(final(out)@) == import_spec_holds(*s, held_in(old(out)@)),
        roomy(final(out)@),
{
    match s {
        ImportSpec::Default(l) => add_text(out, l),
        ImportSpec::Namespace(l) => add_text(out, l),
        ImportSpec::DeferNamespace(l) => add_text(out, l),
        ImportSpec::Source(l) => add_text(out, l),
        ImportSpec::Named { imported, local } => {
            add_text(out, imported);
            add_text(out, local);
        },
    }
}

fn walk_import<'a>(i: &'a ImportDecl, out: &mut Vec<Holding<'a>>)
    requires
        roomy(old(out)@),
    ensures
        held_in(final(out)@) == import_holds(*i, held_in(old(out)@)),
        roomy(final(out)@),
{
    add_shared(out, HeldKind::SharedText, Shared::Text(&i.source));
    add_buffer(out, HeldKind::ImportSpecs, &i.specs);
    let ghost acc = held_in(out@);
    let mut k: usize = 0;
    while k < i.specs.len()
        invariant
            k <= i.specs.len(),
            roomy(out@),
            held_in(out@) == import_specs_hold(i.specs, k as nat, acc),
        decreases i.specs.len() - k,
    {
        walk_import_spec(&i.specs[k], out);
        k += 1;
    }
    add_opt_text(out, &i.attr_type);
}

fn walk_export_specs<'a>(v: &'a Vec<ExportSpec>, out: &mut Vec<Holding<'a>>)
    requires
        roomy(old(out)@),
    ensures
        held_in(final(out)@) == export_specs_hold(*v, v.len() as nat, held_in(old(out)@)),
        roomy(final(out)@),
{
    let mut k: usize = 0;
    while k < v.len()
        invariant
            k <= v.len(),
            roomy(out@),
            held_in(out@) == export_specs_hold(*v, k as nat, held_in(old(out)@)),
        decreases v.len() - k,
    {
        add_text(out, &v[k].local);
        add_text(out, &v[k].exported);
        k += 1;
    }
}

fn walk_stmt<'a>(s: &'a Stmt, out: &mut Vec<Holding<'a>>)
    requires
        roomy(old(out)@),
    ensures
        held_in(final(out)@) == stmt_holds(*s, held_in(old(out)@)),
        roomy(final(out)@),
    decreases *s, 0nat,
{
    match s {
        Stmt::Expr(e) => walk_expr(e, out),
        Stmt::Throw(e) => walk_expr(e, out),
        Stmt::VarDecl { kind: _, decls } => walk_decls(decls, out),
        Stmt::FuncDecl(f) => add_shared(out, HeldKind::SharedFunction, Shared::Function(f)),
        Stmt::Return(e) => walk_opt_expr(e, out),
        Stmt::If { test, cons, alt } => {
            walk_expr(test, out);
            walk_boxed_stmt(cons, out);
            walk_opt_stmt(alt, out);
        },
        Stmt::Block(b) => walk_stmts(b, out),
        Stmt::While { test, body } => {
            walk_expr(test, out);
            walk_boxed_stmt(body, out);
        },
        Stmt::DoWhile { body, test } => {
            walk_boxed_stmt(body, out);
            walk_expr(test, out);
        },
        Stmt::For { init, test, update, body } => {
            walk_opt_for_init(init, out);
            walk_opt_expr(test, out);
            walk_opt_expr(update, out);
            walk_boxed_stmt(body, out);
        },
        Stmt::ForInOf { decl: _, left, right, of: _, is_await: _, body } => {
            walk_pattern(left, out);
            walk_expr(right, out);
            walk_boxed_stmt(body, out);
        },
        Stmt::Break(l) => add_opt_text(out, l),
        Stmt::Continue(l) => add_opt_text(out, l),
        Stmt::Try { block, handler, finalizer } => {
            walk_stmts(block, out);
            walk_handler(handler, out);
            walk_opt_stmts(finalizer, out);
        },
        Stmt::Switch { disc, cases } => {
            walk_expr(disc, out);
            add_buffer(out, HeldKind::Cases, cases);
            walk_cases(cases, out);
        },
        Stmt::Labeled { label, body } => {
            add_text(out, label);
            walk_boxed_stmt(body, out);
        },
        Stmt::With { obj, body } => {
            walk_expr(obj, out);
            walk_boxed_stmt(body, out);
        },
        Stmt::ClassDecl(c) => add_shared(out, HeldKind::SharedClass, Shared::Class(c)),
        Stmt::Empty => {},
        Stmt::Debugger => {},
        Stmt::Import(i) => walk_import(i, out),
        Stmt::ExportNamed { specs, source } => {
            add_buffer(out, HeldKind::ExportSpecs, specs);
            walk_export_specs(specs, out);
            add_opt_shared(out, source);
        },
        Stmt::ExportDecl(inner) => walk_boxed_stmt(inner, out),
        Stmt::ExportDefault(inner) => walk_boxed_stmt(inner, out),
        Stmt::ExportAll { source, exported } => {
            add_shared(out, HeldKind::SharedText, Shared::Text(source));
            add_opt_text(out, exported);
        },
    }
}

fn walk_member<'a>(m: &'a ClassMember, out: &mut Vec<Holding<'a>>)
    requires
        roomy(old(out)@),
    ensures
        held_in(final(out)@) == member_holds(*m, held_in(old(out)@)),
        roomy(final(out)@),
{
    walk_prop_key(&m.key, out);
    if let Some(f) = &m.func {
        add_shared(out, HeldKind::SharedFunction, Shared::Function(f));
    }
    walk_opt_expr(&m.value, out);
    add_buffer(out, HeldKind::Exprs, &m.decorators);
    walk_exprs(&m.decorators, out);
}

fn walk_class<'a>(c: &'a Class, out: &mut Vec<Holding<'a>>)
    requires
        roomy(old(out)@),
    ensures
        held_in(final(out)@) == class_holds(*c, held_in(old(out)@)),
        roomy(final(out)@),
{
    add_opt_text(out, &c.name);
    walk_opt_boxed(&c.superclass, out);
    add_buffer(out, HeldKind::Members, &c.members);
    let ghost acc = held_in(out@);
    let mut k: usize = 0;
    while k < c.members.len()
        invariant
            k <= c.members.len(),
            roomy(out@),
            held_in(out@) == members_hold(c.members, k as nat, acc),
        decreases c.members.len() - k,
    {
        walk_member(&c.members[k], out);
        k += 1;
    }
    add_buffer(out, HeldKind::Exprs, &c.decorators);
    walk_exprs(&c.decorators, out);
    add_opt_shared(out, &c.source);
}

fn walk_param<'a>(p: &'a Param, out: &mut Vec<Holding<'a>>)
    requires
        roomy(old(out)@),
    ensures
        held_in(final(out)@) == param_holds(*p, held_in(old(out)@)),
        roomy(final(out)@),
{
    walk_pattern(&p.pattern, out);
    walk_opt_expr(&p.default, out);
}

fn walk_function<'a>(f: &'a Function, out: &mut Vec<Holding<'a>>)
    requires
        roomy(old(out)@),
    ensures
        held_in(final(out)@) == function_holds(*f, held_in(old(out)@)),
        roomy(final(out)@),
{
    add_opt_text(out, &f.name);
    add_buffer(out, HeldKind::Params, &f.params);
    let ghost acc = held_in(out@);
    let mut k: usize = 0;
    while k < f.params.len()
        invariant
            k <= f.params.len(),
            roomy(out@),
            held_in(out@) == params_hold(f.params, k as nat, acc),
        decreases f.params.len() - k,
    {
        walk_param(&f.params[k], out);
        k += 1;
    }
    walk_stmts(&f.body, out);
    add_opt_shared(out, &f.source);
}

// Sizes

/// The size of an element of a buffer. What is shared counts where it is owned.
pub open spec fn element_size(k: HeldKind) -> nat {
    match k {
        HeldKind::Text => 1,
        HeldKind::StmtBox => size_of::<Stmt>(),
        HeldKind::ExprBox => size_of::<Expr>(),
        HeldKind::ForInitBox => size_of::<ForInit>(),
        HeldKind::Stmts => size_of::<Stmt>(),
        HeldKind::Decls => size_of::<(Pattern, Option<Expr>)>(),
        HeldKind::Cases => size_of::<SwitchCase>(),
        HeldKind::ImportSpecs => size_of::<ImportSpec>(),
        HeldKind::ExportSpecs => size_of::<ExportSpec>(),
        HeldKind::PatternElems => size_of::<ArrayPatElem>(),
        HeldKind::PatternProps => size_of::<ObjPatProp>(),
        HeldKind::Elems => size_of::<ArrayElem>(),
        HeldKind::PropDefs => size_of::<PropDef>(),
        HeldKind::Exprs => size_of::<Expr>(),
        HeldKind::Quasis => size_of::<(Option<String>, String)>(),
        HeldKind::Members => size_of::<ClassMember>(),
        HeldKind::Params => size_of::<Param>(),
        HeldKind::SharedText => 0,
        HeldKind::SharedBigInt => 0,
        HeldKind::SharedFunction => 0,
        HeldKind::SharedClass => 0,
    }
}

fn size_of_element(k: HeldKind) -> (r: usize)
    ensures
        r == element_size(k),
{
    match k {
        HeldKind::Text => 1,
        HeldKind::StmtBox => core::mem::size_of::<Stmt>(),
        HeldKind::ExprBox => core::mem::size_of::<Expr>(),
        HeldKind::ForInitBox => core::mem::size_of::<ForInit>(),
        HeldKind::Stmts => core::mem::size_of::<Stmt>(),
        HeldKind::Decls => core::mem::size_of::<(Pattern, Option<Expr>)>(),
        HeldKind::Cases => core::mem::size_of::<SwitchCase>(),
        HeldKind::ImportSpecs => core::mem::size_of::<ImportSpec>(),
        HeldKind::ExportSpecs => core::mem::size_of::<ExportSpec>(),
        HeldKind::PatternElems => core::mem::size_of::<ArrayPatElem>(),
        HeldKind::PatternProps => core::mem::size_of::<ObjPatProp>(),
        HeldKind::Elems => core::mem::size_of::<ArrayElem>(),
        HeldKind::PropDefs => core::mem::size_of::<PropDef>(),
        HeldKind::Exprs => core::mem::size_of::<Expr>(),
        HeldKind::Quasis => core::mem::size_of::<(Option<String>, String)>(),
        HeldKind::Members => core::mem::size_of::<ClassMember>(),
        HeldKind::Params => core::mem::size_of::<Param>(),
        HeldKind::SharedText => 0,
        HeldKind::SharedBigInt => 0,
        HeldKind::SharedFunction => 0,
        HeldKind::SharedClass => 0,
    }
}

/// The bytes of the first `n` holdings.
pub open spec fn bytes_of(h: Seq<Holding>, n: int) -> nat
    decreases n,
{
    if n <= 0 || n > h.len() {
        0
    } else {
        bytes_of(h, n - 1) + h[n - 1].capacity as nat * element_size(h[n - 1].kind)
    }
}

/// A count held at the largest `usize`.
pub open spec fn saturated(n: int) -> int {
    if n > usize::MAX {
        usize::MAX as int
    } else {
        n
    }
}

/// The bytes of the holdings and a base, held at the largest `usize`.
pub fn retained_bytes(base: usize, h: &Vec<Holding>) -> (r: usize)
    ensures
        r == saturated(base + bytes_of(h@, h@.len() as int)),
{
    let mut total: usize = base;
    let mut k: usize = 0;
    while k < h.len()
        invariant
            k <= h@.len(),
            total == saturated(base + bytes_of(h@, k as int)),
        decreases h@.len() - k,
    {
        let size: usize = size_of_element(h[k].kind);
        let room: usize = h[k].capacity;
        proof {
            assert(room as nat * size as nat >= 0) by (nonlinear_arith);
            assert(room * size == room as nat * size as nat);
        }
        total = match room.checked_mul(size) {
            Some(b) => match total.checked_add(b) {
                Some(t) => t,
                None => usize::MAX,
            },
            None => usize::MAX,
        };
        k += 1;
    }
    total
}

/// Scan one Function allocation and every AST allocation it owns. Shared Functions and Classes are
/// listed, not descended into, so that shared subgraphs are never attributed according to discovery
/// order.
pub fn scan_function_retained_memory<'a>(f: &'a Function) -> (r: (usize, Vec<Holding<'a>>))
    ensures
        held_in(r.1@) == function_holds(*f, Seq::empty()),
        roomy(r.1@),
        r.0 == saturated((size_of::<Function>() + bytes_of(r.1@, r.1@.len() as int)) as int),
{
    let mut out: Vec<Holding> = Vec::new();
    assert(held_in(out@) =~= Seq::<Held>::empty());
    walk_function(f, &mut out);
    let n: usize = retained_bytes(core::mem::size_of::<Function>(), &out);
    (n, out)
}

/// Scan one Class allocation and its recursively-owned AST storage.
pub fn scan_class_retained_memory<'a>(c: &'a Class) -> (r: (usize, Vec<Holding<'a>>))
    ensures
        held_in(r.1@) == class_holds(*c, Seq::empty()),
        roomy(r.1@),
        r.0 == saturated((size_of::<Class>() + bytes_of(r.1@, r.1@.len() as int)) as int),
{
    let mut out: Vec<Holding> = Vec::new();
    assert(held_in(out@) =~= Seq::<Held>::empty());
    walk_class(c, &mut out);
    let n: usize = retained_bytes(core::mem::size_of::<Class>(), &out);
    (n, out)
}

/// Scan allocations recursively owned by an Expr whose enum body is stored inline by its caller.
pub fn scan_expr_retained_memory<'a>(e: &'a Expr) -> (r: (usize, Vec<Holding<'a>>))
    ensures
        held_in(r.1@) == expr_holds(*e, Seq::empty()),
        roomy(r.1@),
        r.0 == saturated(bytes_of(r.1@, r.1@.len() as int) as int),
{
    let mut out: Vec<Holding> = Vec::new();
    assert(held_in(out@) =~= Seq::<Held>::empty());
    walk_expr(e, &mut out);
    let n: usize = retained_bytes(0, &out);
    (n, out)
}

/// Scan a statement list whose Vec header and element buffer are not part of a Function body
/// allocation.
pub fn scan_stmt_body_retained_memory<'a>(body: &'a Vec<Stmt>) -> (r: (usize, Vec<Holding<'a>>))
    ensures
        held_in(r.1@) == stmts_hold(*body, Seq::empty()),
        roomy(r.1@),
        r.0 == saturated((size_of::<Vec<Stmt>>() + bytes_of(r.1@, r.1@.len() as int)) as int),
{
    let mut out: Vec<Holding> = Vec::new();
    assert(held_in(out@) =~= Seq::<Held>::empty());
    walk_stmts(body, &mut out);
    let n: usize = retained_bytes(core::mem::size_of::<Vec<Stmt>>(), &out);
    (n, out)
}

/// More holdings never take less room.
pub proof fn law_bytes_grow(h: Seq<Holding>, m: int, n: int)
    requires
        0 <= m <= n <= h.len(),
    ensures
        bytes_of(h, m) <= bytes_of(h, n),
    decreases n - m,
{
    if m < n {
        law_bytes_grow(h, m, n - 1);
        assert(h[n - 1].capacity as nat * element_size(h[n - 1].kind) >= 0)
            by (nonlinear_arith);
    }
}

// Holdings are sums

proof fn lemma_with_item(pre: Seq<Held>, acc: Seq<Held>, kind: HeldKind, shared: SharedItem)
    ensures
        with_item(pre + acc, kind, shared) == pre + with_item(acc, kind, shared),
{
    assert(with_item(pre + acc, kind, shared) =~= pre + with_item(acc, kind, shared));
}

proof fn lemma_with_buffer(pre: Seq<Held>, acc: Seq<Held>, kind: HeldKind, len: nat)
    ensures
        with_buffer(pre + acc, kind, len) == pre + with_buffer(acc, kind, len),
{
    assert(with_buffer(pre + acc, kind, len) =~= pre + with_buffer(acc, kind, len));
}

proof fn lemma_expr_holds(x: Expr, pre: Seq<Held>, acc: Seq<Held>)
    ensures
        expr_holds(x, pre + acc) == pre + expr_holds(x, acc),
    decreases x, 0nat,
{
    match x {
        Expr::Paren(e) => lemma_boxed_expr_holds(e, pre, acc),
        Expr::ToStr(e) => lemma_boxed_expr_holds(e, pre, acc),
        Expr::Await(e) => lemma_boxed_expr_holds(e, pre, acc),
        Expr::OptionalChain(e) => lemma_boxed_expr_holds(e, pre, acc),
        Expr::Num(_) => {},
        Expr::Bool(_) => {},
        Expr::Null => {},
        Expr::Undefined => {},
        Expr::This => {},
        Expr::Super => {},
        Expr::ImportMeta => {},
        Expr::NewTarget => {},
        Expr::BigInt(s) => lemma_with_item(
            pre,
            acc,
            HeldKind::SharedBigInt,
            SharedItem::BigInt(s@),
        ),
        Expr::Str(s) => lemma_with_item(pre, acc, HeldKind::SharedText, SharedItem::Text(s@)),
        Expr::Ident(s) => lemma_with_buffer(pre, acc, HeldKind::Text, s@.len()),
        Expr::Regex { body, flags } => {
            lemma_with_item(pre, acc, HeldKind::SharedText, SharedItem::Text(body@));
            lemma_with_item(
                pre,
                with_shared(acc, body@),
                HeldKind::SharedText,
                SharedItem::Text(flags@),
            );
        },
        Expr::Array(elems) => {
            let n = elems.len() as nat;
            lemma_with_buffer(pre, acc, HeldKind::Elems, n);
            lemma_elems_hold(elems, n, pre, with_buffer(acc, HeldKind::Elems, n));
        },
        Expr::Object(props) => {
            let n = props.len() as nat;
            lemma_with_buffer(pre, acc, HeldKind::PropDefs, n);
            lemma_prop_defs_hold(props, n, pre, with_buffer(acc, HeldKind::PropDefs, n));
        },
        Expr::Func(f) => lemma_with_item(
            pre,
            acc,
            HeldKind::SharedFunction,
            SharedItem::Function(f),
        ),
        Expr::Class(c) => lemma_with_item(pre, acc, HeldKind::SharedClass, SharedItem::Class(c)),
        Expr::Yield { delegate: _, arg } => lemma_opt_boxed_holds(arg, pre, acc),
        Expr::Unary { op: _, arg } => lemma_boxed_expr_holds(arg, pre, acc),
        Expr::Update { op: _, prefix: _, arg } => lemma_boxed_expr_holds(arg, pre, acc),
        Expr::Binary { op: _, left, right } => {
            lemma_boxed_expr_holds(left, pre, acc);
            lemma_boxed_expr_holds(right, pre, boxed_expr_holds(left, acc));
        },
        Expr::Logical { op: _, left, right } => {
            lemma_boxed_expr_holds(left, pre, acc);
            lemma_boxed_expr_holds(right, pre, boxed_expr_holds(left, acc));
        },
        Expr::Assign { op: _, target, value } => {
            lemma_boxed_expr_holds(target, pre, acc);
            lemma_boxed_expr_holds(value, pre, boxed_expr_holds(target, acc));
        },
        Expr::Cond { test, cons, alt } => {
            lemma_boxed_expr_holds(test, pre, acc);
            lemma_boxed_expr_holds(cons, pre, boxed_expr_holds(test, acc));
            lemma_boxed_expr_holds(alt, pre, boxed_expr_holds(cons, boxed_expr_holds(test, acc)));
        },
        Expr::Call { callee, args, optional: _ } => {
            let n = args.len() as nat;
            let a = boxed_expr_holds(callee, acc);
            lemma_boxed_expr_holds(callee, pre, acc);
            lemma_with_buffer(pre, a, HeldKind::Elems, n);
            lemma_elems_hold(args, n, pre, with_buffer(a, HeldKind::Elems, n));
        },
        Expr::New { callee, args } => {
            let n = args.len() as nat;
            let a = boxed_expr_holds(callee, acc);
            lemma_boxed_expr_holds(callee, pre, acc);
            lemma_with_buffer(pre, a, HeldKind::Elems, n);
            lemma_elems_hold(args, n, pre, with_buffer(a, HeldKind::Elems, n));
        },
        Expr::Member { obj, prop, optional: _ } => {
            lemma_boxed_expr_holds(obj, pre, acc);
            lemma_with_buffer(pre, boxed_expr_holds(obj, acc), HeldKind::Text, prop@.len());
        },
        Expr::Index { obj, index, optional: _ } => {
            lemma_boxed_expr_holds(obj, pre, acc);
            lemma_boxed_expr_holds(index, pre, boxed_expr_holds(obj, acc));
        },
        Expr::Sequence(exprs) => {
            let n = exprs.len() as nat;
            lemma_with_buffer(pre, acc, HeldKind::Exprs, n);
            lemma_exprs_hold(exprs, n, pre, with_buffer(acc, HeldKind::Exprs, n));
        },
        Expr::TaggedTemplate { tag, site: _, quasis, subs } => {
            let q = quasis.len() as nat;
            let n = subs.len() as nat;
            let a = boxed_expr_holds(tag, acc);
            let b = quasis_hold(quasis, q, with_buffer(a, HeldKind::Quasis, q));
            lemma_boxed_expr_holds(tag, pre, acc);
            lemma_with_buffer(pre, a, HeldKind::Quasis, q);
            lemma_quasis_hold(quasis, q, pre, with_buffer(a, HeldKind::Quasis, q));
            lemma_with_buffer(pre, b, HeldKind::Exprs, n);
            lemma_exprs_hold(subs, n, pre, with_buffer(b, HeldKind::Exprs, n));
        },
        Expr::PrivateIn { name, obj } => {
            lemma_with_buffer(pre, acc, HeldKind::Text, name@.len());
            lemma_boxed_expr_holds(obj, pre, with_text(acc, name@));
        },
        Expr::ImportCall { spec, phase: _, options } => {
            lemma_boxed_expr_holds(spec, pre, acc);
            lemma_opt_boxed_holds(options, pre, boxed_expr_holds(spec, acc));
        },
    }
}

proof fn lemma_boxed_expr_holds(x: Box<Expr>, pre: Seq<Held>, acc: Seq<Held>)
    ensures
        boxed_expr_holds(x, pre + acc) == pre + boxed_expr_holds(x, acc),
    decreases x, 1nat,
{
    lemma_with_buffer(pre, acc, HeldKind::ExprBox, 1);
    lemma_expr_holds(*x, pre, with_buffer(acc, HeldKind::ExprBox, 1));
}

proof fn lemma_opt_boxed_holds(x: Option<Box<Expr>>, pre: Seq<Held>, acc: Seq<Held>)
    ensures
        opt_boxed_holds(x, pre + acc) == pre + opt_boxed_holds(x, acc),
    decreases x, 0nat,
{
    if let Some(e) = x {
        lemma_boxed_expr_holds(e, pre, acc);
    }
}

proof fn lemma_exprs_hold(v: Vec<Expr>, n: nat, pre: Seq<Held>, acc: Seq<Held>)
    ensures
        exprs_hold(v, n, pre + acc) == pre + exprs_hold(v, n, acc),
    decreases v, n,
{
    if n > 0 && n <= v.len() {
        lemma_exprs_hold(v, (n - 1) as nat, pre, acc);
        lemma_expr_holds(v[n - 1], pre, exprs_hold(v, (n - 1) as nat, acc));
    }
}

proof fn lemma_elem_holds(x: ArrayElem, pre: Seq<Held>, acc: Seq<Held>)
    ensures
        elem_holds(x, pre + acc) == pre + elem_holds(x, acc),
    decreases x, 0nat,
{
    match x {
        ArrayElem::Item(e) => lemma_expr_holds(e, pre, acc),
        ArrayElem::Spread(e) => lemma_expr_holds(e, pre, acc),
        ArrayElem::Hole => {},
    }
}

proof fn lemma_elems_hold(v: Vec<ArrayElem>, n: nat, pre: Seq<Held>, acc: Seq<Held>)
    ensures
        elems_hold(v, n, pre + acc) == pre + elems_hold(v, n, acc),
    decreases v, n,
{
    if n > 0 && n <= v.len() {
        lemma_elems_hold(v, (n - 1) as nat, pre, acc);
        lemma_elem_holds(v[n - 1], pre, elems_hold(v, (n - 1) as nat, acc));
    }
}

proof fn lemma_quasis_hold(v: Vec<(Option<String>, String)>, n: nat, pre: Seq<Held>, acc: Seq<Held>)
    ensures
        quasis_hold(v, n, pre + acc) == pre + quasis_hold(v, n, acc),
    decreases n,
{
    if n > 0 && n <= v.len() {
        let a = quasis_hold(v, (n - 1) as nat, acc);
        lemma_quasis_hold(v, (n - 1) as nat, pre, acc);
        if let Some(s) = v[n - 1].0 {
            lemma_with_buffer(pre, a, HeldKind::Text, s@.len());
        }
        lemma_with_buffer(
            pre,
            with_opt_text(a, v[n - 1].0),
            HeldKind::Text,
            v[n - 1].1@.len(),
        );
    }
}

proof fn lemma_prop_key_holds(x: PropKey, pre: Seq<Held>, acc: Seq<Held>)
    ensures
        prop_key_holds(x, pre + acc) == pre + prop_key_holds(x, acc),
    decreases x, 0nat,
{
    match x {
        PropKey::Ident(s) => lemma_with_buffer(pre, acc, HeldKind::Text, s@.len()),
        PropKey::Str(s) => lemma_with_item(pre, acc, HeldKind::SharedText, SharedItem::Text(s@)),
        PropKey::Num(_) => {},
        PropKey::Computed(e) => lemma_expr_holds(e, pre, acc),
    }
}

proof fn lemma_prop_def_holds(x: PropDef, pre: Seq<Held>, acc: Seq<Held>)
    ensures
        prop_def_holds(x, pre + acc) == pre + prop_def_holds(x, acc),
    decreases x, 0nat,
{
    match x {
        PropDef::KeyValue { key, value } => {
            lemma_prop_key_holds(key, pre, acc);
            lemma_expr_holds(value, pre, prop_key_holds(key, acc));
        },
        PropDef::Cover { key, value } => {
            lemma_prop_key_holds(key, pre, acc);
            lemma_expr_holds(value, pre, prop_key_holds(key, acc));
        },
        PropDef::Method { key, func } => {
            lemma_prop_key_holds(key, pre, acc);
            lemma_with_item(
                pre,
                prop_key_holds(key, acc),
                HeldKind::SharedFunction,
                SharedItem::Function(func),
            );
        },
        PropDef::Getter { key, func } => {
            lemma_prop_key_holds(key, pre, acc);
            lemma_with_item(
                pre,
                prop_key_holds(key, acc),
                HeldKind::SharedFunction,
                SharedItem::Function(func),
            );
        },
        PropDef::Setter { key, func } => {
            lemma_prop_key_holds(key, pre, acc);
            lemma_with_item(
                pre,
                prop_key_holds(key, acc),
                HeldKind::SharedFunction,
                SharedItem::Function(func),
            );
        },
        PropDef::Spread(e) => lemma_expr_holds(e, pre, acc),
        PropDef::Proto(e) => lemma_expr_holds(e, pre, acc),
    }
}

proof fn lemma_prop_defs_hold(v: Vec<PropDef>, n: nat, pre: Seq<Held>, acc: Seq<Held>)
    ensures
        prop_defs_hold(v, n, pre + acc) == pre + prop_defs_hold(v, n, acc),
    decreases v, n,
{
    if n > 0 && n <= v.len() {
        lemma_prop_defs_hold(v, (n - 1) as nat, pre, acc);
        lemma_prop_def_holds(v[n - 1], pre, prop_defs_hold(v, (n - 1) as nat, acc));
    }
}

proof fn lemma_bytes_add(a: Seq<Holding>, b: Seq<Holding>, n: int)
    requires
        0 <= n <= b.len(),
    ensures
        bytes_of(a + b, a.len() + n) == bytes_of(a, a.len() as int) + bytes_of(b, n),
    decreases n,
{
    if n > 0 {
        lemma_bytes_add(a, b, n - 1);
        assert((a + b)[a.len() + n - 1] == b[n - 1]);
    } else {
        lemma_bytes_prefix(a, b, a.len() as int);
    }
}

proof fn lemma_bytes_prefix(a: Seq<Holding>, b: Seq<Holding>, n: int)
    requires
        0 <= n <= a.len(),
    ensures
        bytes_of(a + b, n) == bytes_of(a, n),
    decreases n,
{
    if n > 0 {
        lemma_bytes_prefix(a, b, n - 1);
        assert((a + b)[n - 1] == a[n - 1]);
    }
}

/// What an expression retains behind a box: the bytes of the box, and its own.
proof fn lemma_box_bytes(h: Seq<Holding>, e: Expr)
    requires
        roomy(h),
        held_in(h) == seq![Held { kind: HeldKind::ExprBox, len: 1, shared: SharedItem::Absent }] + expr_holds(e, Seq::empty()),
    ensures
        h.len() > 0,
        held_in(h.skip(1)) == expr_holds(e, Seq::empty()),
        bytes_of(h, h.len() as int) == size_of::<Expr>() + bytes_of(h.skip(1), h.len() - 1),
{
    let first = seq![Held { kind: HeldKind::ExprBox, len: 1, shared: SharedItem::Absent }];
    assert(held_in(h).len() == h.len());
    assert(held_in(h)[0] == h[0].held());
    assert(held_in(h.skip(1)) =~= held_in(h).skip(1));
    assert(held_in(h).skip(1) =~= expr_holds(e, Seq::empty()));
    let front = h.take(1);
    assert(h =~= front + h.skip(1));
    lemma_bytes_add(front, h.skip(1), h.len() - 1);
    assert(front[0] == h[0]);
    assert(bytes_of(front, 0) == 0);
    assert(bytes_of(front, 1) == front[0].capacity as nat * element_size(HeldKind::ExprBox));
    assert(1 * element_size(HeldKind::ExprBox) == element_size(HeldKind::ExprBox))
        by (nonlinear_arith);
}

/// A node with two sides retains two boxes and what its sides retain: the first holdings are those
/// of the left side, and the rest those of the right side.
pub proof fn law_sides_add_up(h: Seq<Holding>, e: Expr, left: Box<Expr>, right: Box<Expr>) -> (n: int)
    requires
        roomy(h),
        held_in(h) == expr_holds(e, Seq::empty()),
        e matches Expr::Binary { op: _, left: l, right: r } ==> l == left && r == right,
        e is Binary,
    ensures
        1 <= n < h.len(),
        held_in(h.subrange(1, n)) == expr_holds(*left, Seq::empty()),
        held_in(h.skip(n + 1)) == expr_holds(*right, Seq::empty()),
        bytes_of(h, h.len() as int) == 2 * size_of::<Expr>() + bytes_of(h.subrange(1, n), n - 1)
            + bytes_of(h.skip(n + 1), h.len() - n - 1),
{
    let boxed = Held { kind: HeldKind::ExprBox, len: 1, shared: SharedItem::Absent };
    let none = Seq::<Held>::empty();
    let l = expr_holds(*left, none);
    let r = expr_holds(*right, none);
    assert(none.push(boxed) =~= seq![boxed] + none);
    lemma_expr_holds(*left, seq![boxed], none);
    let a = seq![boxed] + l;
    assert(boxed_expr_holds(left, none) == a);
    assert(a.push(boxed) =~= (a + seq![boxed]) + none);
    lemma_expr_holds(*right, a + seq![boxed], none);
    assert(held_in(h) =~= a + (seq![boxed] + r));
    let n = a.len() as int;
    assert(held_in(h).len() == h.len());
    let front = h.take(n);
    let back = h.skip(n);
    assert(held_in(front) =~= held_in(h).take(n));
    assert(held_in(h).take(n) =~= a);
    assert(held_in(back) =~= held_in(h).skip(n));
    assert(held_in(h).skip(n) =~= seq![boxed] + r);
    assert forall|j: int| 0 <= j < front.len() implies (#[trigger] front[j]).capacity
        >= front[j].len && (single(front[j].kind) ==> front[j].capacity
        == front[j].len) by {
        assert(front[j] == h[j]);
    }
    assert forall|j: int| 0 <= j < back.len() implies (#[trigger] back[j]).capacity
        >= back[j].len && (single(back[j].kind) ==> back[j].capacity
        == back[j].len) by {
        assert(back[j] == h[j + n]);
    }
    lemma_box_bytes(front, *left);
    lemma_box_bytes(back, *right);
    assert(h =~= front + back);
    lemma_bytes_add(front, back, back.len() as int);
    assert(front.skip(1) =~= h.subrange(1, n));
    assert(back.skip(1) =~= h.skip(n + 1));
    n
}

/// A leaf retains nothing of its own, and a function or class is handed on: it and no other, once,
/// without bytes.
pub proof fn law_leaves_retain_nothing(e: Expr)
    ensures
        (e is Num || e is Bool || e is Null || e is Undefined || e is This || e is Super
            || e is ImportMeta || e is NewTarget) ==> expr_holds(e, Seq::empty()) == Seq::<
            Held,
        >::empty(),
        e matches Expr::Func(f) ==> expr_holds(e, Seq::empty()) == seq![
            Held {
                kind: HeldKind::SharedFunction,
                len: 1,
                shared: SharedItem::Function(f),
            },
        ],
        e matches Expr::Class(c) ==> expr_holds(e, Seq::empty()) == seq![
            Held { kind: HeldKind::SharedClass, len: 1, shared: SharedItem::Class(c) },
        ],
        element_size(HeldKind::SharedFunction) == 0,
        element_size(HeldKind::SharedClass) == 0,
{
    let none = Seq::<Held>::empty();
    if let Expr::Func(f) = e {
        let h = Held {
            kind: HeldKind::SharedFunction,
            len: 1,
            shared: SharedItem::Function(f),
        };
        assert(none.push(h) =~= seq![h]);
    }
    if let Expr::Class(c) = e {
        let h = Held { kind: HeldKind::SharedClass, len: 1, shared: SharedItem::Class(c) };
        assert(none.push(h) =~= seq![h]);
    }
}

} // verus!
