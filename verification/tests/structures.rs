use lumen::ast::{Class, DeclKind, Expr, Function, Param, Pattern, Stmt};
use lumen::collections::{collection_key_hash, Collection, WeakCollection};
use lumen::descriptor::validate_and_apply;
use lumen::equality::{canonicalize_map_key, same_value, same_value_zero, strict_equals};
use lumen::interp::{Interp, ObjRef, PartialDesc, Property, Value, WellKnown};
use lumen::own_keys::{ordinary_own_keys_ordered, read_array_index, well_known_key};
use lumen::retained::{scan_class_retained_memory, scan_expr_retained_memory, scan_function_retained_memory, scan_stmt_body_retained_memory, HeldKind, Holding, Shared};
use lumen::sort::merge_sort_with_keys;
use std::rc::Rc;

fn n(x: f64) -> Value {
    Value::Num(x.to_bits())
}

fn obj(id: u64) -> Value {
    Value::Obj(ObjRef { id, callable: false, constructor: false })
}

#[test]
fn equality_of_numbers() {
    let nan = n(f64::NAN);
    assert!(same_value(nan, nan) && same_value_zero(nan, nan) && !strict_equals(nan, nan));
    assert!(!same_value(n(0.0), n(-0.0)) && same_value_zero(n(0.0), n(-0.0)) && strict_equals(n(0.0), n(-0.0)));
    assert_eq!(canonicalize_map_key(n(-0.0)), n(0.0));
    assert!(same_value(obj(1), obj(1)) && !same_value(obj(1), obj(2)));
}

#[test]
fn collections_keep_insertion_order_and_positions() {
    let mut c = Collection::new();
    c.collection_set(n(1.0), n(10.0));
    c.collection_set(n(2.0), n(20.0));
    c.collection_set(n(1.0), n(11.0));
    assert_eq!(c.collection_get(n(1.0)), Some(n(11.0)));
    assert_eq!(c.coll_live_len(), 2);
    assert!(c.collection_delete(n(1.0)));
    assert!(!c.collection_delete(n(1.0)));
    assert!(!c.collection_has(n(1.0)));
    assert_eq!(c.entry_at(0), Some(None));
    assert_eq!(c.entry_at(1), Some(Some((n(2.0), n(20.0)))));
    c.collection_set(n(1.0), n(12.0));
    assert_eq!(c.live_keys(), [n(2.0), n(1.0)]);
    assert_eq!(c.slot_count(), 3);
    c.collection_clear();
    assert_eq!(c.coll_live_len(), 0);
    assert_eq!(c.collection_get(n(2.0)), None);
}

#[test]
fn equal_keys_share_a_hash_and_an_entry() {
    assert_eq!(collection_key_hash(n(0.0)), collection_key_hash(n(-0.0)));
    let mut c = Collection::new();
    c.collection_set(n(f64::NAN), n(1.0));
    assert_eq!(c.collection_get(n(f64::NAN)), Some(n(1.0)));
    for k in 0..200 {
        c.collection_set(Value::Str(k), n(k as f64));
    }
    assert_eq!(c.collection_get(Value::Str(150)), Some(n(150.0)));
    assert_eq!(c.coll_live_len(), 201);
}

#[test]
fn weak_collections_go_by_identity() {
    let mut w = WeakCollection::new();
    w.weak_insert(obj(1), n(1.0));
    w.weak_insert(obj(2), n(2.0));
    w.weak_insert(obj(1), n(3.0));
    assert_eq!(w.weak_get(obj(1)), Some(n(3.0)));
    assert!(w.weak_delete(obj(1)));
    assert_eq!(w.weak_get(obj(1)), None);
    assert_eq!(w.weak_get(obj(2)), Some(n(2.0)));
    assert!(!w.weak_delete(obj(1)));
}

const NOTHING: PartialDesc = PartialDesc { value: None, get: None, set: None, writable: None, enumerable: None, configurable: None };

#[test]
fn pinned_properties_refuse_redefinition() {
    let pinned = Property::new_data(n(1.0), false, true, false);
    let same = PartialDesc { value: Some(n(1.0)), ..NOTHING };
    let other = PartialDesc { value: Some(n(2.0)), ..NOTHING };
    assert_eq!(validate_and_apply(same, Some(pinned), true), Some(pinned));
    assert_eq!(validate_and_apply(other, Some(pinned), true), None);
    assert_eq!(validate_and_apply(other, None, false), None);
    let made = validate_and_apply(other, None, true).unwrap();
    assert_eq!(made, Property::new_data(n(2.0), false, false, false));
}

#[test]
fn keyed_sorting_is_stable() {
    let items = vec![n(1.0), n(2.0), n(3.0), n(4.0)];
    let keys = vec![Some(vec![0x62]), Some(vec![0x61]), None, Some(vec![0x61])];
    assert_eq!(merge_sort_with_keys(&items, &keys), [n(2.0), n(4.0), n(1.0), n(3.0)]);
}

#[test]
fn own_keys_are_ordered() {
    let mut i = Interp::new();
    let mut k = |t: &str| Value::Str(i.intern(t.encode_utf16().collect()));
    let keys = vec![k("b"), k("10"), Value::Sym(1), k("2"), k("01"), k("a"), k("4294967295")];
    let want = vec![k("2"), k("10"), k("b"), k("01"), k("a"), k("4294967295"), Value::Sym(1)];
    let (zero, one) = (k("0"), k("1"));
    assert_eq!(ordinary_own_keys_ordered(&mut i, 0, &keys), want);
    // Indices that a platform supplies are merged, each once.
    let mut merged = vec![zero, one];
    merged.extend(want);
    assert_eq!(ordinary_own_keys_ordered(&mut i, 3, &keys), merged);
    let u = |t: &str| -> Vec<u16> { t.encode_utf16().collect() };
    assert_eq!(read_array_index(&u("4294967294")), Some(4294967294));
    assert_eq!(read_array_index(&u("4294967295")), None);
    assert_eq!(read_array_index(&u("00")), None);
    assert_eq!(read_array_index(&u("")), None);
    assert_eq!(read_array_index(&u("1x")), None);
}

#[test]
fn well_known_symbols_have_names() {
    assert_eq!(well_known_key("iterator"), Some(WellKnown::Iterator));
    assert_eq!(well_known_key("asyncDispose"), Some(WellKnown::AsyncDispose));
    assert_eq!(well_known_key("nothing"), None);
}

#[test]
fn strings_are_interned_once() {
    let mut i = Interp::new();
    let a = i.intern(vec![1, 2]);
    let b = i.intern(vec![3]);
    assert_eq!(i.intern(vec![1, 2]), a);
    assert_ne!(a, b);
    assert_eq!(i.units(b), [3]);
    assert_eq!(i.units(77).len(), 0);
}

fn function(body: Vec<Stmt>, is_arrow: bool) -> Function {
    Function {
        name: Some("f".to_string()),
        params: vec![Param { pattern: Pattern::Ident("x".to_string()), default: None, rest: false }],
        body,
        is_arrow,
        is_strict: false,
        expr_body: false,
        is_generator: false,
        is_async: false,
        is_method: false,
        is_fn_expr: false,
        default_ctor: false,
        source: None,
        scan: 0,
    }
}

#[test]
fn bodies_are_scanned_for_what_they_need() {
    let plain = function(vec![Stmt::Expr(Expr::Ident("y".to_string()))], false);
    assert_eq!(plain.scan_flags(), 1);
    let uses = function(vec![Stmt::Expr(Expr::Ident("arguments".to_string())), Stmt::Expr(Expr::This)], false);
    assert_eq!(uses.scan_flags(), 1 | 2 | 8);
    // An arrow is transparent, another function is not.
    let arrow = Rc::new(function(vec![Stmt::Expr(Expr::NewTarget)], true));
    let inner = Rc::new(function(vec![Stmt::Expr(Expr::NewTarget)], false));
    assert_eq!(function(vec![Stmt::Expr(Expr::Func(arrow))], false).scan_flags(), 1 | 4);
    assert_eq!(function(vec![Stmt::Expr(Expr::Func(inner))], false).scan_flags(), 1);
    let looping = function(vec![Stmt::While { test: Expr::Bool(true), body: Box::new(Stmt::Empty) }], false);
    assert_eq!(looping.scan_flags(), 1 | 16);
    let call = Expr::Call { callee: Box::new(Expr::Ident("eval".to_string())), args: vec![], optional: false };
    let mut evals = function(vec![Stmt::Expr(call)], false);
    assert_eq!(evals.scan_flags(), 1 | 2 | 4 | 8);
    evals.remember_scan();
    assert_eq!(evals.scan, 15);
    assert_eq!(evals.scan_flags(), 15);
}

fn kinds_of(held: &[Holding]) -> Vec<(HeldKind, usize)> {
    held.iter().map(|h| (h.kind, h.len)).collect()
}

#[test]
fn parts_of_trees_list_what_they_hold() {
    let (bytes, held) = scan_expr_retained_memory(&Expr::Num(0));
    assert_eq!((bytes, held.len()), (0, 0));
    // A shared text is counted where it is owned.
    let text = Expr::Str("abc".to_string());
    let (bytes, held) = scan_expr_retained_memory(&text);
    assert_eq!((bytes, kinds_of(&held)), (0, vec![(HeldKind::SharedText, 1)]));
    // A shared function is handed on: that very one.
    let f = Rc::new(function(Vec::new(), true));
    let e = Expr::Func(f.clone());
    let (bytes, held) = scan_expr_retained_memory(&e);
    assert_eq!((bytes, held.len()), (0, 1));
    assert!(matches!(held[0].shared, Shared::Function(g) if Rc::ptr_eq(g, &f)));
    let side = || Box::new(Expr::Ident("ab".to_string()));
    let (one, _) = scan_expr_retained_memory(&side());
    let sum = Expr::Index { obj: side(), index: side(), optional: false };
    let (two, _) = scan_expr_retained_memory(&sum);
    assert_eq!(two, 2 * std::mem::size_of::<Expr>() + 2 * one);
    let body = vec![Stmt::Expr(Expr::Ident("ab".to_string())), Stmt::Empty];
    let (bytes, held) = scan_stmt_body_retained_memory(&body);
    assert_eq!(kinds_of(&held), [(HeldKind::Stmts, 2), (HeldKind::Text, 2)]);
    assert!(bytes >= std::mem::size_of::<Vec<Stmt>>() + 2 * std::mem::size_of::<Stmt>() + 2);
    let class = Class {
        name: Some("C".to_string()),
        superclass: Some(Box::new(Expr::This)),
        members: Vec::new(),
        decorators: Vec::new(),
        source: None,
    };
    let (bytes, held) = scan_class_retained_memory(&class);
    assert!(kinds_of(&held).contains(&(HeldKind::Text, 1)));
    assert!(kinds_of(&held).contains(&(HeldKind::ExprBox, 1)));
    assert!(bytes >= std::mem::size_of::<Class>() + std::mem::size_of::<Expr>() + 1);
}

#[test]
fn trees_list_what_they_hold() {
    let decl = Stmt::VarDecl { kind: DeclKind::Let, decls: vec![(Pattern::Ident("abc".to_string()), Some(Expr::Num(0)))] };
    let f = function(vec![decl], false);
    let (bytes, held) = scan_function_retained_memory(&f);
    assert_eq!(kinds_of(&held), [
        (HeldKind::Text, 1), (HeldKind::Params, 1), (HeldKind::Text, 1),
        (HeldKind::Stmts, 1), (HeldKind::Decls, 1), (HeldKind::Text, 3),
    ]);
    assert!(held.iter().all(|h| h.capacity >= h.len));
    assert!(bytes >= std::mem::size_of::<Function>() + std::mem::size_of::<Stmt>() + 5);
}

#[test]
fn a_waiting_built_in_finds_its_transcript_again() {
    let mut i = Interp::new();
    let waiting = i.begin();
    let a = i.intern(vec![9]);
    assert!(!i.is_halted());
    i.end(waiting);
    assert_eq!(i.units(a), [9]);
}
