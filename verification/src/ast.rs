//! The abstract syntax tree. Deliberately small: one `Stmt` enum and one `Expr` enum, with shared
//! sub-structures for functions and patterns.
use std::rc::Rc;
use vstd::prelude::*;
use crate::text::same_text;

verus! {

pub type P<T> = Box<T>;

#[derive(Debug)]
#[allow(inconsistent_fields)]
pub enum Stmt {
    Expr(Expr),
    /// `var` / `let` / `const` declaration: kind + (target, optional initializer) pairs.
    VarDecl { kind: DeclKind, decls: Vec<(Pattern, Option<Expr>)> },
    FuncDecl(Rc<Function>),
    Return(Option<Expr>),
    If { test: Expr, cons: P<Stmt>, alt: Option<P<Stmt>> },
    Block(Vec<Stmt>),
    While { test: Expr, body: P<Stmt> },
    DoWhile { body: P<Stmt>, test: Expr },
    /// C-style `for (init; test; update) body`.
    For { init: Option<P<ForInit>>, test: Option<Expr>, update: Option<Expr>, body: P<Stmt> },
    /// `for (left in right) body` / `for (left of right) body` (`is_await` for `for await … of`).
    ForInOf {
        decl: Option<DeclKind>,
        left: Pattern,
        right: Expr,
        of: bool,
        is_await: bool,
        body: P<Stmt>,
    },
    Break(Option<String>),
    Continue(Option<String>),
    Throw(Expr),
    Try {
        block: Vec<Stmt>,
        handler: Option<(Option<Pattern>, Vec<Stmt>)>,
        finalizer: Option<Vec<Stmt>>,
    },
    Switch { disc: Expr, cases: Vec<SwitchCase> },
    Labeled { label: String, body: P<Stmt> },
    /// `with (obj) body` — resolves identifiers against `obj` first (forbidden in strict mode).
    With { obj: Expr, body: P<Stmt> },
    ClassDecl(Rc<Class>),
    Empty,
    Debugger,
    /// `import …from "spec"` (or a bare `import "spec"`).
    Import(ImportDecl),
    /// `export { a, b as c }` or `export { a } from "spec"`.
    ExportNamed { specs: Vec<ExportSpec>, source: Option<String> },
    /// `export const/let/var/function/class …` — the inner declaration plus its exported names.
    ExportDecl(P<Stmt>),
    /// `export default …` (expression, function, or class).
    ExportDefault(P<Stmt>),
    /// `export * from "spec"` or `export * as ns from "spec"`.
    ExportAll { source: String, exported: Option<String> },
}

#[derive(Debug, Clone)]
pub struct ImportDecl {
    pub source: String,
    pub specs: Vec<ImportSpec>,
    /// The `with { type: "..." }` import attribute (json/text/bytes), if present.
    pub attr_type: Option<String>,
}

#[derive(Debug, Clone)]
pub enum ImportSpec {
    /// `import x from "…"`
    Default(String),
    /// `import * as ns from "…"`
    Namespace(String),
    /// `import defer * as ns from "…"` — evaluation deferred until the namespace is accessed.
    DeferNamespace(String),
    /// `import source x from "…"` — a source-phase import binding the module's ModuleSource.
    Source(String),
    /// `import { imported as local } from "…"`
    Named { imported: String, local: String },
}

#[derive(Debug, Clone)]
pub struct ExportSpec {
    pub local: String,
    pub exported: String,
}

#[derive(Debug)]
pub struct Class {
    pub name: Option<String>,
    pub superclass: Option<P<Expr>>,
    pub members: Vec<ClassMember>,
    /// `@dec` decorators applied to the whole class (outermost last).
    pub decorators: Vec<Expr>,
    /// The class's source text (what the constructor's `toString` returns).
    pub source: Option<String>,
}

#[derive(Debug)]
pub struct ClassMember {
    pub key: PropKey,
    pub kind: MemberKind,
    pub is_static: bool,
    /// For methods/accessors/constructor.
    pub func: Option<Rc<Function>>,
    /// For fields (`x = init` / `x`).
    pub value: Option<Expr>,
    /// `@dec` decorators applied to this element.
    pub decorators: Vec<Expr>,
}

#[derive(Debug, Clone, Copy, PartialEq, Eq, Structural)]
pub enum MemberKind {
    Constructor,
    Method,
    Get,
    Setter,
    Field,
    /// `accessor x = init` — an auto-accessor: a private backing field plus a getter/setter pair.
    Accessor,
    /// `static { ... }` — runs once at class definition with `this` = the class.
    StaticBlock,
}

#[derive(Debug)]
pub enum ForInit {
    VarDecl { kind: DeclKind, decls: Vec<(Pattern, Option<Expr>)> },
    Expr(Expr),
}

#[derive(Debug)]
pub struct SwitchCase {
    /// `None` is the `default:` clause.
    pub test: Option<Expr>,
    pub body: Vec<Stmt>,
}

#[derive(Debug, Clone, Copy, PartialEq, Eq, Structural)]
pub enum DeclKind {
    Var,
    Let,
    Const,
    /// `using x = expr;` — a block-scoped binding disposed (`[Symbol.dispose]()`) at scope exit.
    Using,
    /// `await using x = expr;` — disposed via `[Symbol.asyncDispose]()` (awaited) at scope exit.
    AwaitUsing,
}

#[derive(Debug)]
pub enum Pattern {
    Ident(String),
    /// `[a, b = 1, ...rest]` — elements may be holes, may carry defaults, and the last may be a
    /// rest.
    Array(Vec<ArrayPatElem>),
    /// `{ a, b: x = 1, ...rest }`.
    Object(ObjectPat),
    /// A member-expression assignment target (`o.p`, `o[k]`) — only valid in assignment-style
    /// destructuring / `for (o.p of …)`, never in a declaration.
    Member(Box<Expr>),
}

#[derive(Debug)]
pub enum ArrayPatElem {
    Hole,
    Elem { pattern: Pattern, default: Option<Expr> },
    Rest(Pattern),
}

#[derive(Debug)]
pub struct ObjectPat {
    pub props: Vec<ObjPatProp>,
    /// `...rest` — a plain identifier collecting the remaining own enumerable keys.
    pub rest: Option<String>,
}

#[derive(Debug)]
pub struct ObjPatProp {
    pub key: PropKey,
    pub value: Pattern,
    pub default: Option<Expr>,
}

#[derive(Debug)]
#[allow(inconsistent_fields)]
pub enum Expr {
    /// A parenthesized array/object literal or assignment — recorded so destructuring
    /// reinterpretation can reject it (parens block the pattern refinement); evaluates
    /// transparently.
    Paren(P<Expr>),
    /// A Number literal, as the bits of its IEEE 754 double.
    Num(u64),
    /// A BigInt literal, as its decimal digits.
    BigInt(String),
    Str(String),
    /// A template-literal substitution: evaluate the inner expression and apply ToString (which
    /// uses the `string` hint — toString before valueOf — unlike `+` which uses the `default`
    /// hint).
    ToStr(Box<Expr>),
    Bool(bool),
    Null,
    Undefined,
    Ident(String),
    This,
    Regex { body: String, flags: String },
    Array(Vec<ArrayElem>),
    Object(Vec<PropDef>),
    Func(Rc<Function>),
    Class(Rc<Class>),
    /// `yield expr` / `yield* expr` (only inside a generator).
    Yield { delegate: bool, arg: Option<P<Expr>> },
    /// `await expr` (only inside an async function).
    Await(P<Expr>),
    /// The bare `super` keyword (only valid as `super(...)` or `super.x` / `super[x]`).
    Super,
    Unary { op: &'static str, arg: P<Expr> },
    Update { op: &'static str, prefix: bool, arg: P<Expr> },
    Binary { op: &'static str, left: P<Expr>, right: P<Expr> },
    Logical { op: &'static str, left: P<Expr>, right: P<Expr> },
    Assign { op: &'static str, target: P<Expr>, value: P<Expr> },
    Cond { test: P<Expr>, cons: P<Expr>, alt: P<Expr> },
    Call { callee: P<Expr>, args: Vec<ArrayElem>, optional: bool },
    New { callee: P<Expr>, args: Vec<ArrayElem> },
    Member { obj: P<Expr>, prop: String, optional: bool },
    Index { obj: P<Expr>, index: P<Expr>, optional: bool },
    /// `a, b, c`.
    Sequence(Vec<Expr>),
    /// `tag\`a${x}b\`` — `quasis` are (cooked, raw) chunks (one more than `subs`).
    TaggedTemplate {
        tag: P<Expr>,
        /// Stable Parse Node identity for ECMA-262's per-Realm [[TemplateMap]].
        site: u64,
        quasis: Vec<(Option<String>, String)>,
        subs: Vec<Expr>,
    },
    /// An optional chain (`a?.b.c`): evaluates the inner LHS, short-circuiting to `undefined` if
    /// any `?.` link sees a nullish base.
    OptionalChain(P<Expr>),
    /// Ergonomic brand check `#field in obj`: whether `obj` carries the private field.
    PrivateIn { name: String, obj: P<Expr> },
    /// Dynamic `import(specifier)` / `import.source(...)` / `import.defer(...)` — returns a
    /// promise. The phase selects the import semantics.
    ImportCall {
        spec: P<Expr>,
        phase: ImportPhase,
        /// The optional second argument (`import(spec, { with: { type: "json" } })`).
        options: Option<P<Expr>>,
    },
    /// `import.meta`.
    ImportMeta,
    /// `new.target`.
    NewTarget,
}

/// The phase of a dynamic `import()` call: plain evaluation, `import.source(...)` (source-phase),
/// or `import.defer(...)` (deferred-evaluation).
#[derive(Debug, Clone, Copy, PartialEq, Eq, Structural)]
pub enum ImportPhase {
    Evaluation,
    Source,
    Defer,
}

/// An array element or call argument: a value, a spread (`...x`), or a hole (`[1,,3]`).
#[derive(Debug)]
pub enum ArrayElem {
    Item(Expr),
    Spread(Expr),
    Hole,
}

#[derive(Debug)]
pub enum PropDef {
    /// `key: value` or shorthand `{ x }`.
    KeyValue { key: PropKey, value: Expr },
    /// CoverInitializedName (`{ x = default }`): only valid when the literal is reinterpreted as
    /// a destructuring pattern; the parser rejects it anywhere else. `value` is the
    /// `x = default` assignment.
    Cover { key: PropKey, value: Expr },
    /// Concise method `key() {}` (incl. generator/async). Carries a [[HomeObject]] so `super`
    /// inside the body resolves against the literal's prototype.
    Method { key: PropKey, func: Rc<Function> },
    /// `get key() {}` / `set key(v) {}`.
    Getter { key: PropKey, func: Rc<Function> },
    Setter { key: PropKey, func: Rc<Function> },
    Spread(Expr),
    /// The colon-form `__proto__: value` in an object literal — sets `[[Prototype]]` (when the
    /// value is an Object or Null) rather than creating a property. Only the non-computed,
    /// non-shorthand, non-method form. As a destructuring pattern it degrades to a normal
    /// `__proto__` keyed target.
    Proto(Expr),
}

#[derive(Debug)]
pub enum PropKey {
    Ident(String),
    Str(String),
    /// A numeric key, as the bits of its IEEE 754 double.
    Num(u64),
    Computed(Expr),
}

#[derive(Debug)]
pub struct Function {
    pub name: Option<String>,
    pub params: Vec<Param>,
    pub body: Vec<Stmt>,
    pub is_arrow: bool,
    pub is_strict: bool,
    /// Arrow with an expression body (`x => x+1`): the single statement is a synthetic `return`.
    pub expr_body: bool,
    pub is_generator: bool,
    pub is_async: bool,
    /// A concise method / getter / setter: has no own `prototype` and is not a constructor (the
    /// class `constructor` member is re-flagged false once identified).
    pub is_method: bool,
    /// A function *expression* (`(function f(){})`): its own name binds immutably inside the
    /// function. A declaration's name binds (mutably) in the enclosing scope instead.
    pub is_fn_expr: bool,
    /// The synthesized default constructor of a class (ECMA-262 ClassDefinitionEvaluation,
    /// `ClassTail`: default constructors forward the raw argument list to `super` instead of
    /// performing the observable `%Array.prototype%` iterator evaluation of a written
    /// `constructor(...args) { super(...args); }`). Always false for parsed source; only the
    /// class member synthesis sets it.
    pub default_ctor: bool,
    /// The source text this function was parsed from, for `Function.prototype.toString`.
    pub source: Option<String>,
    /// Remembered body facts (see [`Function::scan_flags`]): bit 0 = scanned, bit 1 =
    /// references `arguments`, bit 2 = references `new.target`, bit 3 = references `this`.
    /// A direct `eval` sets all three (it can reach any of them dynamically).
    pub scan: u8,
}

/// One pre-scanned hoisting action for a statement list, replayed against a scope at function
/// call / script entry (order matters: `var`s in traversal order, then function declarations in
/// source order, then Annex B promotions).
#[derive(Debug)]
pub enum HoistOp {
    /// Declare a `var` binding (undefined) unless the name is already bound.
    Var(String),
    /// Bind a hoisted function declaration (`*default*` names as "default").
    Fn(String, Rc<Function>),
    /// Annex B.3.3: promote a sloppy block function to an (if-absent) var binding and register
    /// it for declaration-time sync.
    AnnexB(String, Rc<Function>),
}

#[derive(Debug)]
pub struct Param {
    pub pattern: Pattern,
    pub default: Option<Expr>,
    pub rest: bool,
}

pub const SCAN_DONE: u8 = 1;

pub const SCAN_ARGUMENTS: u8 = 2;

pub const SCAN_NEW_TARGET: u8 = 4;

pub const SCAN_THIS: u8 = 8;

/// The body itself contains a loop statement (not counting nested functions): the bytecode tier
/// compiles such functions on their *first* call — a single call can run a million iterations
/// (a benchmark driver's `while (elapsed < 1000)`), so waiting for a call-count threshold leaves
/// the hottest code on the tree-walker.
pub const SCAN_HAS_LOOP: u8 = 16;

const SCAN_ALL: u8 = 31;

/// What a piece of code needs from the activation it runs in.
pub struct Facts {
    pub arguments: bool,
    pub new_target: bool,
    pub this: bool,
    pub has_loop: bool,
}

impl Facts {
    /// Nothing at all.
    pub open spec fn none() -> Facts {
        Facts { arguments: false, new_target: false, this: false, has_loop: false }
    }

    pub open spec fn arguments() -> Facts {
        Facts { arguments: true, ..Facts::none() }
    }

    pub open spec fn new_target() -> Facts {
        Facts { new_target: true, ..Facts::none() }
    }

    pub open spec fn this() -> Facts {
        Facts { this: true, ..Facts::none() }
    }

    pub open spec fn has_loop() -> Facts {
        Facts { has_loop: true, ..Facts::none() }
    }

    /// What a direct `eval` can reach.
    pub open spec fn reachable() -> Facts {
        Facts { has_loop: false, ..Facts::all() }
    }

    pub open spec fn all() -> Facts {
        Facts { arguments: true, new_target: true, this: true, has_loop: true }
    }

    /// What either of two pieces needs.
    pub open spec fn or(self, other: Facts) -> Facts {
        Facts {
            arguments: self.arguments || other.arguments,
            new_target: self.new_target || other.new_target,
            this: self.this || other.this,
            has_loop: self.has_loop || other.has_loop,
        }
    }

    /// A loop inside an arrow is the arrow's own.
    pub open spec fn through_arrow(self) -> Facts {
        Facts { has_loop: false, ..self }
    }
}

/// The facts that a scan byte records.
pub open spec fn recorded(flags: u8) -> Facts {
    Facts {
        arguments: flags & 2 != 0,
        new_target: flags & 4 != 0,
        this: flags & 8 != 0,
        has_loop: flags & 16 != 0,
    }
}

/// The byte that records facts.
pub open spec fn byte_of(f: Facts) -> u8 {
    (1 + (if f.arguments {
        2int
    } else {
        0
    }) + (if f.new_target {
        4int
    } else {
        0
    }) + (if f.this {
        8int
    } else {
        0
    }) + (if f.has_loop {
        16int
    } else {
        0
    })) as u8
}

/// The byte that a scan of a function gives: the remembered one, where there is one.
pub open spec fn scan_byte(f: Function) -> u8 {
    if f.scan & 1 != 0 {
        f.scan
    } else {
        byte_of(function_facts(f))
    }
}

proof fn lemma_byte_of(flags: u8)
    requires
        flags < 32,
        flags & 1 == 1,
    ensures
        byte_of(recorded(flags)) == flags,
{
    assert(flags == 1 + (flags & 2) + (flags & 4) + (flags & 8) + (flags & 16)) by (bit_vector)
        requires
            flags < 32,
            flags & 1 == 1,
    ;
    assert(flags & 2 == 0 || flags & 2 == 2) by (bit_vector);
    assert(flags & 4 == 0 || flags & 4 == 4) by (bit_vector);
    assert(flags & 8 == 0 || flags & 8 == 8) by (bit_vector);
    assert(flags & 16 == 0 || flags & 16 == 16) by (bit_vector);
}

/// A name that means the function's own arguments object.
pub open spec fn name_facts(name: Seq<char>) -> Facts {
    if name == "arguments"@ {
        Facts::arguments()
    } else {
        Facts::none()
    }
}

pub open spec fn function_facts(f: Function) -> Facts
    decreases f, 0nat,
{
    if f.scan & 1 != 0 {
        recorded(f.scan)
    } else {
        params_facts(f.params, f.params.len() as nat).or(
            stmts_facts(f.body, f.body.len() as nat),
        )
    }
}

pub open spec fn param_facts(p: Param) -> Facts
    decreases p, 0nat,
{
    pattern_facts(p.pattern).or(opt_expr_facts(p.default))
}

pub open spec fn params_facts(v: Vec<Param>, n: nat) -> Facts
    decreases v, n,
{
    if n == 0 || n > v.len() {
        Facts::none()
    } else {
        params_facts(v, (n - 1) as nat).or(param_facts(v[n - 1]))
    }
}

pub open spec fn opt_expr_facts(e: Option<Expr>) -> Facts
    decreases e, 0nat,
{
    match e {
        Some(e) => expr_facts(e),
        None => Facts::none(),
    }
}

pub open spec fn opt_boxed_facts(e: Option<Box<Expr>>) -> Facts
    decreases e, 0nat,
{
    match e {
        Some(e) => expr_facts(*e),
        None => Facts::none(),
    }
}

pub open spec fn stmts_facts(v: Vec<Stmt>, n: nat) -> Facts
    decreases v, n,
{
    if n == 0 || n > v.len() {
        Facts::none()
    } else {
        stmts_facts(v, (n - 1) as nat).or(stmt_facts(v[n - 1]))
    }
}

pub open spec fn decls_facts(v: Vec<(Pattern, Option<Expr>)>, n: nat) -> Facts
    decreases v, n,
{
    if n == 0 || n > v.len() {
        Facts::none()
    } else {
        decls_facts(v, (n - 1) as nat).or(
            pattern_facts(v[n - 1].0).or(opt_expr_facts(v[n - 1].1)),
        )
    }
}

pub open spec fn cases_facts(v: Vec<SwitchCase>, n: nat) -> Facts
    decreases v, n,
{
    if n == 0 || n > v.len() {
        Facts::none()
    } else {
        cases_facts(v, (n - 1) as nat).or(
            opt_expr_facts(v[n - 1].test).or(
                stmts_facts(v[n - 1].body, v[n - 1].body.len() as nat),
            ),
        )
    }
}

/// What a statement needs. A nested function that is no arrow has its own activation.
pub open spec fn stmt_facts(s: Stmt) -> Facts
    decreases s, 0nat,
{
    match s {
        Stmt::Expr(e) => expr_facts(e),
        Stmt::Throw(e) => expr_facts(e),
        Stmt::VarDecl { kind: _, decls } => decls_facts(decls, decls.len() as nat),
        Stmt::FuncDecl(_) => Facts::none(),
        Stmt::Return(e) => opt_expr_facts(e),
        Stmt::If { test, cons, alt } => expr_facts(test).or(stmt_facts(*cons)).or(
            match alt {
                Some(a) => stmt_facts(*a),
                None => Facts::none(),
            },
        ),
        Stmt::Block(b) => stmts_facts(b, b.len() as nat),
        Stmt::While { test, body } => Facts::has_loop().or(expr_facts(test)).or(stmt_facts(*body)),
        Stmt::DoWhile { body, test } => Facts::has_loop().or(expr_facts(test)).or(
            stmt_facts(*body),
        ),
        Stmt::For { init, test, update, body } => Facts::has_loop().or(
            match init {
                Some(i) => match *i {
                    ForInit::VarDecl { kind: _, decls } => decls_facts(decls, decls.len() as nat),
                    ForInit::Expr(e) => expr_facts(e),
                },
                None => Facts::none(),
            },
        ).or(opt_expr_facts(test)).or(opt_expr_facts(update)).or(stmt_facts(*body)),
        Stmt::ForInOf { decl: _, left, right, of: _, is_await: _, body } => Facts::has_loop().or(
            pattern_facts(left),
        ).or(expr_facts(right)).or(stmt_facts(*body)),
        Stmt::Break(_) => Facts::none(),
        Stmt::Continue(_) => Facts::none(),
        Stmt::Empty => Facts::none(),
        Stmt::Debugger => Facts::none(),
        Stmt::Try { block, handler, finalizer } => stmts_facts(block, block.len() as nat).or(
            match handler {
                Some((param, body)) => match param {
                    Some(p) => pattern_facts(p),
                    None => Facts::none(),
                }.or(stmts_facts(body, body.len() as nat)),
                None => Facts::none(),
            },
        ).or(
            match finalizer {
                Some(f) => stmts_facts(f, f.len() as nat),
                None => Facts::none(),
            },
        ),
        Stmt::Switch { disc, cases } => expr_facts(disc).or(cases_facts(cases, cases.len() as nat)),
        Stmt::Labeled { label: _, body } => stmt_facts(*body),
        Stmt::With { obj, body } => expr_facts(obj).or(stmt_facts(*body)),
        Stmt::ClassDecl(c) => class_facts(*c),
        Stmt::Import(_) => Facts::none(),
        Stmt::ExportNamed { .. } => Facts::none(),
        Stmt::ExportAll { .. } => Facts::none(),
        Stmt::ExportDecl(inner) => stmt_facts(*inner),
        Stmt::ExportDefault(inner) => stmt_facts(*inner),
    }
}

pub open spec fn elems_facts(v: Vec<ArrayElem>, n: nat) -> Facts
    decreases v, n,
{
    if n == 0 || n > v.len() {
        Facts::none()
    } else {
        elems_facts(v, (n - 1) as nat).or(
            match v[n - 1] {
                ArrayElem::Item(e) => expr_facts(e),
                ArrayElem::Spread(e) => expr_facts(e),
                ArrayElem::Hole => Facts::none(),
            },
        )
    }
}

pub open spec fn exprs_facts(v: Vec<Expr>, n: nat) -> Facts
    decreases v, n,
{
    if n == 0 || n > v.len() {
        Facts::none()
    } else {
        exprs_facts(v, (n - 1) as nat).or(expr_facts(v[n - 1]))
    }
}

/// What one member of an object literal needs. A method body is a function of its own, so only
/// its key counts.
pub open spec fn prop_def_facts(p: PropDef) -> Facts
    decreases p, 0nat,
{
    match p {
        PropDef::KeyValue { key, value } => prop_key_facts(key).or(expr_facts(value)),
        PropDef::Cover { key, value } => prop_key_facts(key).or(expr_facts(value)),
        PropDef::Method { key, func: _ } => prop_key_facts(key),
        PropDef::Getter { key, func: _ } => prop_key_facts(key),
        PropDef::Setter { key, func: _ } => prop_key_facts(key),
        PropDef::Spread(e) => expr_facts(e),
        PropDef::Proto(e) => expr_facts(e),
    }
}

pub open spec fn prop_defs_facts(v: Vec<PropDef>, n: nat) -> Facts
    decreases v, n,
{
    if n == 0 || n > v.len() {
        Facts::none()
    } else {
        prop_defs_facts(v, (n - 1) as nat).or(prop_def_facts(v[n - 1]))
    }
}

/// What calling `callee` needs beyond evaluating it: a direct `eval` reaches everything, and
/// `super(...)` starts from `new.target`.
pub open spec fn callee_facts(callee: Expr) -> Facts {
    match callee {
        Expr::Ident(n) => if n@ == "eval"@ {
            Facts::reachable()
        } else {
            Facts::none()
        },
        Expr::Super => Facts::new_target(),
        _ => Facts::none(),
    }
}

/// What an expression needs. An arrow closes over the activation; any other function has its own.
pub open spec fn expr_facts(e: Expr) -> Facts
    decreases e, 0nat,
{
    match e {
        Expr::Ident(n) => name_facts(n@),
        Expr::This => Facts::this(),
        Expr::NewTarget => Facts::new_target(),
        Expr::Num(_) => Facts::none(),
        Expr::BigInt(_) => Facts::none(),
        Expr::Str(_) => Facts::none(),
        Expr::Bool(_) => Facts::none(),
        Expr::Null => Facts::none(),
        Expr::Undefined => Facts::none(),
        Expr::Regex { .. } => Facts::none(),
        Expr::ImportMeta => Facts::none(),
        Expr::Super => Facts::this(),
        Expr::Paren(inner) => expr_facts(*inner),
        Expr::ToStr(inner) => expr_facts(*inner),
        Expr::Await(inner) => expr_facts(*inner),
        Expr::OptionalChain(inner) => expr_facts(*inner),
        Expr::Array(elems) => elems_facts(elems, elems.len() as nat),
        Expr::Object(props) => prop_defs_facts(props, props.len() as nat),
        Expr::Func(f) => if f.is_arrow {
            function_facts(*f).through_arrow()
        } else {
            Facts::none()
        },
        Expr::Class(c) => class_facts(*c),
        Expr::Yield { delegate: _, arg } => opt_boxed_facts(arg),
        Expr::Unary { op: _, arg } => expr_facts(*arg),
        Expr::Update { op: _, prefix: _, arg } => expr_facts(*arg),
        Expr::Binary { op: _, left, right } => expr_facts(*left).or(expr_facts(*right)),
        Expr::Logical { op: _, left, right } => expr_facts(*left).or(expr_facts(*right)),
        Expr::Assign { op: _, target, value } => expr_facts(*target).or(expr_facts(*value)),
        Expr::Cond { test, cons, alt } => expr_facts(*test).or(expr_facts(*cons)).or(
            expr_facts(*alt),
        ),
        Expr::Call { callee, args, optional: _ } => callee_facts(*callee).or(
            expr_facts(*callee),
        ).or(elems_facts(args, args.len() as nat)),
        Expr::New { callee, args } => expr_facts(*callee).or(
            elems_facts(args, args.len() as nat),
        ),
        Expr::Member { obj, prop: _, optional: _ } => expr_facts(*obj),
        Expr::Index { obj, index, optional: _ } => expr_facts(*obj).or(expr_facts(*index)),
        Expr::Sequence(exprs) => exprs_facts(exprs, exprs.len() as nat),
        Expr::TaggedTemplate { tag, site: _, quasis: _, subs } => expr_facts(*tag).or(
            exprs_facts(subs, subs.len() as nat),
        ),
        Expr::PrivateIn { name: _, obj } => expr_facts(*obj),
        Expr::ImportCall { spec, phase: _, options } => expr_facts(*spec).or(
            opt_boxed_facts(options),
        ),
    }
}

/// What a class needs where it stands: heritage, decorators, computed keys and initializers.
pub open spec fn class_facts(c: Class) -> Facts
    decreases c, 0nat,
{
    opt_boxed_facts(c.superclass).or(exprs_facts(c.decorators, c.decorators.len() as nat)).or(
        members_facts(c.members, c.members.len() as nat),
    )
}

pub open spec fn member_facts(m: ClassMember) -> Facts
    decreases m, 0nat,
{
    prop_key_facts(m.key).or(exprs_facts(m.decorators, m.decorators.len() as nat)).or(
        opt_expr_facts(m.value),
    )
}

pub open spec fn members_facts(v: Vec<ClassMember>, n: nat) -> Facts
    decreases v, n,
{
    if n == 0 || n > v.len() {
        Facts::none()
    } else {
        members_facts(v, (n - 1) as nat).or(member_facts(v[n - 1]))
    }
}

pub open spec fn prop_key_facts(k: PropKey) -> Facts
    decreases k, 0nat,
{
    match k {
        PropKey::Ident(_) => Facts::none(),
        PropKey::Str(_) => Facts::none(),
        PropKey::Num(_) => Facts::none(),
        PropKey::Computed(e) => expr_facts(e),
    }
}

pub open spec fn pattern_elem_facts(el: ArrayPatElem) -> Facts
    decreases el, 0nat,
{
    match el {
        ArrayPatElem::Hole => Facts::none(),
        ArrayPatElem::Elem { pattern, default } => pattern_facts(pattern).or(
            opt_expr_facts(default),
        ),
        ArrayPatElem::Rest(pattern) => pattern_facts(pattern),
    }
}

pub open spec fn pattern_elems_facts(v: Vec<ArrayPatElem>, n: nat) -> Facts
    decreases v, n,
{
    if n == 0 || n > v.len() {
        Facts::none()
    } else {
        pattern_elems_facts(v, (n - 1) as nat).or(pattern_elem_facts(v[n - 1]))
    }
}

pub open spec fn pattern_props_facts(v: Vec<ObjPatProp>, n: nat) -> Facts
    decreases v, n,
{
    if n == 0 || n > v.len() {
        Facts::none()
    } else {
        pattern_props_facts(v, (n - 1) as nat).or(
            prop_key_facts(v[n - 1].key).or(pattern_facts(v[n - 1].value)).or(
                opt_expr_facts(v[n - 1].default),
            ),
        )
    }
}

pub open spec fn pattern_facts(p: Pattern) -> Facts
    decreases p, 0nat,
{
    match p {
        Pattern::Ident(n) => name_facts(n@),
        Pattern::Array(elems) => pattern_elems_facts(elems, elems.len() as nat),
        Pattern::Object(o) => pattern_props_facts(o.props, o.props.len() as nat).or(
            match o.rest {
                Some(name) => name_facts(name@),
                None => Facts::none(),
            },
        ),
        Pattern::Member(e) => expr_facts(*e),
    }
}

/// The scan byte grew by exactly `facts`.
pub open spec fn grown(before: u8, after: u8, facts: Facts) -> bool {
    &&& recorded(after) == recorded(before).or(facts)
    &&& after < 32
    &&& after & 1 == before & 1
}

/// Sets bits of a scan byte.
fn mark(flags: &mut u8, bits: u8)
    requires
        *old(flags) < 32,
        bits < 32,
        bits & 1 == 0,
    ensures
        grown(*old(flags), *final(flags), recorded(bits)),
{
    let ghost f = *flags;
    *flags = *flags | bits;
    assert(f < 32 && bits < 32 && bits & 1 == 0 ==> {
        &&& (f | bits) < 32
        &&& (f | bits) & 1 == f & 1
        &&& ((f | bits) & 2 != 0 <==> f & 2 != 0 || bits & 2 != 0)
        &&& ((f | bits) & 4 != 0 <==> f & 4 != 0 || bits & 4 != 0)
        &&& ((f | bits) & 8 != 0 <==> f & 8 != 0 || bits & 8 != 0)
        &&& ((f | bits) & 16 != 0 <==> f & 16 != 0 || bits & 16 != 0)
    }) by (bit_vector);
}

proof fn lemma_bits()
    ensures
        recorded(1) == Facts::none(),
        recorded(2) == Facts::arguments(),
        recorded(4) == Facts::new_target(),
        recorded(8) == Facts::this(),
        recorded(14) == Facts::reachable(),
        recorded(16) == Facts::has_loop(),
        recorded(31) == Facts::all(),
        2u8 & 1 == 0,
        4u8 & 1 == 0,
        8u8 & 1 == 0,
        14u8 & 1 == 0,
        16u8 & 1 == 0,
        1u8 & 1 == 1,
{
    assert(1u8 & 1 == 1 && 1u8 & 2 == 0 && 1u8 & 4 == 0 && 1u8 & 8 == 0 && 1u8 & 16 == 0)
        by (bit_vector);
    assert(2u8 & 1 == 0 && 2u8 & 2 != 0 && 2u8 & 4 == 0 && 2u8 & 8 == 0 && 2u8 & 16 == 0)
        by (bit_vector);
    assert(4u8 & 1 == 0 && 4u8 & 2 == 0 && 4u8 & 4 != 0 && 4u8 & 8 == 0 && 4u8 & 16 == 0)
        by (bit_vector);
    assert(8u8 & 1 == 0 && 8u8 & 2 == 0 && 8u8 & 4 == 0 && 8u8 & 8 != 0 && 8u8 & 16 == 0)
        by (bit_vector);
    assert(14u8 & 1 == 0 && 14u8 & 2 != 0 && 14u8 & 4 != 0 && 14u8 & 8 != 0 && 14u8 & 16 == 0)
        by (bit_vector);
    assert(16u8 & 1 == 0 && 16u8 & 2 == 0 && 16u8 & 4 == 0 && 16u8 & 8 == 0 && 16u8 & 16 != 0)
        by (bit_vector);
    assert(31u8 & 2 != 0 && 31u8 & 4 != 0 && 31u8 & 8 != 0 && 31u8 & 16 != 0) by (bit_vector);
}

proof fn lemma_stmts_prefix(v: Vec<Stmt>, k: nat, n: nat)
    requires
        k <= n <= v.len(),
    ensures
        stmts_facts(v, n).or(stmts_facts(v, k)) == stmts_facts(v, n),
    decreases n - k,
{
    if k < n {
        lemma_stmts_prefix(v, k, (n - 1) as nat);
    }
}

fn mark_name(name: &str, flags: &mut u8)
    requires
        *old(flags) < 32,
    ensures
        grown(*old(flags), *final(flags), name_facts(name@)),
{
    proof {
        lemma_bits();
    }
    if same_text(name, "arguments") {
        mark(flags, SCAN_ARGUMENTS);
    }
}

impl Function {
    /// What this function's own activation must provide: whether the body (or a nested arrow, or a
    /// possible direct `eval`) can observe `arguments`, `new.target`, or `this`. Ordinary nested
    /// functions are opaque (they get their own); arrows are transparent. Conservative on the
    /// safe side: a false positive only costs an unused binding.
    pub fn scan_flags(&self) -> (r: u8)
        ensures
            r & 1 == 1,
            recorded(r) == function_facts(*self),
            r == scan_byte(*self),
        decreases *self, 0nat,
    {
        let cached: u8 = self.scan;
        assert(cached & 1 != 0 ==> cached & 1 == 1) by (bit_vector);
        if cached & SCAN_DONE != 0 {
            return cached;
        }
        let mut flags: u8 = SCAN_DONE;
        proof {
            lemma_bits();
        }
        let mut i: usize = 0;
        while i < self.params.len()
            invariant
                i <= self.params.len(),
                flags < 32,
                flags & 1 == 1,
                recorded(flags) == params_facts(self.params, i as nat),
            decreases self.params.len() - i,
        {
            let p: &Param = &self.params[i];
            scan_pattern(&p.pattern, &mut flags);
            scan_opt_expr(&p.default, &mut flags);
            assert(param_facts(self.params[i as int]) == pattern_facts(p.pattern).or(
                opt_expr_facts(p.default),
            ));
            i += 1;
        }
        scan_stmts(&self.body, &mut flags);
        proof {
            lemma_byte_of(flags);
        }
        flags
    }

    /// Remembers the scan, so that later calls of `scan_flags` do not walk the body again.
    pub fn remember_scan(&mut self)
        ensures
            final(self).scan & 1 != 0,
            final(self).scan == scan_byte(*old(self)),
            function_facts(*final(self)) == function_facts(*old(self)),
            *final(self) == (Function { scan: final(self).scan, ..*old(self) }),
    {
        let flags: u8 = self.scan_flags();
        self.scan = flags;
    }
}

fn scan_opt_expr(e: &Option<Expr>, flags: &mut u8)
    requires
        *old(flags) < 32,
    ensures
        grown(*old(flags), *final(flags), opt_expr_facts(*e)),
    decreases *e, 0nat,
{
    if let Some(e) = e {
        scan_expr(e, flags);
    }
}

fn scan_opt_boxed(e: &Option<Box<Expr>>, flags: &mut u8)
    requires
        *old(flags) < 32,
    ensures
        grown(*old(flags), *final(flags), opt_boxed_facts(*e)),
    decreases *e, 0nat,
{
    if let Some(e) = e {
        scan_expr(&**e, flags);
    }
}

fn scan_stmts(body: &Vec<Stmt>, flags: &mut u8)
    requires
        *old(flags) < 32,
    ensures
        grown(*old(flags), *final(flags), stmts_facts(*body, body.len() as nat)),
    decreases *body, body.len() as nat,
{
    let mut i: usize = 0;
    while i < body.len()
        invariant
            i <= body.len(),
            *old(flags) < 32,
            grown(*old(flags), *flags, stmts_facts(*body, i as nat)),
        decreases body.len() - i,
    {
        scan_stmt(&body[i], flags);
        if *flags == SCAN_ALL {
            proof {
                lemma_bits();
                lemma_stmts_prefix(*body, (i + 1) as nat, body.len() as nat);
            }
            return;
        }
        i += 1;
    }
}

fn scan_decls(decls: &Vec<(Pattern, Option<Expr>)>, flags: &mut u8)
    requires
        *old(flags) < 32,
    ensures
        grown(*old(flags), *final(flags), decls_facts(*decls, decls.len() as nat)),
    decreases *decls, decls.len() as nat,
{
    let mut i: usize = 0;
    while i < decls.len()
        invariant
            i <= decls.len(),
            *old(flags) < 32,
            grown(*old(flags), *flags, decls_facts(*decls, i as nat)),
        decreases decls.len() - i,
    {
        scan_pattern(&decls[i].0, flags);
        scan_opt_expr(&decls[i].1, flags);
        i += 1;
    }
}

fn scan_stmt(s: &Stmt, flags: &mut u8)
    requires
        *old(flags) < 32,
    ensures
        grown(*old(flags), *final(flags), stmt_facts(*s)),
    decreases *s, 0nat,
{
    proof {
        lemma_bits();
    }
    match s {
        Stmt::Expr(e) => scan_expr(e, flags),
        Stmt::Throw(e) => scan_expr(e, flags),
        Stmt::VarDecl { kind: _, decls } => scan_decls(decls, flags),
        Stmt::FuncDecl(_) => {},
        Stmt::Return(e) => {
            scan_opt_expr(e, flags);
        },
        Stmt::If { test, cons, alt } => {
            scan_expr(test, flags);
            scan_stmt(&**cons, flags);
            if let Some(a) = alt {
                scan_stmt(&**a, flags);
            }
        },
        Stmt::Block(b) => scan_stmts(b, flags),
        Stmt::While { test, body } => {
            mark(flags, SCAN_HAS_LOOP);
            scan_expr(test, flags);
            scan_stmt(&**body, flags);
        },
        Stmt::DoWhile { body, test } => {
            mark(flags, SCAN_HAS_LOOP);
            scan_expr(test, flags);
            scan_stmt(&**body, flags);
        },
        Stmt::For { init, test, update, body } => {
            mark(flags, SCAN_HAS_LOOP);
            if let Some(init) = init {
                match &**init {
                    ForInit::VarDecl { kind: _, decls } => scan_decls(decls, flags),
                    ForInit::Expr(e) => scan_expr(e, flags),
                }
            }
            scan_opt_expr(test, flags);
            scan_opt_expr(update, flags);
            scan_stmt(&**body, flags);
        },
        Stmt::ForInOf { decl: _, left, right, of: _, is_await: _, body } => {
            mark(flags, SCAN_HAS_LOOP);
            scan_pattern(left, flags);
            scan_expr(right, flags);
            scan_stmt(&**body, flags);
        },
        Stmt::Break(_) => {},
        Stmt::Continue(_) => {},
        Stmt::Empty => {},
        Stmt::Debugger => {},
        Stmt::Try { block, handler, finalizer } => {
            scan_stmts(block, flags);
            if let Some((param, body)) = handler {
                if let Some(p) = param {
                    scan_pattern(p, flags);
                }
                scan_stmts(body, flags);
            }
            if let Some(f) = finalizer {
                scan_stmts(f, flags);
            }
        },
        Stmt::Switch { disc, cases } => {
            scan_expr(disc, flags);
            scan_cases(cases, flags);
        },
        Stmt::Labeled { label: _, body } => scan_stmt(&**body, flags),
        Stmt::With { obj, body } => {
            scan_expr(obj, flags);
            scan_stmt(&**body, flags);
        },
        Stmt::ClassDecl(c) => scan_class(&**c, flags),
        Stmt::Import(_) => {},
        Stmt::ExportNamed { .. } => {},
        Stmt::ExportAll { .. } => {},
        Stmt::ExportDecl(inner) => scan_stmt(&**inner, flags),
        Stmt::ExportDefault(inner) => scan_stmt(&**inner, flags),
    }
}

fn scan_cases(cases: &Vec<SwitchCase>, flags: &mut u8)
    requires
        *old(flags) < 32,
    ensures
        grown(*old(flags), *final(flags), cases_facts(*cases, cases.len() as nat)),
    decreases *cases, cases.len() as nat,
{
    let mut i: usize = 0;
    while i < cases.len()
        invariant
            i <= cases.len(),
            *old(flags) < 32,
            grown(*old(flags), *flags, cases_facts(*cases, i as nat)),
        decreases cases.len() - i,
    {
        scan_opt_expr(&cases[i].test, flags);
        scan_stmts(&cases[i].body, flags);
        i += 1;
    }
}

fn scan_elems(elems: &Vec<ArrayElem>, flags: &mut u8)
    requires
        *old(flags) < 32,
    ensures
        grown(*old(flags), *final(flags), elems_facts(*elems, elems.len() as nat)),
    decreases *elems, elems.len() as nat,
{
    let mut i: usize = 0;
    while i < elems.len()
        invariant
            i <= elems.len(),
            *old(flags) < 32,
            grown(*old(flags), *flags, elems_facts(*elems, i as nat)),
        decreases elems.len() - i,
    {
        match &elems[i] {
            ArrayElem::Item(e) => scan_expr(e, flags),
            ArrayElem::Spread(e) => scan_expr(e, flags),
            ArrayElem::Hole => {},
        }
        i += 1;
    }
}

fn scan_exprs(exprs: &Vec<Expr>, flags: &mut u8)
    requires
        *old(flags) < 32,
    ensures
        grown(*old(flags), *final(flags), exprs_facts(*exprs, exprs.len() as nat)),
    decreases *exprs, exprs.len() as nat,
{
    let mut i: usize = 0;
    while i < exprs.len()
        invariant
            i <= exprs.len(),
            *old(flags) < 32,
            grown(*old(flags), *flags, exprs_facts(*exprs, i as nat)),
        decreases exprs.len() - i,
    {
        scan_expr(&exprs[i], flags);
        i += 1;
    }
}

fn scan_prop_defs(props: &Vec<PropDef>, flags: &mut u8)
    requires
        *old(flags) < 32,
    ensures
        grown(*old(flags), *final(flags), prop_defs_facts(*props, props.len() as nat)),
    decreases *props, props.len() as nat,
{
    let mut i: usize = 0;
    while i < props.len()
        invariant
            i <= props.len(),
            *old(flags) < 32,
            grown(*old(flags), *flags, prop_defs_facts(*props, i as nat)),
        decreases props.len() - i,
    {
        scan_prop_def(&props[i], flags);
        i += 1;
    }
}

fn scan_prop_def(prop: &PropDef, flags: &mut u8)
    requires
        *old(flags) < 32,
    ensures
        grown(*old(flags), *final(flags), prop_def_facts(*prop)),
    decreases *prop, 0nat,
{
    match prop {
        PropDef::KeyValue { key, value } => {
            scan_prop_key(key, flags);
            scan_expr(value, flags);
        },
        PropDef::Cover { key, value } => {
            scan_prop_key(key, flags);
            scan_expr(value, flags);
        },
        PropDef::Method { key, func: _ } => scan_prop_key(key, flags),
        PropDef::Getter { key, func: _ } => scan_prop_key(key, flags),
        PropDef::Setter { key, func: _ } => scan_prop_key(key, flags),
        PropDef::Spread(e) => scan_expr(e, flags),
        PropDef::Proto(e) => scan_expr(e, flags),
    }
}

/// Marks what calling `callee` needs beyond evaluating it.
fn mark_callee(callee: &Expr, flags: &mut u8)
    requires
        *old(flags) < 32,
    ensures
        grown(*old(flags), *final(flags), callee_facts(*callee)),
{
    proof {
        lemma_bits();
    }
    match callee {
        Expr::Ident(n) => {
            if same_text(n.as_str(), "eval") {
                mark(flags, 14);
            }
        },
        Expr::Super => mark(flags, SCAN_NEW_TARGET),
        _ => {},
    }
}

/// Marks what an expression needs.
pub fn scan_expr(e: &Expr, flags: &mut u8)
    requires
        *old(flags) < 32,
    ensures
        grown(*old(flags), *final(flags), expr_facts(*e)),
    decreases *e, 0nat,
{
    proof {
        lemma_bits();
    }
    match e {
        Expr::Ident(n) => mark_name(n.as_str(), flags),
        Expr::This => mark(flags, SCAN_THIS),
        Expr::NewTarget => mark(flags, SCAN_NEW_TARGET),
        Expr::Num(_) => {},
        Expr::BigInt(_) => {},
        Expr::Str(_) => {},
        Expr::Bool(_) => {},
        Expr::Null => {},
        Expr::Undefined => {},
        Expr::Regex { .. } => {},
        Expr::ImportMeta => {},
        // `super.x` resolves its receiver through the `this` binding; `super()` initializes it.
        Expr::Super => mark(flags, SCAN_THIS),
        Expr::Paren(inner) => scan_expr(&**inner, flags),
        Expr::ToStr(inner) => scan_expr(&**inner, flags),
        Expr::Await(inner) => scan_expr(&**inner, flags),
        Expr::OptionalChain(inner) => scan_expr(&**inner, flags),
        Expr::Array(elems) => scan_elems(elems, flags),
        Expr::Object(props) => scan_prop_defs(props, flags),
        Expr::Func(f) => {
            if f.is_arrow {
                let inner: u8 = f.scan_flags();
                let seen: u8 = inner & 14;
                assert(seen < 32 && seen & 1 == 0 && seen & 16 == 0 && (seen & 2 != 0 <==> inner & 2
                    != 0) && (seen & 4 != 0 <==> inner & 4 != 0) && (seen & 8 != 0 <==> inner & 8
                    != 0)) by (bit_vector)
                    requires
                        seen == inner & 14,
                ;
                mark(flags, seen);
            }
        },
        Expr::Class(c) => scan_class(&**c, flags),
        Expr::Yield { delegate: _, arg } => {
            scan_opt_boxed(arg, flags);
        },
        Expr::Unary { op: _, arg } => scan_expr(&**arg, flags),
        Expr::Update { op: _, prefix: _, arg } => scan_expr(&**arg, flags),
        Expr::Binary { op: _, left, right } => {
            scan_expr(&**left, flags);
            scan_expr(&**right, flags);
        },
        Expr::Logical { op: _, left, right } => {
            scan_expr(&**left, flags);
            scan_expr(&**right, flags);
        },
        Expr::Assign { op: _, target, value } => {
            scan_expr(&**target, flags);
            scan_expr(&**value, flags);
        },
        Expr::Cond { test, cons, alt } => {
            scan_expr(&**test, flags);
            scan_expr(&**cons, flags);
            scan_expr(&**alt, flags);
        },
        Expr::Call { callee, args, optional: _ } => {
            mark_callee(&**callee, flags);
            scan_expr(&**callee, flags);
            scan_elems(args, flags);
        },
        Expr::New { callee, args } => {
            scan_expr(&**callee, flags);
            scan_elems(args, flags);
        },
        Expr::Member { obj, prop: _, optional: _ } => scan_expr(&**obj, flags),
        Expr::Index { obj, index, optional: _ } => {
            scan_expr(&**obj, flags);
            scan_expr(&**index, flags);
        },
        Expr::Sequence(exprs) => scan_exprs(exprs, flags),
        Expr::TaggedTemplate { tag, site: _, quasis: _, subs } => {
            scan_expr(&**tag, flags);
            scan_exprs(subs, flags);
        },
        Expr::PrivateIn { name: _, obj } => scan_expr(&**obj, flags),
        Expr::ImportCall { spec, phase: _, options } => {
            scan_expr(&**spec, flags);
            scan_opt_boxed(options, flags);
        },
    }
}

fn scan_class(c: &Class, flags: &mut u8)
    requires
        *old(flags) < 32,
    ensures
        grown(*old(flags), *final(flags), class_facts(*c)),
    decreases *c, 0nat,
{
    // Heritage, decorators, and computed keys evaluate in the enclosing scope. Member bodies are
    // their own function scopes; field/accessor initializers and static blocks can't legally name
    // `arguments`, but walking them costs only a possible false positive.
    scan_opt_boxed(&c.superclass, flags);
    scan_exprs(&c.decorators, flags);
    scan_members(&c.members, flags);
}

fn scan_members(members: &Vec<ClassMember>, flags: &mut u8)
    requires
        *old(flags) < 32,
    ensures
        grown(*old(flags), *final(flags), members_facts(*members, members.len() as nat)),
    decreases *members, members.len() as nat,
{
    let mut i: usize = 0;
    while i < members.len()
        invariant
            i <= members.len(),
            *old(flags) < 32,
            grown(*old(flags), *flags, members_facts(*members, i as nat)),
        decreases members.len() - i,
    {
        scan_member(&members[i], flags);
        i += 1;
    }
}

fn scan_member(m: &ClassMember, flags: &mut u8)
    requires
        *old(flags) < 32,
    ensures
        grown(*old(flags), *final(flags), member_facts(*m)),
    decreases *m, 0nat,
{
    scan_prop_key(&m.key, flags);
    scan_exprs(&m.decorators, flags);
    scan_opt_expr(&m.value, flags);
}

fn scan_prop_key(k: &PropKey, flags: &mut u8)
    requires
        *old(flags) < 32,
    ensures
        grown(*old(flags), *final(flags), prop_key_facts(*k)),
    decreases *k, 0nat,
{
    match k {
        PropKey::Ident(_) => {},
        PropKey::Str(_) => {},
        PropKey::Num(_) => {},
        PropKey::Computed(e) => scan_expr(e, flags),
    }
}

fn scan_pattern(p: &Pattern, flags: &mut u8)
    requires
        *old(flags) < 32,
    ensures
        grown(*old(flags), *final(flags), pattern_facts(*p)),
    decreases *p, 0nat,
{
    match p {
        Pattern::Ident(n) => mark_name(n.as_str(), flags),
        Pattern::Array(elems) => scan_pattern_elems(elems, flags),
        Pattern::Object(o) => {
            scan_pattern_props(&o.props, flags);
            if let Some(name) = &o.rest {
                mark_name(name.as_str(), flags);
            }
        },
        Pattern::Member(e) => scan_expr(&**e, flags),
    }
}

fn scan_pattern_elems(elems: &Vec<ArrayPatElem>, flags: &mut u8)
    requires
        *old(flags) < 32,
    ensures
        grown(*old(flags), *final(flags), pattern_elems_facts(*elems, elems.len() as nat)),
    decreases *elems, elems.len() as nat,
{
    let mut i: usize = 0;
    while i < elems.len()
        invariant
            i <= elems.len(),
            *old(flags) < 32,
            grown(*old(flags), *flags, pattern_elems_facts(*elems, i as nat)),
        decreases elems.len() - i,
    {
        scan_pattern_elem(&elems[i], flags);
        i += 1;
    }
}

fn scan_pattern_elem(el: &ArrayPatElem, flags: &mut u8)
    requires
        *old(flags) < 32,
    ensures
        grown(*old(flags), *final(flags), pattern_elem_facts(*el)),
    decreases *el, 0nat,
{
    match el {
        ArrayPatElem::Hole => {},
        ArrayPatElem::Elem { pattern, default } => {
            scan_pattern(pattern, flags);
            scan_opt_expr(default, flags);
        },
        ArrayPatElem::Rest(pattern) => scan_pattern(pattern, flags),
    }
}

fn scan_pattern_props(props: &Vec<ObjPatProp>, flags: &mut u8)
    requires
        *old(flags) < 32,
    ensures
        grown(*old(flags), *final(flags), pattern_props_facts(*props, props.len() as nat)),
    decreases *props, props.len() as nat,
{
    let mut i: usize = 0;
    while i < props.len()
        invariant
            i <= props.len(),
            *old(flags) < 32,
            grown(*old(flags), *flags, pattern_props_facts(*props, i as nat)),
        decreases props.len() - i,
    {
        let prop: &ObjPatProp = &props[i];
        scan_prop_key(&prop.key, flags);
        scan_pattern(&prop.value, flags);
        scan_opt_expr(&prop.default, flags);
        i += 1;
    }
}

/// A nested function that is no arrow is opaque, and an arrow shows everything it needs but its
/// own loops.
pub proof fn law_only_arrows_are_transparent(f: Rc<Function>)
    ensures
        !f.is_arrow ==> expr_facts(Expr::Func(f)) == Facts::none(),
        stmt_facts(Stmt::FuncDecl(f)) == Facts::none(),
        f.is_arrow ==> expr_facts(Expr::Func(f)) == function_facts(*f).through_arrow(),
{
}

/// Remembering what a scan found changes no later scan: it gives the remembered byte, which holds
/// the mark of a finished scan.
pub proof fn law_remembered_scan_agrees(f: Function)
    ensures
        ({
            let after = Function { scan: scan_byte(f), ..f };
            &&& scan_byte(f) & 1 != 0
            &&& scan_byte(after) == scan_byte(f)
            &&& function_facts(after) == function_facts(f)
        }),
{
    lemma_facts_recorded(function_facts(f));
}

proof fn lemma_facts_recorded(f: Facts)
    ensures
        byte_of(f) & 1 != 0,
        recorded(byte_of(f)) == f,
{
    let b = byte_of(f);
    assert forall|x: u8| x < 32 && #[trigger] (x % 2) == 1 implies x & 1 != 0 && (x & 2 != 0) == (x
        / 2 % 2 == 1) && (x & 4 != 0) == (x / 4 % 2 == 1) && (x & 8 != 0) == (x / 8 % 2 == 1) && (x
        & 16 != 0) == (x / 16 % 2 == 1) by {
        assert(x < 32 && x % 2 == 1 ==> x & 1 != 0 && (x & 2 != 0) == (x / 2 % 2 == 1) && (x & 4
            != 0) == (x / 4 % 2 == 1) && (x & 8 != 0) == (x / 8 % 2 == 1) && (x & 16 != 0) == (x
            / 16 % 2 == 1)) by (bit_vector);
    }
    assert(b % 2 == 1);
}

/// Whatever a statement of a body needs, the function needs.
pub proof fn law_body_needs_reach_the_function(f: Function, i: int)
    requires
        f.scan & 1 == 0,
        0 <= i < f.body.len(),
    ensures
        function_facts(f).or(stmt_facts(f.body[i])) == function_facts(f),
{
    lemma_stmts_prefix(f.body, (i + 1) as nat, f.body.len() as nat);
}

/// Whatever a parameter needs, the function needs.
pub proof fn law_parameter_needs_reach_the_function(f: Function, i: int)
    requires
        f.scan & 1 == 0,
        0 <= i < f.params.len(),
    ensures
        function_facts(f).or(param_facts(f.params[i])) == function_facts(f),
{
    lemma_params_prefix(f.params, (i + 1) as nat, f.params.len() as nat);
}

proof fn lemma_params_prefix(v: Vec<Param>, k: nat, n: nat)
    requires
        k <= n <= v.len(),
    ensures
        params_facts(v, n).or(params_facts(v, k)) == params_facts(v, n),
    decreases n - k,
{
    if k < n {
        lemma_params_prefix(v, k, (n - 1) as nat);
    }
}

/// A name, `this` and `new.target` need what they stand for.
pub proof fn law_mentions_are_needs(name: String)
    ensures
        name@ == "arguments"@ ==> expr_facts(Expr::Ident(name)) == Facts::arguments(),
        expr_facts(Expr::This) == Facts::this(),
        expr_facts(Expr::NewTarget) == Facts::new_target(),
{
}

/// A direct `eval` call may reach all of `arguments`, `new.target` and `this`.
pub proof fn law_direct_eval_reaches_all(callee: Box<Expr>, args: Vec<ArrayElem>, optional: bool)
    requires
        *callee matches Expr::Ident(n) && n@ == "eval"@,
    ensures
        expr_facts(Expr::Call { callee, args, optional }).or(Facts::reachable()) == expr_facts(
            Expr::Call { callee, args, optional },
        ),
{
}

} // verus!
