//! The JavaScript-literal evaluator.
//!
//! Scripts are parsed by the ECMAScript parser behind [`parse_stmts`];
//! the parsed statements are carried over, node by node, into the small
//! AST below, and the evaluation of that AST is verified: top-level
//! `var`/`let`/`const` declarations and assignments whose right side
//! statically reduces to JSON — literals, arrays, objects, template
//! literals without interpolation, unary minus on a number, and
//! `JSON.parse` of a string literal — become variable bindings, later
//! writers winning.  A script that fails to parse contributes nothing.

use vstd::prelude::*;
use crate::json::{JsonModel, JsonValue};
use crate::jsonparse::{spec_json_parse, json_parse};
use crate::opengraph::{spec_map_set, map_set};
use crate::microdata::spec_obj_fields;
use crate::dom::{ElemShape, ElemRec, spec_dom, spec_attr, dom_elements, spec_shapes};
use crate::chars::{spec_parse_i64, parse_i64, to_chars};

verus! {

/// A numeric literal, carried as text: the value as Rust prints it, the
/// value as JSON prints it (absent for non-finite values), and the same
/// two for the negated value.
pub struct JsNum {
    pub text: String,
    pub json: Option<String>,
    pub neg_text: String,
    pub neg_json: Option<String>,
}

/// A property of an object literal.
pub enum JsProp {
    /// A plain `key: value` pair; the key is absent when it is not an
    /// identifier, string or number.
    Pair { key: Option<String>, value: Box<JsExpr> },
    /// A spread, method, shorthand or other property.
    OtherProp,
}

/// The callee of a call expression, as far as the evaluator reads it.
pub enum JsCallee {
    /// `obj.prop` with plain identifiers on both sides, where present.
    Member { obj: Option<String>, prop: Option<String> },
    /// Anything else.
    OtherCallee,
}

/// The target of an assignment.
pub enum JsTarget {
    /// A plain identifier.
    Ident(String),
    /// `obj.prop` with plain identifiers, where present.
    MemberProp { obj: Option<String>, prop: Option<String> },
    /// Anything else.
    OtherTarget,
}

/// An expression, reduced to what the evaluator reads.
pub enum JsExpr {
    StrLit(String),
    NumLit(JsNum),
    BoolLit(bool),
    NullLit,
    /// Array literal; an absent element is an elision.
    ArrLit(Vec<Option<JsExpr>>),
    ObjLit(Vec<JsProp>),
    CallExpr { callee: JsCallee, args: Vec<JsExpr> },
    /// Unary minus.
    Neg(Box<JsExpr>),
    /// Template literal: whether it interpolates, and its first quasi.
    TplLit { has_exprs: bool, raw: Option<String> },
    OtherExpr,
}

/// A top-level statement, reduced to what the evaluator reads.
pub enum JsStmt {
    /// Declarators of a `var`/`let`/`const` statement: name (absent for
    /// patterns) and initialiser.
    VarDecl(Vec<(Option<String>, Option<JsExpr>)>),
    /// An assignment expression statement.
    Assign { target: JsTarget, value: Box<JsExpr> },
    /// Anything else.
    OtherStmt,
}

/// The JSON value an expression statically reduces to, if any.
pub open spec fn spec_expr_json(e: JsExpr) -> Option<JsonModel>
    decreases e, 0int,
{
    match e {
        JsExpr::StrLit(s) => Some(JsonModel::Str(s@)),
        JsExpr::NumLit(n) => match spec_parse_i64(n.text@) {
            Some(i) => Some(JsonModel::Int(i)),
            None => match n.json {
                Some(t) => Some(JsonModel::Num(t@)),
                None => None,
            },
        },
        JsExpr::BoolLit(b) => Some(JsonModel::Bool(b)),
        JsExpr::NullLit => Some(JsonModel::Null),
        JsExpr::ArrLit(elems) => Some(JsonModel::Arr(spec_arr_elems(elems@, elems@.len() as int))),
        JsExpr::ObjLit(props) => Some(JsonModel::Obj(spec_obj_props(props@, props@.len() as int))),
        JsExpr::CallExpr { callee, args } => {
            if callee matches JsCallee::Member { obj: Some(o), prop: Some(p) } && (callee->Member_obj
                matches Some(o2) && o2@ == "JSON"@) && (callee->Member_prop matches Some(p2) && p2@
                == "parse"@) && args@.len() >= 1 {
                match args@[0] {
                    JsExpr::StrLit(s) => spec_json_parse(s@),
                    _ => None,
                }
            } else {
                None
            }
        },
        JsExpr::Neg(inner) => match *inner {
            JsExpr::NumLit(n) => match spec_parse_i64(n.neg_text@) {
                Some(i) => Some(JsonModel::Int(i)),
                None => match n.neg_json {
                    Some(t) => Some(JsonModel::Num(t@)),
                    None => None,
                },
            },
            _ => None,
        },
        JsExpr::TplLit { has_exprs, raw } => {
            if !has_exprs {
                match raw {
                    Some(r) => Some(JsonModel::Str(r@)),
                    None => None,
                }
            } else {
                None
            }
        },
        _ => None,
    }
}

/// The values of the first `i` array-literal elements: an elision or an
/// irreducible element is `null`.
pub open spec fn spec_arr_elems(es: Seq<Option<JsExpr>>, i: int) -> Seq<JsonModel>
    decreases es, i,
{
    if i <= 0 || i > es.len() {
        Seq::empty()
    } else {
        let v = match es[i - 1] {
            Some(e) => match spec_expr_json(e) {
                Some(v) => v,
                None => JsonModel::Null,
            },
            None => JsonModel::Null,
        };
        spec_arr_elems(es, i - 1).push(v)
    }
}

/// The fields contributed by the first `i` object-literal properties:
/// a pair with a readable key and a reducible value sets its field,
/// later pairs winning; everything else is dropped.
pub open spec fn spec_obj_props(ps: Seq<JsProp>, i: int) -> Seq<(Seq<char>, JsonModel)>
    decreases ps, i,
{
    if i <= 0 || i > ps.len() {
        Seq::empty()
    } else {
        let prev = spec_obj_props(ps, i - 1);
        match ps[i - 1] {
            JsProp::Pair { key: Some(k), value } => match spec_expr_json(*value) {
                Some(v) => spec_map_set(prev, k@, v),
                None => prev,
            },
            _ => prev,
        }
    }
}

/// The bindings one statement emits, in order.
pub open spec fn spec_stmt_binds(st: JsStmt) -> Seq<(Seq<char>, JsonModel)> {
    match st {
        JsStmt::VarDecl(decls) => spec_decl_binds(decls@, decls@.len() as int),
        JsStmt::Assign { target, value } => match spec_expr_json(*value) {
            Some(v) => match target {
                JsTarget::Ident(name) => seq![(name@, v)],
                JsTarget::MemberProp { obj: Some(o), prop: Some(p) } => if o@ == "window"@ {
                    seq![(p@, v)]
                } else {
                    Seq::empty()
                },
                _ => Seq::empty(),
            },
            None => Seq::empty(),
        },
        _ => Seq::empty(),
    }
}

/// The bindings of the first `i` declarators.
pub open spec fn spec_decl_binds(ds: Seq<(Option<String>, Option<JsExpr>)>, i: int) -> Seq<
    (Seq<char>, JsonModel),
>
    decreases i,
{
    if i <= 0 || i > ds.len() {
        Seq::empty()
    } else {
        let prev = spec_decl_binds(ds, i - 1);
        match ds[i - 1] {
            (Some(name), Some(init)) => match spec_expr_json(init) {
                Some(v) => prev.push((name@, v)),
                None => prev,
            },
            _ => prev,
        }
    }
}

/// Bindings folded into a map, later writers winning.
pub open spec fn spec_bind_fold(
    m: Seq<(Seq<char>, JsonModel)>,
    bs: Seq<(Seq<char>, JsonModel)>,
    i: int,
) -> Seq<(Seq<char>, JsonModel)>
    decreases i,
{
    if i <= 0 || i > bs.len() {
        m
    } else {
        spec_map_set(spec_bind_fold(m, bs, i - 1), bs[i - 1].0, bs[i - 1].1)
    }
}

/// The variable map after the first `i` statements.
pub open spec fn spec_stmts_binds(m: Seq<(Seq<char>, JsonModel)>, stmts: Seq<JsStmt>, i: int) -> Seq<
    (Seq<char>, JsonModel),
>
    decreases i,
{
    if i <= 0 || i > stmts.len() {
        m
    } else {
        let prev = spec_stmts_binds(m, stmts, i - 1);
        spec_bind_fold(prev, spec_stmt_binds(stmts[i - 1]), spec_stmt_binds(stmts[i - 1]).len() as int)
    }
}

/// What the ECMAScript parser makes of one statement, carried into the
/// evaluator's AST.
pub uninterp spec fn spec_stmt_model(s: swc_ecma_ast::Stmt) -> JsStmt;

/// What parsing a script yields: its statements' carried forms, or
/// nothing when the source does not parse as a script.
pub uninterp spec fn spec_js_parse(src: Seq<char>) -> Option<Seq<JsStmt>>;

#[verifier::external_type_specification]
#[verifier::external_body]
pub struct ExStmt(swc_ecma_ast::Stmt);

#[verifier::external_type_specification]
#[verifier::external_body]
pub struct ExVarDeclarator(swc_ecma_ast::VarDeclarator);

#[verifier::external_type_specification]
#[verifier::external_body]
pub struct ExAssignTarget(swc_ecma_ast::AssignTarget);

#[verifier::external_type_specification]
#[verifier::external_body]
pub struct ExMemberExpr(swc_ecma_ast::MemberExpr);

#[verifier::external_type_specification]
#[verifier::external_body]
pub struct ExExpr(swc_ecma_ast::Expr);

#[verifier::external_type_specification]
#[verifier::external_body]
pub struct ExUnaryExpr(swc_ecma_ast::UnaryExpr);

#[verifier::external_type_specification]
#[verifier::external_body]
pub struct ExLit(swc_ecma_ast::Lit);

#[verifier::external_type_specification]
#[verifier::external_body]
pub struct ExNumber(swc_ecma_ast::Number);

#[verifier::external_type_specification]
#[verifier::external_body]
pub struct ExCallee(swc_ecma_ast::Callee);

#[verifier::external_type_specification]
#[verifier::external_body]
pub struct ExPropOrSpread(swc_ecma_ast::PropOrSpread);

#[verifier::external_type_specification]
#[verifier::external_body]
pub struct ExPropName(swc_ecma_ast::PropName);

/// Relies on swc_ecma_parser (`Parser::parse_script`): the statement
/// list is a function of the source text alone, and parsing fails
/// exactly where the text is not a script.
#[verifier::external_body]
fn parse_stmts(src: &str) -> (r: Option<Vec<swc_ecma_ast::Stmt>>)
    ensures
        match r {
            Some(v) => spec_js_parse(src@) == Some(
                Seq::new(v@.len(), |i: int| spec_stmt_model(v@[i])),
            ),
            None => spec_js_parse(src@) is None,
        },
{
    let cm: swc_common::sync::Lrc<swc_common::SourceMap> = Default::default();
    let fm = cm.new_source_file(swc_common::FileName::Anon.into(), src.to_string());
    let lexer = swc_ecma_parser::lexer::Lexer::new(
        swc_ecma_parser::Syntax::Es(Default::default()),
        Default::default(),
        swc_common::input::StringInput::from(&*fm),
        None,
    );
    let mut parser = swc_ecma_parser::Parser::new_from(lexer);
    parser.parse_script().ok().map(|s| s.body)
}

/// Relies on the shape of `swc_ecma_ast::Stmt`: a variable declaration
/// carries its declarators' identifier names and initialisers, an
/// expression statement carries an assignment's target and right side,
/// and every other statement is opaque; nested expressions are carried
/// arm by arm by the helpers below.
#[verifier::external_body]
fn conv_stmt(s: &swc_ecma_ast::Stmt) -> (r: JsStmt)
    ensures
        r == spec_stmt_model(*s),
{
    match s {
        swc_ecma_ast::Stmt::Decl(swc_ecma_ast::Decl::Var(vd)) => JsStmt::VarDecl(
            vd.decls.iter().map(conv_declarator).collect(),
        ),
        swc_ecma_ast::Stmt::Expr(es) => match &*es.expr {
            swc_ecma_ast::Expr::Assign(a) => JsStmt::Assign {
                target: conv_target(&a.left),
                value: Box::new(conv_expr(&a.right)),
            },
            _ => JsStmt::OtherStmt,
        },
        _ => JsStmt::OtherStmt,
    }
}

/// Relies on `swc_ecma_ast::VarDeclarator`: the declared name when it is
/// a plain identifier, and the initialiser.
#[verifier::external_body]
fn conv_declarator(d: &swc_ecma_ast::VarDeclarator) -> (r: (Option<String>, Option<JsExpr>)) {
    let name = match &d.name {
        swc_ecma_ast::Pat::Ident(id) => Some(id.sym.as_str().to_string()),
        _ => None,
    };
    (name, d.init.as_ref().map(|e| conv_expr(e)))
}

/// Relies on `swc_ecma_ast::AssignTarget`: a simple identifier or a
/// member of plain identifiers; everything else is opaque.
#[verifier::external_body]
fn conv_target(t: &swc_ecma_ast::AssignTarget) -> (r: JsTarget) {
    match t {
        swc_ecma_ast::AssignTarget::Simple(swc_ecma_ast::SimpleAssignTarget::Ident(id)) => {
            JsTarget::Ident(id.sym.as_str().to_string())
        },
        swc_ecma_ast::AssignTarget::Simple(swc_ecma_ast::SimpleAssignTarget::Member(me)) => {
            JsTarget::MemberProp { obj: conv_member_obj(me), prop: conv_member_prop(me) }
        },
        _ => JsTarget::OtherTarget,
    }
}

/// Relies on `swc_ecma_ast::MemberExpr`: its object identifier, if plain.
#[verifier::external_body]
fn conv_member_obj(me: &swc_ecma_ast::MemberExpr) -> (r: Option<String>) {
    match &*me.obj {
        swc_ecma_ast::Expr::Ident(id) => Some(id.sym.as_str().to_string()),
        _ => None,
    }
}

/// Relies on `swc_ecma_ast::MemberExpr`: its property identifier, if plain.
#[verifier::external_body]
fn conv_member_prop(me: &swc_ecma_ast::MemberExpr) -> (r: Option<String>) {
    match &me.prop {
        swc_ecma_ast::MemberProp::Ident(id) => Some(id.sym.as_str().to_string()),
        _ => None,
    }
}

/// Relies on the shape of `swc_ecma_ast::Expr`: each arm the evaluator
/// reads is carried over, everything else is opaque.
#[verifier::external_body]
fn conv_expr(e: &swc_ecma_ast::Expr) -> (r: JsExpr) {
    match e {
        swc_ecma_ast::Expr::Lit(l) => conv_lit(l),
        swc_ecma_ast::Expr::Object(o) => JsExpr::ObjLit(o.props.iter().map(conv_prop).collect()),
        swc_ecma_ast::Expr::Array(a) => conv_array(a),
        swc_ecma_ast::Expr::Call(c) => conv_call(c),
        swc_ecma_ast::Expr::Unary(u) => conv_unary(u),
        swc_ecma_ast::Expr::Tpl(t) => conv_tpl(t),
        _ => JsExpr::OtherExpr,
    }
}

#[verifier::external_type_specification]
#[verifier::external_body]
pub struct ExArrayLit(swc_ecma_ast::ArrayLit);

/// Relies on `swc_ecma_ast::ArrayLit`: elements are carried in order,
/// elisions as absences.
#[verifier::external_body]
fn conv_array(a: &swc_ecma_ast::ArrayLit) -> (r: JsExpr) {
    JsExpr::ArrLit(a.elems.iter().map(|el| el.as_ref().map(|x| conv_expr(&x.expr))).collect())
}

#[verifier::external_type_specification]
#[verifier::external_body]
pub struct ExCallExpr(swc_ecma_ast::CallExpr);

/// Relies on `swc_ecma_ast::CallExpr`: the callee's identifiers and the
/// argument expressions are carried over.
#[verifier::external_body]
fn conv_call(c: &swc_ecma_ast::CallExpr) -> (r: JsExpr) {
    JsExpr::CallExpr {
        callee: conv_callee(&c.callee),
        args: c.args.iter().map(|a| conv_expr(&a.expr)).collect(),
    }
}

#[verifier::external_type_specification]
#[verifier::external_body]
pub struct ExTpl(swc_ecma_ast::Tpl);

/// Relies on `swc_ecma_ast::Tpl`: whether it interpolates, and its
/// first quasi's raw text.
#[verifier::external_body]
fn conv_tpl(t: &swc_ecma_ast::Tpl) -> (r: JsExpr) {
    JsExpr::TplLit {
        has_exprs: !t.exprs.is_empty(),
        raw: t.quasis.first().map(|q| q.raw.as_str().to_string()),
    }
}

/// Relies on `swc_ecma_ast::UnaryExpr`: minus is carried, other
/// operators are opaque.
#[verifier::external_body]
fn conv_unary(u: &swc_ecma_ast::UnaryExpr) -> (r: JsExpr) {
    if u.op == swc_ecma_ast::UnaryOp::Minus {
        JsExpr::Neg(Box::new(conv_expr(&u.arg)))
    } else {
        JsExpr::OtherExpr
    }
}

/// Relies on `swc_ecma_ast::Lit`: string, numeric, boolean and null
/// literals are carried, others are opaque.
#[verifier::external_body]
fn conv_lit(l: &swc_ecma_ast::Lit) -> (r: JsExpr) {
    match l {
        swc_ecma_ast::Lit::Str(s) => JsExpr::StrLit(s.value.as_str().unwrap_or("").to_string()),
        swc_ecma_ast::Lit::Num(n) => JsExpr::NumLit(conv_num(n)),
        swc_ecma_ast::Lit::Bool(b) => JsExpr::BoolLit(b.value),
        swc_ecma_ast::Lit::Null(_) => JsExpr::NullLit,
        _ => JsExpr::OtherExpr,
    }
}

/// Relies on `swc_ecma_ast::Number` and `serde_json::Number`: the
/// literal's value and its negation, printed by Rust and by JSON; the
/// JSON text is absent for non-finite values.  The evaluator classifies
/// the value from these texts alone.
#[verifier::external_body]
fn conv_num(n: &swc_ecma_ast::Number) -> (r: JsNum) {
    let v = n.value;
    JsNum {
        text: v.to_string(),
        json: serde_json::Number::from_f64(v).map(|x| x.to_string()),
        neg_text: (-v).to_string(),
        neg_json: serde_json::Number::from_f64(-v).map(|x| x.to_string()),
    }
}

/// Relies on `swc_ecma_ast::Callee`: a member callee's identifiers are
/// carried, others are opaque.
#[verifier::external_body]
fn conv_callee(c: &swc_ecma_ast::Callee) -> (r: JsCallee) {
    match c {
        swc_ecma_ast::Callee::Expr(e) => match &**e {
            swc_ecma_ast::Expr::Member(me) => JsCallee::Member {
                obj: conv_member_obj(me),
                prop: conv_member_prop(me),
            },
            _ => JsCallee::OtherCallee,
        },
        _ => JsCallee::OtherCallee,
    }
}

/// Relies on `swc_ecma_ast::PropOrSpread`: a plain `key: value` pair is
/// carried with its readable key, everything else is opaque.
#[verifier::external_body]
fn conv_prop(p: &swc_ecma_ast::PropOrSpread) -> (r: JsProp) {
    match p {
        swc_ecma_ast::PropOrSpread::Prop(pr) => match &**pr {
            swc_ecma_ast::Prop::KeyValue(kv) => JsProp::Pair {
                key: conv_prop_name(&kv.key),
                value: Box::new(conv_expr(&kv.value)),
            },
            _ => JsProp::OtherProp,
        },
        swc_ecma_ast::PropOrSpread::Spread(_) => JsProp::OtherProp,
    }
}

/// Relies on `swc_ecma_ast::PropName`: identifier, string and numeric
/// keys are readable, computed and private ones are not.
#[verifier::external_body]
fn conv_prop_name(n: &swc_ecma_ast::PropName) -> (r: Option<String>) {
    match n {
        swc_ecma_ast::PropName::Ident(id) => Some(id.sym.as_str().to_string()),
        swc_ecma_ast::PropName::Str(s) => s.value.as_str().map(|v| v.to_string()),
        swc_ecma_ast::PropName::Num(num) => Some(num.value.to_string()),
        _ => None,
    }
}

/// The JSON value an expression statically reduces to, executable.
pub fn eval_expr(e: &JsExpr) -> (r: Option<JsonValue>)
    ensures
        match r {
            Some(v) => spec_expr_json(*e) == Some(v.model()),
            None => spec_expr_json(*e) is None,
        },
    decreases e,
{
    match e {
        JsExpr::StrLit(s) => Some(JsonValue::Str(crate::json::clone_string(s))),
        JsExpr::NumLit(n) => {
            let tc = to_chars(n.text.as_str());
            match parse_i64(&tc) {
                Some(i) => Some(JsonValue::Int(i)),
                None => match &n.json {
                    Some(t) => Some(JsonValue::Num(crate::json::clone_string(t))),
                    None => None,
                },
            }
        },
        JsExpr::BoolLit(b) => Some(JsonValue::Bool(*b)),
        JsExpr::NullLit => Some(JsonValue::Null),
        JsExpr::ArrLit(elems) => {
            let ghost em = elems@;
            let mut out: Vec<JsonValue> = Vec::new();
            let mut i: usize = 0;
            while i < elems.len()
                invariant
                    i <= em.len(),
                    em == elems@,
                    out@.len() == i,
                    spec_arr_elems(em, i as int).len() == i,
                    forall|k: int|
                        0 <= k < i ==> out@[k].model() == spec_arr_elems(em, i as int)[k],
                decreases em.len() - i,
            {
                let ghost prev = spec_arr_elems(em, i as int);
                let v: JsonValue = match &elems[i] {
                    Some(el) => match eval_expr(el) {
                        Some(v) => v,
                        None => JsonValue::Null,
                    },
                    None => JsonValue::Null,
                };
                out.push(v);
                proof {
                    assert(spec_arr_elems(em, i + 1) == prev.push(out@[i as int].model()));
                    assert(forall|k: int|
                        0 <= k < i ==> spec_arr_elems(em, i + 1)[k] == prev[k]);
                }
                i = i + 1;
            }
            let rv = JsonValue::Arr(out);
            proof {
                assert(rv.model()->Arr_0 =~= spec_arr_elems(em, em.len() as int));
            }
            Some(rv)
        },
        JsExpr::ObjLit(props) => {
            let ghost pm = props@;
            let mut out: Vec<(String, JsonValue)> = Vec::new();
            proof {
                assert(spec_obj_fields(out@) =~= spec_obj_props(pm, 0));
            }
            let mut i: usize = 0;
            while i < props.len()
                invariant
                    i <= pm.len(),
                    pm == props@,
                    spec_obj_fields(out@) == spec_obj_props(pm, i as int),
                decreases pm.len() - i,
            {
                match &props[i] {
                    JsProp::Pair { key: Some(k), value } => {
                        match eval_expr(value) {
                            Some(v) => {
                                let kc = to_chars(k.as_str());
                                map_set(&mut out, &kc, v);
                            },
                            None => {
                            },
                        }
                    },
                    _ => {
                    },
                }
                i = i + 1;
            }
            let rv = JsonValue::Obj(out);
            proof {
                assert(rv.model()->Obj_0 =~~= spec_obj_props(pm, pm.len() as int));
            }
            Some(rv)
        },
        JsExpr::CallExpr { callee, args } => {
            let is_json_parse = match callee {
                JsCallee::Member { obj: Some(o), prop: Some(p) } => {
                    let oc = to_chars(o.as_str());
                    let pc = to_chars(p.as_str());
                    let jn = to_chars("JSON");
                    let pr = to_chars("parse");
                    crate::json::eq_chars(&oc, &jn) && crate::json::eq_chars(&pc, &pr)
                },
                _ => false,
            };
            if is_json_parse && args.len() >= 1 {
                match &args[0] {
                    JsExpr::StrLit(s) => json_parse(s.as_str()),
                    _ => None,
                }
            } else {
                None
            }
        },
        JsExpr::Neg(inner) => {
            match &**inner {
                JsExpr::NumLit(n) => {
                    let tc = to_chars(n.neg_text.as_str());
                    match parse_i64(&tc) {
                        Some(i) => Some(JsonValue::Int(i)),
                        None => match &n.neg_json {
                            Some(t) => Some(JsonValue::Num(crate::json::clone_string(t))),
                            None => None,
                        },
                    }
                },
                _ => None,
            }
        },
        JsExpr::TplLit { has_exprs, raw } => {
            if !*has_exprs {
                match raw {
                    Some(r) => Some(JsonValue::Str(crate::json::clone_string(r))),
                    None => None,
                }
            } else {
                None
            }
        },
        _ => None,
    }
}

/// Apply one statement's bindings to the variable map.
pub fn apply_stmt(st: &JsStmt, out: &mut Vec<(String, JsonValue)>)
    ensures
        spec_obj_fields(final(out)@) == spec_bind_fold(
            spec_obj_fields(old(out)@),
            spec_stmt_binds(*st),
            spec_stmt_binds(*st).len() as int,
        ),
{
    let ghost m0 = spec_obj_fields(out@);
    let ghost bs = spec_stmt_binds(*st);
    match st {
        JsStmt::VarDecl(decls) => {
            let ghost dm = decls@;
            let mut i: usize = 0;
            while i < decls.len()
                invariant
                    i <= dm.len(),
                    dm == decls@,
                    bs == spec_stmt_binds(*st),
                    spec_obj_fields(out@) == spec_bind_fold(
                        m0,
                        spec_decl_binds(dm, i as int),
                        spec_decl_binds(dm, i as int).len() as int,
                    ),
                decreases dm.len() - i,
            {
                let ghost prev = spec_decl_binds(dm, i as int);
                match &decls[i] {
                    (Some(name), Some(init)) => {
                        match eval_expr(init) {
                            Some(v) => {
                                let nc = to_chars(name.as_str());
                                map_set(out, &nc, v);
                                proof {
                                    assert(spec_decl_binds(dm, i + 1) == prev.push(
                                        (name@, spec_expr_json(dm[i as int].1->Some_0)->Some_0),
                                    ));
                                    lemma_bind_fold_prefix(m0, spec_decl_binds(dm, i + 1), prev);
                                }
                            },
                            None => {
                                proof {
                                    assert(spec_decl_binds(dm, i + 1) == prev);
                                }
                            },
                        }
                    },
                    _ => {
                        proof {
                            assert(spec_decl_binds(dm, i + 1) == prev);
                        }
                    },
                }
                i = i + 1;
            }
            proof {
                assert(spec_decl_binds(dm, dm.len() as int) == bs);
            }
        },
        JsStmt::Assign { target, value } => {
            proof {
                reveal_strlit("window");
            }
            match eval_expr(value) {
                Some(v) => {
                    let ghost vm = v.model();
                    match target {
                        JsTarget::Ident(name) => {
                            let nc = to_chars(name.as_str());
                            map_set(out, &nc, v);
                            proof {
                                assert(bs =~= seq![(name@, vm)]);
                                assert(bs.len() == 1 && bs[0] == (name@, vm));
                                assert(spec_bind_fold(m0, bs, 0) == m0);
                                assert(spec_bind_fold(m0, bs, 1) == spec_map_set(m0, name@, vm));
                            }
                        },
                        JsTarget::MemberProp { obj: Some(o), prop: Some(p) } => {
                            let oc = to_chars(o.as_str());
                            let wn = to_chars("window");
                            if crate::json::eq_chars(&oc, &wn) {
                                let pc = to_chars(p.as_str());
                                map_set(out, &pc, v);
                                proof {
                                    assert(bs =~= seq![(p@, vm)]);
                                    assert(bs.len() == 1 && bs[0] == (p@, vm));
                                    assert(spec_bind_fold(m0, bs, 0) == m0);
                                    assert(spec_bind_fold(m0, bs, 1) == spec_map_set(m0, p@, vm));
                                }
                            } else {
                                proof {
                                    assert(bs =~= Seq::<(Seq<char>, JsonModel)>::empty());
                                }
                            }
                        },
                        _ => {
                            proof {
                                assert(bs =~= Seq::<(Seq<char>, JsonModel)>::empty());
                            }
                        },
                    }
                },
                None => {
                    proof {
                        assert(bs =~= Seq::<(Seq<char>, JsonModel)>::empty());
                    }
                },
            }
        },
        _ => {
            proof {
                assert(bs =~= Seq::<(Seq<char>, JsonModel)>::empty());
            }
        },
    }
}

/// A bindings fold up to a prefix length only reads the prefix.
proof fn lemma_bind_fold_prefix(
    m: Seq<(Seq<char>, JsonModel)>,
    q: Seq<(Seq<char>, JsonModel)>,
    p: Seq<(Seq<char>, JsonModel)>,
)
    requires
        p.len() <= q.len(),
        forall|k: int| 0 <= k < p.len() ==> q[k] == p[k],
    ensures
        spec_bind_fold(m, q, p.len() as int) == spec_bind_fold(m, p, p.len() as int),
    decreases p.len(),
{
    if p.len() > 0 {
        lemma_bind_fold_prefix(m, q, p.drop_last());
        lemma_bind_fold_prefix(m, p, p.drop_last());
    }
}

/// The variable bindings of one script source, later writers winning;
/// nothing when the source does not parse.
pub fn script_bindings(src: &str, out: &mut Vec<(String, JsonValue)>)
    ensures
        spec_obj_fields(final(out)@) == (match spec_js_parse(src@) {
            Some(stmts) => spec_stmts_binds(spec_obj_fields(old(out)@), stmts, stmts.len() as int),
            None => spec_obj_fields(old(out)@),
        }),
{
    let ghost m0 = spec_obj_fields(out@);
    match parse_stmts(src) {
        Some(stmts) => {
            let ghost sm = spec_js_parse(src@)->Some_0;
            let mut i: usize = 0;
            while i < stmts.len()
                invariant
                    i <= stmts@.len(),
                    sm.len() == stmts@.len(),
                    forall|k: int| 0 <= k < stmts@.len() ==> sm[k] == spec_stmt_model(stmts@[k]),
                    spec_obj_fields(out@) == spec_stmts_binds(m0, sm, i as int),
                decreases stmts@.len() - i,
            {
                let st = conv_stmt(&stmts[i]);
                apply_stmt(&st, out);
                i = i + 1;
            }
        },
        None => {
        },
    }
}

/// Whether a source parses as a script.
pub fn parse_check(src: &str) -> (r: bool)
    ensures
        r == (spec_js_parse(src@) is Some),
{
    match parse_stmts(src) {
        Some(_) => true,
        None => false,
    }
}

/// The variable map over the first `n` elements of a document: each
/// script with no `type` or `type="text/javascript"` contributes its
/// bindings, later scripts winning.
pub open spec fn spec_js_state(doms: Seq<ElemShape>, n: int) -> Seq<(Seq<char>, JsonModel)>
    decreases n,
{
    if n <= 0 || n > doms.len() {
        Seq::empty()
    } else {
        let m = spec_js_state(doms, n - 1);
        let e = doms[n - 1];
        if e.tag == "script"@ && (spec_attr(e.attrs, "type"@) is None || spec_attr(e.attrs, "type"@)
            == Some("text/javascript"@)) {
            match spec_js_parse(e.text) {
                Some(stmts) => spec_stmts_binds(m, stmts, stmts.len() as int),
                None => m,
            }
        } else {
            m
        }
    }
}

/// The variable map of an HTML document.
pub open spec fn spec_js_index(html: Seq<char>) -> Seq<(Seq<char>, JsonModel)> {
    spec_js_state(spec_dom(html), spec_dom(html).len() as int)
}

/// The variable map over an already parsed element list.
pub fn js_index_of_dom(doms: &Vec<ElemRec>) -> (r: Vec<(String, JsonValue)>)
    ensures
        spec_obj_fields(r@) == spec_js_state(spec_shapes(doms@), doms@.len() as int),
{
    let ghost dm = spec_shapes(doms@);
    let script_tag = to_chars("script");
    let type_attr = to_chars("type");
    let js_type = to_chars("text/javascript");
    proof {
        reveal_strlit("script");
        reveal_strlit("type");
        reveal_strlit("text/javascript");
    }
    let mut out: Vec<(String, JsonValue)> = Vec::new();
    proof {
        assert(spec_obj_fields(out@) =~= spec_js_state(dm, 0));
    }
    let mut i: usize = 0;
    while i < doms.len()
        invariant
            i <= doms@.len(),
            dm == spec_shapes(doms@),
            script_tag@ == "script"@,
            type_attr@ == "type"@,
            js_type@ == "text/javascript"@,
            spec_obj_fields(out@) == spec_js_state(dm, i as int),
        decreases doms@.len() - i,
    {
        if doms[i].has_tag(&script_tag) {
            let is_candidate = match doms[i].attr(&type_attr) {
                Some(t) => {
                    let tc = to_chars(t.as_str());
                    crate::json::eq_chars(&tc, &js_type)
                },
                None => true,
            };
            if is_candidate {
                script_bindings(doms[i].text.as_str(), &mut out);
            }
        }
        i = i + 1;
    }
    out
}

/// The JavaScript variable bindings of an HTML document.
pub fn extract_js_variables(html: &str) -> (r: Vec<(String, JsonValue)>)
    ensures
        spec_obj_fields(r@) == spec_js_index(html@),
{
    let doms = dom_elements(html);
    js_index_of_dom(&doms)
}

} // verus!
