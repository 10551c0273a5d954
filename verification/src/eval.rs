use vstd::prelude::*;
use std::rc::Rc;
use crate::env::Env;
use crate::env::FrameModel;
use crate::env::assoc;
use crate::env::env_wf;
use crate::env::frame_alive;
use crate::env::frame_ok;
use crate::env::lookup_in;
use crate::error::ARITY;
use crate::error::DEFINE_MALFORMED;
use crate::error::DialError;
use crate::error::IF_MALFORMED;
use crate::error::LAMBDA_MALFORMED;
use crate::error::MALFORMED_LIST;
use crate::error::NOT_A_PAIR;
use crate::error::NOT_A_PROCEDURE;
use crate::error::NOT_A_SYMBOL;
use crate::error::NOT_EVALUABLE;
use crate::error::RECURSION_LIMIT;
use crate::error::SCOPE_GONE;
use crate::error::UNBOUND_SYMBOL;
use crate::builtins::spec_add;
use crate::object::BuiltinKind;
use crate::object::Keyword;
use crate::object::ObjModel;
use crate::object::Object;
use crate::object::ProcModel;
use crate::object::Procedure;
use crate::object::height;
use crate::object::heights;
use crate::object::list_model;
use crate::object::rc_res_matches;
use crate::object::proc_view;
use crate::object::spec_car;
use crate::object::truthy;

verus! {

// ---------------------------------------------------------------------------
// The specification interpreter.  Every executable function below is proved
// to return exactly what these functions say, including the exact final
// state of the environment store.  `fuel` bounds the depth of procedure
// calls: each lambda activation consumes one unit, and exhaustion reports
// `RECURSION_LIMIT`; everything else is independent of `fuel`.
// ---------------------------------------------------------------------------

/// The outcome of one evaluation: the value or error, and the environment
/// store as it stands afterwards.
pub ghost struct EvalOut {
    pub result: Result<ObjModel, DialError>,
    pub env: Seq<FrameModel>,
}

/// Binds the parameter names to the operands, left to right; any parameter
/// that is not a symbol fails with `NOT_A_SYMBOL`.
pub open spec fn spec_bind(
    m: Map<Seq<char>, ObjModel>,
    ps: Seq<ObjModel>,
    args: Seq<ObjModel>,
) -> Result<Map<Seq<char>, ObjModel>, DialError>
    decreases ps.len(),
{
    if ps.len() == 0 {
        Ok(m)
    } else {
        match ps[0] {
            ObjModel::Sym(s) => spec_bind(m.insert(s, args[0]), ps.drop_first(), args.drop_first()),
            _ => Err(DialError { code: NOT_A_SYMBOL }),
        }
    }
}

pub open spec fn spec_eval(env: Seq<FrameModel>, f: int, e: ObjModel, fuel: nat) -> EvalOut
    decreases fuel, height(e), 3int,
{
    match e {
        ObjModel::Sym(s) => EvalOut {
            result: match lookup_in(env, f, s) {
                Some(v) => Ok(v),
                None => Err(DialError { code: UNBOUND_SYMBOL }),
            },
            env,
        },
        ObjModel::Boolean(_) => EvalOut { result: Ok(e), env },
        ObjModel::ByteVector => EvalOut { result: Ok(e), env },
        ObjModel::Char(_) => EvalOut { result: Ok(e), env },
        ObjModel::Null => EvalOut { result: Ok(e), env },
        ObjModel::Num(_) => EvalOut { result: Ok(e), env },
        ObjModel::Str(_) => EvalOut { result: Ok(e), env },
        ObjModel::Vector => EvalOut { result: Ok(e), env },
        ObjModel::Pair(car, cdr) => match *car {
            ObjModel::Kw(Keyword::Quote) => EvalOut { result: spec_car(*cdr), env },
            ObjModel::Kw(Keyword::If) => spec_eval_if(env, f, *cdr, fuel),
            ObjModel::Kw(Keyword::Lambda) => spec_eval_lambda(env, f, *cdr),
            ObjModel::Kw(Keyword::Define) => spec_eval_define(env, f, *cdr, fuel),
            _ => {
                let o1 = spec_eval(env, f, *car, fuel);
                match o1.result {
                    Err(err) => EvalOut { result: Err(err), env: o1.env },
                    Ok(p) => {
                        let o2 = spec_evlis(o1.env, f, *cdr, fuel);
                        match o2.result {
                            Err(err) => EvalOut { result: Err(err), env: o2.env },
                            Ok(ops) => spec_apply_obj(o2.env, p, ops, fuel),
                        }
                    },
                }
            },
        },
        _ => EvalOut { result: Err(DialError { code: NOT_EVALUABLE }), env },
    }
}

/// Operand evaluation: a proper-list map in strict left-to-right order;
/// errors short-circuit.  A non-pair tail ends the list.
pub open spec fn spec_evlis(env: Seq<FrameModel>, f: int, e: ObjModel, fuel: nat) -> EvalOut
    decreases fuel, height(e), 4int,
{
    match e {
        ObjModel::Pair(car, cdr) => {
            let o1 = spec_eval(env, f, *car, fuel);
            match o1.result {
                Err(err) => EvalOut { result: Err(err), env: o1.env },
                Ok(v) => {
                    let o2 = spec_evlis(o1.env, f, *cdr, fuel);
                    match o2.result {
                        Err(err) => EvalOut { result: Err(err), env: o2.env },
                        Ok(rest) => EvalOut {
                            result: Ok(ObjModel::Pair(Box::new(v), Box::new(rest))),
                            env: o2.env,
                        },
                    }
                },
            }
        },
        _ => EvalOut { result: Ok(ObjModel::Null), env },
    }
}

/// The `if` form, applied to the form's operand list: evaluate the
/// predicate; when truthy take the consequent, otherwise the alternate.
pub open spec fn spec_eval_if(env: Seq<FrameModel>, f: int, e: ObjModel, fuel: nat) -> EvalOut
    decreases fuel, height(e), 4int,
    via spec_eval_if_dec
{
    match e {
        ObjModel::Pair(pred, rest) => {
            let o1 = spec_eval(env, f, *pred, fuel);
            match o1.result {
                Err(err) => EvalOut { result: Err(err), env: o1.env },
                Ok(pv) => match *rest {
                    ObjModel::Pair(conseq, altl) => if truthy(pv) {
                        spec_eval(o1.env, f, *conseq, fuel)
                    } else {
                        spec_eval_antecedent(o1.env, f, *altl, fuel)
                    },
                    _ => EvalOut { result: Err(DialError { code: IF_MALFORMED }), env: o1.env },
                },
            }
        },
        _ => EvalOut { result: Err(DialError { code: IF_MALFORMED }), env },
    }
}

#[via_fn]
proof fn spec_eval_if_dec(env: Seq<FrameModel>, f: int, e: ObjModel, fuel: nat) {
    match e {
        ObjModel::Pair(pred, rest) => {
            match *rest {
                ObjModel::Pair(conseq, altl) => {
                    assert(height(e) == 1 + height(*pred) + height(*rest));
                    assert(height(*rest) == 1 + height(*conseq) + height(*altl));
                },
                _ => {},
            }
        },
        _ => {},
    }
}

/// The alternate arm of an `if`: the head of the remaining operand list; a
/// two-armed `if` whose predicate was false has none and is malformed.
pub open spec fn spec_eval_antecedent(
    env: Seq<FrameModel>,
    f: int,
    e: ObjModel,
    fuel: nat,
) -> EvalOut
    decreases fuel, height(e), 4int,
{
    match e {
        ObjModel::Pair(alt, _) => spec_eval(env, f, *alt, fuel),
        _ => EvalOut { result: Err(DialError { code: IF_MALFORMED }), env },
    }
}

/// The `lambda` form: a closure over the current frame; nothing is
/// evaluated.
pub open spec fn spec_eval_lambda(env: Seq<FrameModel>, f: int, e: ObjModel) -> EvalOut {
    match e {
        ObjModel::Pair(params, body) => EvalOut {
            result: Ok(ObjModel::Proc(ProcModel::Lambda(params, body, f as usize))),
            env,
        },
        _ => EvalOut { result: Err(DialError { code: LAMBDA_MALFORMED }), env },
    }
}

/// The `define` form: the first operand must be a symbol; the second operand
/// is evaluated in the current frame and the symbol bound to the result in
/// that frame alone.  The result is `Unspecified`.
pub open spec fn spec_eval_define(env: Seq<FrameModel>, f: int, e: ObjModel, fuel: nat) -> EvalOut
    decreases fuel, height(e), 4int,
    via spec_eval_define_dec
{
    match e {
        ObjModel::Pair(sym, rest) => match *sym {
            ObjModel::Sym(s) => match *rest {
                ObjModel::Pair(vexpr, _) => {
                    let o1 = spec_eval(env, f, *vexpr, fuel);
                    match o1.result {
                        Err(err) => EvalOut { result: Err(err), env: o1.env },
                        Ok(v) => EvalOut {
                            result: Ok(ObjModel::Unspecified),
                            env: if frame_ok(o1.env, f) {
                                o1.env.update(
                                    f,
                                    FrameModel { map: o1.env[f].map.insert(s, v), ..o1.env[f] },
                                )
                            } else {
                                o1.env
                            },
                        },
                    }
                },
                _ => EvalOut { result: Err(DialError { code: NOT_A_PAIR }), env },
            },
            _ => EvalOut { result: Err(DialError { code: DEFINE_MALFORMED }), env },
        },
        _ => EvalOut { result: Err(DialError { code: DEFINE_MALFORMED }), env },
    }
}

#[via_fn]
proof fn spec_eval_define_dec(env: Seq<FrameModel>, f: int, e: ObjModel, fuel: nat) {
    match e {
        ObjModel::Pair(sym, rest) => {
            match *rest {
                ObjModel::Pair(vexpr, tail) => {
                    assert(height(e) == 1 + height(*sym) + height(*rest));
                    assert(height(*rest) == 1 + height(*vexpr) + height(*tail));
                },
                _ => {},
            }
        },
        _ => {},
    }
}

/// Application of an evaluated operator to an evaluated operand list.
pub open spec fn spec_apply_obj(
    env: Seq<FrameModel>,
    p: ObjModel,
    ops: ObjModel,
    fuel: nat,
) -> EvalOut
    decreases fuel, 0int, 2int,
{
    match list_model(ops) {
        None => EvalOut { result: Err(DialError { code: MALFORMED_LIST }), env },
        Some(args) => match p {
            ObjModel::Proc(pm) => spec_call(env, pm, args, fuel),
            _ => EvalOut { result: Err(DialError { code: NOT_A_PROCEDURE }), env },
        },
    }
}

/// Invocation of a procedure on an operand sequence.  A builtin computes
/// directly.  A lambda needs fuel, a captured frame that is still alive, a
/// proper parameter list of symbols of matching arity, and a proper body
/// list; its body then runs in a fresh frame chained to the captured one,
/// and that frame is retired when the call returns.
pub open spec fn spec_call(
    env: Seq<FrameModel>,
    pm: ProcModel,
    args: Seq<ObjModel>,
    fuel: nat,
) -> EvalOut
    decreases fuel, 0int, 1int,
{
    match pm {
        ProcModel::Builtin(BuiltinKind::Add) => EvalOut { result: spec_add(args), env },
        ProcModel::Lambda(params, body, fcap) => {
            if fuel == 0 {
                EvalOut { result: Err(DialError { code: RECURSION_LIMIT }), env }
            } else if !frame_alive(env, fcap as int) {
                EvalOut { result: Err(DialError { code: SCOPE_GONE }), env }
            } else {
                match list_model(*params) {
                    None => EvalOut { result: Err(DialError { code: MALFORMED_LIST }), env },
                    Some(ps) => if ps.len() != args.len() {
                        EvalOut { result: Err(DialError { code: ARITY }), env }
                    } else {
                        match spec_bind(Map::<Seq<char>, ObjModel>::empty(), ps, args) {
                            Err(err) => EvalOut { result: Err(err), env },
                            Ok(m) => match list_model(*body) {
                                None => EvalOut {
                                    result: Err(DialError { code: MALFORMED_LIST }),
                                    env,
                                },
                                Some(es) => {
                                    let idx = env.len() as int;
                                    let env1 = env.push(
                                        FrameModel { parent: Some(fcap), alive: true, map: m },
                                    );
                                    let o = spec_eval_elems(env1, idx, es, (fuel - 1) as nat);
                                    let env2 = if 0 <= idx < o.env.len() {
                                        o.env.update(
                                            idx,
                                            FrameModel { alive: false, ..o.env[idx] },
                                        )
                                    } else {
                                        o.env
                                    };
                                    EvalOut { result: o.result, env: env2 }
                                },
                            },
                        }
                    },
                }
            }
        },
    }
}

/// A body: the expressions evaluated in order, the value of the last one
/// returned; an empty body yields `Unspecified`.
pub open spec fn spec_eval_elems(
    env: Seq<FrameModel>,
    f: int,
    es: Seq<ObjModel>,
    fuel: nat,
) -> EvalOut
    decreases fuel, heights(es), 0int,
{
    if es.len() == 0 {
        EvalOut { result: Ok(ObjModel::Unspecified), env }
    } else {
        let o1 = spec_eval(env, f, es[0], fuel);
        match o1.result {
            Err(err) => EvalOut { result: Err(err), env: o1.env },
            Ok(v) => if es.len() == 1 {
                EvalOut { result: Ok(v), env: o1.env }
            } else {
                spec_eval_elems(o1.env, f, es.drop_first(), fuel)
            },
        }
    }
}

// ---------------------------------------------------------------------------
// Evaluation only ever grows the store, changes maps, and retires frames it
// created itself: the frames that existed before keep their parent link and
// their liveness, and well-formedness is preserved.
// ---------------------------------------------------------------------------

/// How one environment store may evolve into another across an evaluation.
pub open spec fn env_evolves(env: Seq<FrameModel>, env2: Seq<FrameModel>) -> bool {
    &&& env2.len() >= env.len()
    &&& forall|i: int|
        0 <= i < env.len() ==> (#[trigger] env2[i]).parent == env[i].parent && env2[i].alive
            == env[i].alive
    &&& (env_wf(env) ==> env_wf(env2))
}

pub proof fn lemma_evolves_trans(a: Seq<FrameModel>, b: Seq<FrameModel>, c: Seq<FrameModel>)
    requires
        env_evolves(a, b),
        env_evolves(b, c),
    ensures
        env_evolves(a, c),
{
}

pub proof fn lemma_eval_evolves(env: Seq<FrameModel>, f: int, e: ObjModel, fuel: nat)
    ensures
        env_evolves(env, spec_eval(env, f, e, fuel).env),
    decreases fuel, height(e), 3int,
{
    match e {
        ObjModel::Pair(car, cdr) => match *car {
            ObjModel::Kw(Keyword::Quote) => {},
            ObjModel::Kw(Keyword::If) => {
                lemma_eval_if_evolves(env, f, *cdr, fuel);
            },
            ObjModel::Kw(Keyword::Lambda) => {},
            ObjModel::Kw(Keyword::Define) => {
                lemma_eval_define_evolves(env, f, *cdr, fuel);
            },
            _ => {
                lemma_eval_evolves(env, f, *car, fuel);
                let o1 = spec_eval(env, f, *car, fuel);
                if o1.result is Ok {
                    lemma_evlis_evolves(o1.env, f, *cdr, fuel);
                    let o2 = spec_evlis(o1.env, f, *cdr, fuel);
                    lemma_evolves_trans(env, o1.env, o2.env);
                    if o2.result is Ok {
                        lemma_apply_evolves(o2.env, o1.result.unwrap(), o2.result.unwrap(), fuel);
                        lemma_evolves_trans(env, o2.env, spec_apply_obj(
                            o2.env,
                            o1.result.unwrap(),
                            o2.result.unwrap(),
                            fuel,
                        ).env);
                    }
                }
            },
        },
        _ => {},
    }
}

pub proof fn lemma_evlis_evolves(env: Seq<FrameModel>, f: int, e: ObjModel, fuel: nat)
    ensures
        env_evolves(env, spec_evlis(env, f, e, fuel).env),
    decreases fuel, height(e), 4int,
{
    match e {
        ObjModel::Pair(car, cdr) => {
            lemma_eval_evolves(env, f, *car, fuel);
            let o1 = spec_eval(env, f, *car, fuel);
            if o1.result is Ok {
                lemma_evlis_evolves(o1.env, f, *cdr, fuel);
                lemma_evolves_trans(env, o1.env, spec_evlis(o1.env, f, *cdr, fuel).env);
            }
        },
        _ => {},
    }
}

pub proof fn lemma_eval_if_evolves(env: Seq<FrameModel>, f: int, e: ObjModel, fuel: nat)
    ensures
        env_evolves(env, spec_eval_if(env, f, e, fuel).env),
    decreases fuel, height(e), 4int,
{
    match e {
        ObjModel::Pair(pred, rest) => {
            lemma_eval_evolves(env, f, *pred, fuel);
            let o1 = spec_eval(env, f, *pred, fuel);
            if o1.result is Ok {
                match *rest {
                    ObjModel::Pair(conseq, altl) => {
                        assert(height(e) == 1 + height(*pred) + height(*rest));
                        assert(height(*rest) == 1 + height(*conseq) + height(*altl));
                        if truthy(o1.result.unwrap()) {
                            lemma_eval_evolves(o1.env, f, *conseq, fuel);
                            lemma_evolves_trans(env, o1.env, spec_eval(
                                o1.env,
                                f,
                                *conseq,
                                fuel,
                            ).env);
                        } else {
                            lemma_eval_antecedent_evolves(o1.env, f, *altl, fuel);
                            lemma_evolves_trans(env, o1.env, spec_eval_antecedent(
                                o1.env,
                                f,
                                *altl,
                                fuel,
                            ).env);
                        }
                    },
                    _ => {},
                }
            }
        },
        _ => {},
    }
}

pub proof fn lemma_eval_antecedent_evolves(env: Seq<FrameModel>, f: int, e: ObjModel, fuel: nat)
    ensures
        env_evolves(env, spec_eval_antecedent(env, f, e, fuel).env),
    decreases fuel, height(e), 4int,
{
    match e {
        ObjModel::Pair(alt, _) => {
            lemma_eval_evolves(env, f, *alt, fuel);
        },
        _ => {},
    }
}

pub proof fn lemma_eval_define_evolves(env: Seq<FrameModel>, f: int, e: ObjModel, fuel: nat)
    ensures
        env_evolves(env, spec_eval_define(env, f, e, fuel).env),
    decreases fuel, height(e), 4int,
{
    match e {
        ObjModel::Pair(sym, rest) => match *sym {
            ObjModel::Sym(s) => match *rest {
                ObjModel::Pair(vexpr, _) => {
                    assert(height(e) == 1 + height(*sym) + height(*rest));
                    assert(height(*vexpr) < height(*rest));
                    lemma_eval_evolves(env, f, *vexpr, fuel);
                    let o1 = spec_eval(env, f, *vexpr, fuel);
                    if o1.result is Ok && frame_ok(o1.env, f) {
                        let env2 = o1.env.update(
                            f,
                            FrameModel {
                                map: o1.env[f].map.insert(s, o1.result.unwrap()),
                                ..o1.env[f]
                            },
                        );
                        assert(env_evolves(o1.env, env2));
                        lemma_evolves_trans(env, o1.env, env2);
                    }
                },
                _ => {},
            },
            _ => {},
        },
        _ => {},
    }
}

pub proof fn lemma_apply_evolves(env: Seq<FrameModel>, p: ObjModel, ops: ObjModel, fuel: nat)
    ensures
        env_evolves(env, spec_apply_obj(env, p, ops, fuel).env),
    decreases fuel, 0int, 2int,
{
    match list_model(ops) {
        None => {},
        Some(args) => match p {
            ObjModel::Proc(pm) => {
                lemma_call_evolves(env, pm, args, fuel);
            },
            _ => {},
        },
    }
}

pub proof fn lemma_call_evolves(env: Seq<FrameModel>, pm: ProcModel, args: Seq<ObjModel>, fuel: nat)
    ensures
        env_evolves(env, spec_call(env, pm, args, fuel).env),
    decreases fuel, 0int, 1int,
{
    match pm {
        ProcModel::Builtin(BuiltinKind::Add) => {},
        ProcModel::Lambda(params, body, fcap) => {
            if fuel == 0 || !frame_alive(env, fcap as int) {
            } else {
                match list_model(*params) {
                    None => {},
                    Some(ps) => {
                        if ps.len() != args.len() {
                        } else {
                            match spec_bind(Map::<Seq<char>, ObjModel>::empty(), ps, args) {
                                Err(_) => {},
                                Ok(m) => match list_model(*body) {
                                    None => {},
                                    Some(es) => {
                                        let idx = env.len() as int;
                                        let env1 = env.push(
                                            FrameModel {
                                                parent: Some(fcap),
                                                alive: true,
                                                map: m,
                                            },
                                        );
                                        assert(env_evolves(env, env1));
                                        lemma_elems_evolves(env1, idx, es, (fuel - 1) as nat);
                                        let o = spec_eval_elems(env1, idx, es, (fuel - 1) as nat);
                                        lemma_evolves_trans(env, env1, o.env);
                                        if 0 <= idx < o.env.len() {
                                            let env2 = o.env.update(
                                                idx,
                                                FrameModel { alive: false, ..o.env[idx] },
                                            );
                                            assert(env_evolves(env, env2));
                                        }
                                    },
                                },
                            }
                        }
                    },
                }
            }
        },
    }
}

pub proof fn lemma_elems_evolves(env: Seq<FrameModel>, f: int, es: Seq<ObjModel>, fuel: nat)
    ensures
        env_evolves(env, spec_eval_elems(env, f, es, fuel).env),
    decreases fuel, heights(es), 0int,
{
    if es.len() == 0 {
    } else {
        lemma_eval_evolves(env, f, es[0], fuel);
        let o1 = spec_eval(env, f, es[0], fuel);
        if o1.result is Ok && es.len() > 1 {
            lemma_elems_evolves(o1.env, f, es.drop_first(), fuel);
            lemma_evolves_trans(env, o1.env, spec_eval_elems(o1.env, f, es.drop_first(), fuel).env);
        }
    }
}

// ---------------------------------------------------------------------------
// The executable evaluator.  Each function returns exactly what its
// specification counterpart says, on the exact final environment store.
// ---------------------------------------------------------------------------

impl Object {
    /// Evaluates `expr` in frame `frame`: symbols resolve in the lexical
    /// chain, atoms yield themselves, pairs dispatch on the head to the four
    /// special forms or to procedure application.
    pub fn eval(expr: &Rc<Object>, env: &mut Env, frame: usize, fuel: u64) -> (r: Result<
        Rc<Object>,
        DialError,
    >)
        requires
            old(env).wf(),
            (frame as int) < old(env)@.len(),
        ensures
            ({
                let o = spec_eval(old(env)@, frame as int, expr@, fuel as nat);
                final(env)@ == o.env && rc_res_matches(r, o.result) && final(env).wf() && final(env)@.len() >= old(env)@.len()
            }),
        decreases fuel, height(expr@), 3int,
    {
        proof {
            lemma_eval_evolves(env@, frame as int, expr@, fuel as nat);
        }
        match &**expr {
            Object::Symbol(s) => match env.lookup(frame, s) {
                Some(object) => Ok(object),
                None => Err(DialError::new(UNBOUND_SYMBOL)),
            },
            Object::Boolean(_) => Ok(Object::self_eval(expr)),
            Object::ByteVector => Ok(Object::self_eval(expr)),
            Object::Char(_) => Ok(Object::self_eval(expr)),
            Object::Null => Ok(Object::self_eval(expr)),
            Object::Number(_) => Ok(Object::self_eval(expr)),
            Object::Str(_) => Ok(Object::self_eval(expr)),
            Object::Vector => Ok(Object::self_eval(expr)),
            Object::Pair(car, cdr) => match &**car {
                Object::Keyword(Keyword::Quote) => (&**cdr).car(),
                Object::Keyword(Keyword::If) => Object::eval_if(cdr, env, frame, fuel),
                Object::Keyword(Keyword::Lambda) => Object::eval_lambda(cdr, env, frame),
                Object::Keyword(Keyword::Define) => Object::eval_define(cdr, env, frame, fuel),
                _ => {
                    let p = Object::eval(car, env, frame, fuel)?;
                    proof {
                        lemma_eval_evolves(old(env)@, frame as int, car@, fuel as nat);
                    }
                    let ops = Object::evlis(cdr, env, frame, fuel)?;
                    (&*p).apply(ops, env, fuel)
                },
            },
            _ => Err(DialError::new(NOT_EVALUABLE)),
        }
    }

    /// Evaluates each element of an operand list, left to right, and returns
    /// the freshly built proper list of the results.
    pub fn evlis(expr: &Rc<Object>, env: &mut Env, frame: usize, fuel: u64) -> (r: Result<
        Rc<Object>,
        DialError,
    >)
        requires
            old(env).wf(),
            (frame as int) < old(env)@.len(),
        ensures
            ({
                let o = spec_evlis(old(env)@, frame as int, expr@, fuel as nat);
                final(env)@ == o.env && rc_res_matches(r, o.result) && final(env).wf() && final(env)@.len() >= old(env)@.len()
            }),
        decreases fuel, height(expr@), 4int,
    {
        proof {
            lemma_evlis_evolves(env@, frame as int, expr@, fuel as nat);
        }
        match &**expr {
            Object::Pair(car, cdr) => {
                let v = Object::eval(car, env, frame, fuel)?;
                proof {
                    lemma_eval_evolves(old(env)@, frame as int, car@, fuel as nat);
                }
                let rest = Object::evlis(cdr, env, frame, fuel)?;
                Ok(Object::cons(v, rest))
            },
            _ => Ok(Rc::new(Object::Null)),
        }
    }

    /// The `if` form, handed the form's operand list.
    pub fn eval_if(expr: &Rc<Object>, env: &mut Env, frame: usize, fuel: u64) -> (r: Result<
        Rc<Object>,
        DialError,
    >)
        requires
            old(env).wf(),
            (frame as int) < old(env)@.len(),
        ensures
            ({
                let o = spec_eval_if(old(env)@, frame as int, expr@, fuel as nat);
                final(env)@ == o.env && rc_res_matches(r, o.result) && final(env).wf() && final(env)@.len() >= old(env)@.len()
            }),
        decreases fuel, height(expr@), 4int,
    {
        proof {
            lemma_eval_if_evolves(env@, frame as int, expr@, fuel as nat);
        }
        match &**expr {
            Object::Pair(pred, rest) => {
                let pv = Object::eval(pred, env, frame, fuel)?;
                proof {
                    lemma_eval_evolves(old(env)@, frame as int, pred@, fuel as nat);
                }
                let predicate = (&*pv).is_true();
                match &**rest {
                    Object::Pair(conseq, altl) => {
                        proof {
                            assert(height(expr@) == 1 + height(pred@) + height(rest@));
                            assert(height(rest@) == 1 + height(conseq@) + height(altl@));
                        }
                        if predicate {
                            Object::eval(conseq, env, frame, fuel)
                        } else {
                            Object::eval_antecedent(altl, env, frame, fuel)
                        }
                    },
                    _ => Err(DialError::new(IF_MALFORMED)),
                }
            },
            _ => Err(DialError::new(IF_MALFORMED)),
        }
    }

    /// The alternate arm of an `if` form.
    pub fn eval_antecedent(expr: &Rc<Object>, env: &mut Env, frame: usize, fuel: u64) -> (r: Result<
        Rc<Object>,
        DialError,
    >)
        requires
            old(env).wf(),
            (frame as int) < old(env)@.len(),
        ensures
            ({
                let o = spec_eval_antecedent(old(env)@, frame as int, expr@, fuel as nat);
                final(env)@ == o.env && rc_res_matches(r, o.result) && final(env).wf() && final(env)@.len() >= old(env)@.len()
            }),
        decreases fuel, height(expr@), 4int,
    {
        proof {
            lemma_eval_antecedent_evolves(env@, frame as int, expr@, fuel as nat);
        }
        match &**expr {
            Object::Pair(antecedent, _) => Object::eval(antecedent, env, frame, fuel),
            _ => Err(DialError::new(IF_MALFORMED)),
        }
    }

    /// The `lambda` form: a closure over the current frame.
    pub fn eval_lambda(expr: &Rc<Object>, env: &mut Env, frame: usize) -> (r: Result<
        Rc<Object>,
        DialError,
    >)
        requires
            old(env).wf(),
            (frame as int) < old(env)@.len(),
        ensures
            ({
                let o = spec_eval_lambda(old(env)@, frame as int, expr@);
                final(env)@ == o.env && rc_res_matches(r, o.result) && final(env).wf() && final(env)@.len() >= old(env)@.len()
            }),
    {
        match &**expr {
            Object::Pair(car, cdr) => {
                let p = Rc::new(
                    Object::Procedure(Procedure::Lambda(car.clone(), cdr.clone(), frame)),
                );
                proof {
                    assert(*p == Object::Procedure(Procedure::Lambda(*car, *cdr, frame)));
                    assert(proc_view(Procedure::Lambda(*car, *cdr, frame))
                        == ProcModel::Lambda(Box::new(car@), Box::new(cdr@), frame));
                    assert(p@ == ObjModel::Proc(
                        ProcModel::Lambda(Box::new(car@), Box::new(cdr@), frame),
                    ));
                    assert(expr@ == ObjModel::Pair(Box::new(car@), Box::new(cdr@)));
                }
                Ok(p)
            },
            _ => Err(DialError::new(LAMBDA_MALFORMED)),
        }
    }

    /// The `define` form, handed the form's operand list.
    pub fn eval_define(expr: &Rc<Object>, env: &mut Env, frame: usize, fuel: u64) -> (r: Result<
        Rc<Object>,
        DialError,
    >)
        requires
            old(env).wf(),
            (frame as int) < old(env)@.len(),
        ensures
            ({
                let o = spec_eval_define(old(env)@, frame as int, expr@, fuel as nat);
                final(env)@ == o.env && rc_res_matches(r, o.result) && final(env).wf() && final(env)@.len() >= old(env)@.len()
            }),
        decreases fuel, height(expr@), 4int,
    {
        match &**expr {
            Object::Pair(car, cdr) => match &**car {
                Object::Symbol(s) => match &**cdr {
                    Object::Pair(vexpr, rest2) => {
                        proof {
                            assert(height(expr@) == 1 + height(car@) + height(cdr@));
                            assert(height(cdr@) == 1 + height(vexpr@) + height(rest2@));
                        }
                        let v = Object::eval(vexpr, env, frame, fuel)?;
                        proof {
                            lemma_eval_evolves(old(env)@, frame as int, vexpr@, fuel as nat);
                        }
                        env.insert(frame, s.clone(), v);
                        Ok(Rc::new(Object::Unspecified))
                    },
                    _ => Err(DialError::new(NOT_A_PAIR)),
                },
                _ => Err(DialError::new(DEFINE_MALFORMED)),
            },
            _ => Err(DialError::new(DEFINE_MALFORMED)),
        }
    }

    /// Applies this (already evaluated) object to an (already evaluated)
    /// operand list: the operands are flattened and the procedure invoked.
    pub fn apply(&self, operands: Rc<Object>, env: &mut Env, fuel: u64) -> (r: Result<
        Rc<Object>,
        DialError,
    >)
        requires
            old(env).wf(),
        ensures
            ({
                let o = spec_apply_obj(old(env)@, self@, operands@, fuel as nat);
                final(env)@ == o.env && rc_res_matches(r, o.result) && final(env).wf() && final(env)@.len() >= old(env)@.len()
            }),
        decreases fuel, 0int, 2int,
    {
        proof {
            lemma_apply_evolves(env@, self@, operands@, fuel as nat);
        }
        let args = (&*operands).to_vec()?;
        match self {
            Object::Procedure(p) => p.call(args, env, fuel),
            _ => Err(DialError::new(NOT_A_PROCEDURE)),
        }
    }
}

/// Evaluates the expressions `v[i..]` in order in `frame`; the value of the
/// last one is the result, `Unspecified` when there are none.
fn eval_elems(v: &Vec<Rc<Object>>, i: usize, env: &mut Env, frame: usize, fuel: u64) -> (r: Result<
    Rc<Object>,
    DialError,
>)
    requires
        old(env).wf(),
        (frame as int) < old(env)@.len(),
        i <= v@.len(),
    ensures
        ({
            let o = spec_eval_elems(old(env)@, frame as int, v.deep_view().skip(i as int), fuel as nat);
            final(env)@ == o.env && rc_res_matches(r, o.result) && final(env).wf() && final(env)@.len() >= old(env)@.len()
        }),
    decreases fuel, heights(v.deep_view().skip(i as int)), 0int,
{
    let ghost es = v.deep_view().skip(i as int);
    proof {
        lemma_elems_evolves(env@, frame as int, es, fuel as nat);
    }
    if i == v.len() {
        proof {
            assert(es.len() == 0);
        }
        Ok(Rc::new(Object::Unspecified))
    } else {
        proof {
            assert(es[0] == v.deep_view()[i as int]);
            assert(1 + height(es[0]) + heights(es.drop_first()) == heights(es));
        }
        let e: &Rc<Object> = &v[i];
        let r = Object::eval(e, env, frame, fuel)?;
        proof {
            lemma_eval_evolves(old(env)@, frame as int, es[0], fuel as nat);
        }
        if i + 1 == v.len() {
            proof {
                assert(es.len() == 1);
            }
            Ok(r)
        } else {
            proof {
                assert(es.drop_first() =~= v.deep_view().skip(i + 1));
            }
            eval_elems(v, i + 1, env, frame, fuel)
        }
    }
}

impl Procedure {
    /// Invokes this procedure on the given operand sequence.
    #[verifier::loop_isolation(false)]
    pub fn call(&self, args: Vec<Rc<Object>>, env: &mut Env, fuel: u64) -> (r: Result<
        Rc<Object>,
        DialError,
    >)
        requires
            old(env).wf(),
        ensures
            ({
                let o = spec_call(old(env)@, self@, args.deep_view(), fuel as nat);
                final(env)@ == o.env && rc_res_matches(r, o.result) && final(env).wf() && final(env)@.len() >= old(env)@.len()
            }),
        decreases fuel, 0int, 1int,
    {
        proof {
            lemma_call_evolves(env@, self@, args.deep_view(), fuel as nat);
        }
        match self {
            Procedure::Builtin(BuiltinKind::Add) => crate::builtins::add(args),
            Procedure::Lambda(params, body, fcap) => {
                proof {
                    assert(self@ == ProcModel::Lambda(
                        Box::new(params@),
                        Box::new(body@),
                        *fcap,
                    ));
                }
                if fuel == 0 {
                    return Err(DialError::new(RECURSION_LIMIT));
                }
                if !env.alive_frame(*fcap) {
                    return Err(DialError::new(SCOPE_GONE));
                }
                let ps = (&**params).to_vec()?;
                if ps.len() != args.len() {
                    return Err(DialError::new(ARITY));
                }
                let ghost psm = ps.deep_view();
                let ghost argsm = args.deep_view();
                let mut bvec: Vec<(String, Rc<Object>)> = Vec::new();
                let mut j: usize = 0;
                proof {
                    assert(psm.skip(0) =~= psm);
                    assert(argsm.skip(0) =~= argsm);
                    assert(assoc(bvec@) =~= Map::<Seq<char>, ObjModel>::empty());
                }
                while j < ps.len()
                    invariant
                        0 <= j <= ps@.len(),
                        ps@.len() == args@.len(),
                        psm == ps.deep_view(),
                        argsm == args.deep_view(),
                        psm.len() == ps@.len(),
                        argsm.len() == args@.len(),
                        spec_bind(Map::<Seq<char>, ObjModel>::empty(), psm, argsm) == spec_bind(
                            assoc(bvec@),
                            psm.skip(j as int),
                            argsm.skip(j as int),
                        ),
                    decreases ps@.len() - j,
                {
                    proof {
                        assert(psm.skip(j as int)[0] == psm[j as int]);
                        assert(argsm.skip(j as int)[0] == argsm[j as int]);
                        assert(psm[j as int] == ps@[j as int].deep_view());
                        assert(argsm[j as int] == args@[j as int].deep_view());
                    }
                    match (&*ps[j]).symbol_to_str() {
                        Err(e) => {
                            proof {
                                assert(!(psm[j as int] is Sym));
                                assert(spec_bind(
                                    assoc(bvec@),
                                    psm.skip(j as int),
                                    argsm.skip(j as int),
                                ) == Err::<Map<Seq<char>, ObjModel>, DialError>(
                                    DialError { code: NOT_A_SYMBOL },
                                ));
                            }
                            return Err(e);
                        },
                        Ok(s) => {
                            let ghost oldb = bvec@;
                            bvec.push((s, args[j].clone()));
                            proof {
                                assert(bvec@.drop_last() =~= oldb);
                                assert(assoc(bvec@) == assoc(oldb).insert(
                                    psm[j as int]->Sym_0,
                                    argsm[j as int],
                                ));
                                assert(psm.skip(j as int).drop_first() =~= psm.skip(j + 1));
                                assert(argsm.skip(j as int).drop_first() =~= argsm.skip(j + 1));
                            }
                        },
                    }
                    j = j + 1;
                }
                proof {
                    assert(psm.skip(psm.len() as int).len() == 0);
                }
                let bodyv = (&**body).to_vec()?;
                let idx = env.push_frame_with(*fcap, bvec);
                let r = eval_elems(&bodyv, 0, env, idx, fuel - 1);
                proof {
                    assert(bodyv.deep_view().skip(0) =~= bodyv.deep_view());
                }
                env.retire(idx);
                r
            },
        }
    }
}

} // verus!
