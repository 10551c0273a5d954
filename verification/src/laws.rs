use vstd::prelude::*;
use crate::env::FrameModel;
use crate::env::env_wf;
use crate::env::frame_alive;
use crate::env::frame_ok;
use crate::env::lookup_in;
use crate::env::lemma_lookup_push;
use crate::env::lemma_lookup_update_newer;
use crate::error::ARITY;
use crate::error::DialError;
use crate::eval::EvalOut;
use crate::eval::spec_call;
use crate::eval::spec_eval;
use crate::eval::spec_evlis;
use crate::eval::spec_eval_if;
use crate::eval::spec_eval_antecedent;
use crate::numeral::dec_int;
use crate::numeral::is_digit_char;
use crate::numeral::lemma_dec_int_chars;
use crate::numeral::lemma_parse_dec_int;
use crate::numeral::spec_parse_int;
use crate::object::Keyword;
use crate::object::ObjModel;
use crate::object::ProcModel;
use crate::object::is_atom;
use crate::object::kw_text;
use crate::object::list_model;
use crate::object::spec_write;
use crate::object::truthy;
use crate::reader::is_token_char;
use crate::reader::lemma_token_run_eq;
use crate::reader::spec_parse_atom;
use crate::reader::spec_parse_expr;
use crate::reader::spec_parse_list;
use crate::reader::spec_read;
use crate::reader::spec_tokenize;
use crate::reader::token_run;

verus! {

// ---------------------------------------------------------------------------
// The laws of the library: properties that hold of all inputs, stated over
// the specification functions that the executable contracts are proved
// against.
// ---------------------------------------------------------------------------

/// A text made of a single run of ordinary token characters is one token.
proof fn lemma_single_token(s: Seq<char>)
    requires
        s.len() >= 1,
        forall|i: int| 0 <= i < s.len() ==> is_token_char(s[i]),
    ensures
        spec_tokenize(s) == seq![s],
{
    assert(forall|m: int| 0 <= m < s.len() - 1 ==> is_token_char(s.drop_first()[m]));
    lemma_token_run_eq(s.drop_first(), s.len() - 1);
    let k = 1 + token_run(s.drop_first());
    assert(k == s.len());
    assert(s.take(k as int) =~= s);
    assert(s.skip(k as int).len() == 0);
    assert(seq![s] + spec_tokenize(s.skip(k as int)) =~= seq![s]);
}

/// The texts of the reserved identifiers and boolean literals are single
/// tokens of ordinary characters, pairwise distinct, and no numerals.
proof fn lemma_literal_tokens()
    ensures
        "lambda"@ == seq!['l', 'a', 'm', 'b', 'd', 'a'],
        "if"@ == seq!['i', 'f'],
        "quote"@ == seq!['q', 'u', 'o', 't', 'e'],
        "define"@ == seq!['d', 'e', 'f', 'i', 'n', 'e'],
        "#t"@ == seq!['#', 't'],
        "#f"@ == seq!['#', 'f'],
        "("@ == seq!['('],
        ")"@ == seq![')'],
{
    reveal_strlit("lambda");
    reveal_strlit("if");
    reveal_strlit("quote");
    reveal_strlit("define");
    reveal_strlit("#t");
    reveal_strlit("#f");
    reveal_strlit("(");
    reveal_strlit(")");
    assert("lambda"@ =~= seq!['l', 'a', 'm', 'b', 'd', 'a']);
    assert("if"@ =~= seq!['i', 'f']);
    assert("quote"@ =~= seq!['q', 'u', 'o', 't', 'e']);
    assert("define"@ =~= seq!['d', 'e', 'f', 'i', 'n', 'e']);
    assert("#t"@ =~= seq!['#', 't']);
    assert("#f"@ =~= seq!['#', 'f']);
    assert("("@ =~= seq!['(']);
    assert(")"@ =~= seq![')']);
}

/// Reading a single accepted atom token back: the token sequence is that one
/// token, and the parse is the classified atom.
proof fn lemma_read_single_token(s: Seq<char>)
    requires
        s.len() >= 1,
        forall|i: int| 0 <= i < s.len() ==> is_token_char(s[i]),
        s != "("@,
        s != ")"@,
    ensures
        spec_read(s) == Ok::<ObjModel, DialError>(spec_parse_atom(s)),
{
    lemma_single_token(s);
    let toks = spec_tokenize(s);
    assert(toks[0] == s);
    assert(spec_parse_expr(toks, 0) == Ok::<(ObjModel, int), DialError>((spec_parse_atom(s), 1)));
}

/// Reader round-trip for atoms.  For every boolean, number and keyword atom,
/// `read` applied to the canonical external representation yields the same
/// atom again by structural equivalence.  (The other atoms do not round-trip
/// through their representation: `null` and the text of a string or
/// character read back as symbols, and a symbol only reads back as itself
/// when its name is not itself a literal, a numeral, or delimited.)
pub proof fn lemma_atom_round_trip(a: ObjModel)
    requires
        a is Boolean || a is Num || a is Kw,
    ensures
        spec_read(spec_write(a)) == Ok::<ObjModel, DialError>(a),
{
    lemma_literal_tokens();
    let s = spec_write(a);
    match a {
        ObjModel::Boolean(b) => {
            assert(forall|i: int| 0 <= i < s.len() ==> is_token_char(s[i]));
            lemma_read_single_token(s);
            assert(spec_parse_atom(s) == a);
        },
        ObjModel::Num(n) => {
            assert(s == dec_int(n as int));
            lemma_dec_int_chars(n as int);
            assert(forall|i: int|
                0 <= i < s.len() ==> (is_digit_char(s[i]) || s[i] == '-'));
            assert(forall|i: int| 0 <= i < s.len() ==> is_token_char(s[i]));
            lemma_read_single_token(s);
            assert(s != "lambda"@) by {
                assert(is_digit_char(s[0]) || s[0] == '-');
            }
            assert(s != "if"@);
            assert(s != "quote"@);
            assert(s != "define"@);
            assert(s != "#t"@);
            assert(s != "#f"@);
            lemma_parse_dec_int(n as int);
            assert(spec_parse_atom(s) == a);
        },
        ObjModel::Kw(k) => {
            assert(s == kw_text(k));
            assert(forall|i: int| 0 <= i < s.len() ==> is_token_char(s[i]));
            lemma_read_single_token(s);
            assert(spec_parse_atom(s) == a);
        },
        _ => {},
    }
}

/// Reader round-trip for symbols: a symbol whose name is one run of
/// ordinary token characters, and is not itself a reserved identifier, a
/// boolean literal or a numeral, reads back from its external representation
/// as the same symbol.
pub proof fn lemma_symbol_round_trip(s: Seq<char>)
    requires
        s.len() >= 1,
        forall|i: int| 0 <= i < s.len() ==> is_token_char(s[i]),
        s != "lambda"@,
        s != "if"@,
        s != "quote"@,
        s != "define"@,
        s != "#t"@,
        s != "#f"@,
        spec_parse_int(s) is None,
    ensures
        spec_read(spec_write(ObjModel::Sym(s))) == Ok::<ObjModel, DialError>(ObjModel::Sym(s)),
{
    lemma_literal_tokens();
    lemma_read_single_token(s);
}

/// A parsed expression is an atom or a proper list; every list the parser
/// builds ends in `Null`.
pub open spec fn proper_shape(o: ObjModel) -> bool {
    is_atom(o) || list_model(o) is Some
}

proof fn lemma_parse_expr_shape(toks: Seq<Seq<char>>, i: int)
    ensures
        spec_parse_expr(toks, i) matches Ok(oj) ==> proper_shape(oj.0),
    decreases toks.len() - i, 0int,
{
    if 0 <= i < toks.len() && toks[i] != ")"@ && toks[i] == "("@ {
        lemma_parse_list_shape(toks, i + 1);
    }
}

proof fn lemma_parse_list_shape(toks: Seq<Seq<char>>, i: int)
    ensures
        spec_parse_list(toks, i) matches Ok(oj) ==> list_model(oj.0) is Some,
    decreases toks.len() - i, 1int,
{
    if 0 <= i < toks.len() && toks[i] != ")"@ {
        match spec_parse_expr(toks, i) {
            Err(_) => {},
            Ok((car, j)) => {
                if i < j <= toks.len() {
                    lemma_parse_list_shape(toks, j);
                }
            },
        }
    }
}

/// Parse shape: whatever `read` accepts is an atom or a proper list.
pub proof fn lemma_read_shape(s: Seq<char>)
    ensures
        spec_read(s) matches Ok(o) ==> proper_shape(o),
{
    let toks = spec_tokenize(s);
    if toks.len() > 0 {
        lemma_parse_expr_shape(toks, 0);
    }
}

/// Self-evaluation: every atom outside symbols and keywords that the
/// evaluator accepts at all — booleans, characters, numbers, strings, the
/// empty list and the reserved vector placeholders — evaluates to itself in
/// every environment, and the environment is untouched.  (Procedure and
/// `Unspecified` values are not evaluable and are the inputs left out.)
pub proof fn lemma_self_evaluation(env: Seq<FrameModel>, f: int, a: ObjModel, fuel: nat)
    requires
        a is Boolean || a is ByteVector || a is Char || a is Null || a is Num || a is Str
            || a is Vector,
    ensures
        spec_eval(env, f, a, fuel) == (EvalOut { result: Ok(a), env }),
{
}

/// Quote identity: `(quote E)` evaluates to `E` itself, unevaluated, in
/// every environment, whatever follows the first operand; the environment
/// is untouched.
pub proof fn lemma_quote_identity(
    env: Seq<FrameModel>,
    f: int,
    e: ObjModel,
    tail: ObjModel,
    fuel: nat,
)
    ensures
        spec_eval(
            env,
            f,
            ObjModel::Pair(
                Box::new(ObjModel::Kw(Keyword::Quote)),
                Box::new(ObjModel::Pair(Box::new(e), Box::new(tail))),
            ),
            fuel,
        ) == (EvalOut { result: Ok(e), env }),
{
}

/// If truthiness: `(if P C A)` evaluates `P` first; when the predicate's
/// value is truthy the whole form equals the evaluation of `C`, otherwise
/// the evaluation of `A`, each in the store the predicate left behind; a
/// failing predicate short-circuits.  Truthiness is falsity of exactly
/// `Boolean(false)` and `Null`.
pub proof fn lemma_if_truthiness(
    env: Seq<FrameModel>,
    f: int,
    p: ObjModel,
    c: ObjModel,
    a: ObjModel,
    fuel: nat,
)
    ensures
        ({
            let ifexpr = ObjModel::Pair(
                Box::new(ObjModel::Kw(Keyword::If)),
                Box::new(
                    ObjModel::Pair(
                        Box::new(p),
                        Box::new(
                            ObjModel::Pair(
                                Box::new(c),
                                Box::new(ObjModel::Pair(Box::new(a), Box::new(ObjModel::Null))),
                            ),
                        ),
                    ),
                ),
            );
            let o1 = spec_eval(env, f, p, fuel);
            spec_eval(env, f, ifexpr, fuel) == match o1.result {
                Ok(pv) => if truthy(pv) {
                    spec_eval(o1.env, f, c, fuel)
                } else {
                    spec_eval(o1.env, f, a, fuel)
                },
                Err(err) => EvalOut { result: Err(err), env: o1.env },
            }
        }),
{
    let altl = ObjModel::Pair(Box::new(a), Box::new(ObjModel::Null));
    let rest = ObjModel::Pair(Box::new(c), Box::new(altl));
    let cdr = ObjModel::Pair(Box::new(p), Box::new(rest));
    let ifexpr = ObjModel::Pair(Box::new(ObjModel::Kw(Keyword::If)), Box::new(cdr));
    assert(spec_eval(env, f, ifexpr, fuel) == spec_eval_if(env, f, cdr, fuel));
    let o1 = spec_eval(env, f, p, fuel);
    if o1.result is Ok {
        assert(spec_eval_antecedent(o1.env, f, altl, fuel) == spec_eval(o1.env, f, a, fuel));
    }
}

/// Lexical scope: an activation frame chained to the captured frame `fcap`
/// resolves a parameter to its operand, and every other name exactly as the
/// captured frame's own chain does — the caller's frame plays no part.
pub proof fn lemma_lexical_scope(
    env: Seq<FrameModel>,
    fcap: usize,
    m: Map<Seq<char>, ObjModel>,
    name: Seq<char>,
)
    requires
        (fcap as int) < env.len(),
    ensures
        ({
            let env2 = env.push(FrameModel { parent: Some(fcap), alive: true, map: m });
            &&& m.contains_key(name) ==> lookup_in(env2, env.len() as int, name) == Some(m[name])
            &&& !m.contains_key(name) ==> lookup_in(env2, env.len() as int, name) == lookup_in(
                env,
                fcap as int,
                name,
            )
        }),
{
    let env2 = env.push(FrameModel { parent: Some(fcap), alive: true, map: m });
    if !m.contains_key(name) {
        lemma_lookup_push(env, FrameModel { parent: Some(fcap), alive: true, map: m }, fcap as int, name);
    }
}

/// Define locality: binding a name in frame `fidx` changes that frame
/// alone; a lookup in `fidx` now returns the new value, every other frame is
/// unchanged, and a lookup starting at the parent of `fidx` is exactly what
/// it was before.
pub proof fn lemma_define_locality(
    env: Seq<FrameModel>,
    fidx: int,
    name: Seq<char>,
    v: ObjModel,
)
    requires
        env_wf(env),
        frame_ok(env, fidx),
    ensures
        ({
            let env2 = env.update(
                fidx,
                FrameModel { map: env[fidx].map.insert(name, v), ..env[fidx] },
            );
            &&& lookup_in(env2, fidx, name) == Some(v)
            &&& forall|g: int| 0 <= g < env.len() && g != fidx ==> env2[g] == env[g]
            &&& (env[fidx].parent matches Some(p) ==> lookup_in(env2, p as int, name) == lookup_in(
                env,
                p as int,
                name,
            ))
        }),
{
    let fm = FrameModel { map: env[fidx].map.insert(name, v), ..env[fidx] };
    let env2 = env.update(fidx, fm);
    match env[fidx].parent {
        Some(p) => {
            assert((p as int) < fidx);
            lemma_lookup_update_newer(env, fidx, fm, p as int, name);
        },
        None => {},
    }
}

/// Operand order: in an application the operands are evaluated strictly
/// left to right — the head operand first, and only if it succeeds the
/// rest; a failure is the result at once, with the store as the failure
/// left it, and the later operands are never evaluated.
pub proof fn lemma_evlis_order(
    env: Seq<FrameModel>,
    f: int,
    e0: ObjModel,
    rest: ObjModel,
    fuel: nat,
)
    ensures
        ({
            let o1 = spec_eval(env, f, e0, fuel);
            spec_evlis(env, f, ObjModel::Pair(Box::new(e0), Box::new(rest)), fuel) == match o1.result {
                Err(err) => EvalOut { result: Err(err), env: o1.env },
                Ok(v) => {
                    let o2 = spec_evlis(o1.env, f, rest, fuel);
                    match o2.result {
                        Err(err) => EvalOut { result: Err(err), env: o2.env },
                        Ok(vs) => EvalOut {
                            result: Ok(ObjModel::Pair(Box::new(v), Box::new(vs))),
                            env: o2.env,
                        },
                    }
                },
            }
        }),
{
}

/// Arity: a lambda whose parameter list holds `n` names, applied to an
/// operand sequence of any other length, fails with `ARITY`, whatever the
/// operands and whatever the body.
pub proof fn lemma_arity(
    env: Seq<FrameModel>,
    params: ObjModel,
    body: ObjModel,
    fcap: usize,
    args: Seq<ObjModel>,
    ps: Seq<ObjModel>,
    fuel: nat,
)
    requires
        fuel > 0,
        frame_alive(env, fcap as int),
        list_model(params) == Some(ps),
        ps.len() != args.len(),
    ensures
        spec_call(env, ProcModel::Lambda(Box::new(params), Box::new(body), fcap), args, fuel) == (
        EvalOut { result: Err(DialError { code: ARITY }), env }),
{
}

} // verus!
