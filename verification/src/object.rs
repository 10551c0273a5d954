use vstd::prelude::*;
use vstd::string::StringExecFns;
use std::rc::Rc;
use crate::error::DialError;
use crate::error::MALFORMED_LIST;
use crate::error::NOT_A_PAIR;
use crate::error::NOT_A_SYMBOL;
use crate::error::NO_REPRESENTATION;
use crate::numeral::dec_int;
use crate::numeral::int_to_decimal;

verus! {

/// The four reserved form heads.  The reader promotes these identifiers to a
/// distinct variant so that the evaluator can dispatch on them directly.
#[derive(Clone, Copy, Debug, PartialEq, Eq, Structural)]
pub enum Keyword {
    Quote,
    If,
    Lambda,
    Define,
}

/// The host-provided procedures.  The one in-core builtin is the integer sum;
/// further builtins plug in as further variants with their own dispatch arm.
#[derive(Clone, Copy, Debug, PartialEq, Eq, Structural)]
pub enum BuiltinKind {
    Add,
}

/// A callable: either a host builtin or a user closure.  A closure keeps its
/// parameter list, its body (a proper list of expressions), and the frame it
/// was created in.  The frame handle is weak in spirit: the closure does not
/// keep the frame alive, and calling the closure after the frame's call has
/// returned fails with `SCOPE_GONE`.
#[derive(Debug)]
pub enum Procedure {
    Builtin(BuiltinKind),
    Lambda(Rc<Object>, Rc<Object>, usize),
}

/// The tagged union of every runtime value: atoms, shared cons cells, and
/// procedures.  Pair children are shared, reference-counted and immutable
/// once constructed.  `ByteVector` and `Vector` are reserved placeholders the
/// reader and evaluator never produce.
#[derive(Debug)]
pub enum Object {
    Boolean(bool),
    ByteVector,
    Char(char),
    Keyword(Keyword),
    Null,
    Number(i128),
    Pair(Rc<Object>, Rc<Object>),
    Procedure(Procedure),
    Str(String),
    Symbol(String),
    Unspecified,
    Vector,
}

/// The mathematical shape of a `Procedure`.
pub ghost enum ProcModel {
    Builtin(BuiltinKind),
    Lambda(Box<ObjModel>, Box<ObjModel>, usize),
}

/// The mathematical shape of an `Object`: the same tree with strings as
/// character sequences and sharing forgotten.  Structural equivalence of two
/// objects is equality of their models.
pub ghost enum ObjModel {
    Boolean(bool),
    ByteVector,
    Char(char),
    Kw(Keyword),
    Null,
    Num(i128),
    Pair(Box<ObjModel>, Box<ObjModel>),
    Proc(ProcModel),
    Str(Seq<char>),
    Sym(Seq<char>),
    Unspecified,
    Vector,
}

pub open spec fn proc_view(p: Procedure) -> ProcModel
    decreases p,
{
    match p {
        Procedure::Builtin(b) => ProcModel::Builtin(b),
        Procedure::Lambda(params, body, envr) => ProcModel::Lambda(
            Box::new(obj_view(*params)),
            Box::new(obj_view(*body)),
            envr,
        ),
    }
}

pub open spec fn obj_view(o: Object) -> ObjModel
    decreases o,
{
    match o {
        Object::Boolean(b) => ObjModel::Boolean(b),
        Object::ByteVector => ObjModel::ByteVector,
        Object::Char(c) => ObjModel::Char(c),
        Object::Keyword(k) => ObjModel::Kw(k),
        Object::Null => ObjModel::Null,
        Object::Number(n) => ObjModel::Num(n),
        Object::Pair(a, d) => ObjModel::Pair(Box::new(obj_view(*a)), Box::new(obj_view(*d))),
        Object::Procedure(p) => ObjModel::Proc(proc_view(p)),
        Object::Str(s) => ObjModel::Str(s@),
        Object::Symbol(s) => ObjModel::Sym(s@),
        Object::Unspecified => ObjModel::Unspecified,
        Object::Vector => ObjModel::Vector,
    }
}

impl View for Object {
    type V = ObjModel;

    open spec fn view(&self) -> ObjModel {
        obj_view(*self)
    }
}

impl DeepView for Object {
    type V = ObjModel;

    open spec fn deep_view(&self) -> ObjModel {
        obj_view(*self)
    }
}

impl View for Procedure {
    type V = ProcModel;

    open spec fn view(&self) -> ProcModel {
        proc_view(*self)
    }
}

/// The height of an expression tree; the structural measure for every walk
/// over pairs.
pub open spec fn height(m: ObjModel) -> nat
    decreases m,
{
    match m {
        ObjModel::Pair(a, d) => 1 + height(*a) + height(*d),
        _ => 0,
    }
}

/// The combined height of a sequence of expressions.
pub open spec fn heights(es: Seq<ObjModel>) -> nat
    decreases es.len(),
{
    if es.len() == 0 {
        0
    } else {
        1 + height(es[0]) + heights(es.drop_first())
    }
}

/// An atom is any object other than a pair.
pub open spec fn is_atom(m: ObjModel) -> bool {
    !(m is Pair)
}

/// The elements of a proper list, or `None` if the final cdr is not `Null`.
pub open spec fn list_model(m: ObjModel) -> Option<Seq<ObjModel>>
    decreases m,
{
    match m {
        ObjModel::Null => Some(Seq::<ObjModel>::empty()),
        ObjModel::Pair(a, d) => match list_model(*d) {
            Some(s) => Some(seq![*a] + s),
            None => None,
        },
        _ => None,
    }
}

/// Falsity is exactly `Boolean(false)` and `Null`; everything else is truthy.
pub open spec fn truthy(m: ObjModel) -> bool {
    !(m == ObjModel::Boolean(false) || m == ObjModel::Null)
}

/// What `car` returns: the first field of a pair, `NOT_A_PAIR` otherwise.
pub open spec fn spec_car(m: ObjModel) -> Result<ObjModel, DialError> {
    match m {
        ObjModel::Pair(a, _) => Ok(*a),
        _ => Err(DialError { code: NOT_A_PAIR }),
    }
}

/// Correspondence between an executable result and its model.
pub open spec fn rc_res_matches(
    r: Result<Rc<Object>, DialError>,
    s: Result<ObjModel, DialError>,
) -> bool {
    match r {
        Ok(o) => s matches Ok(m) && o@ == m,
        Err(e) => s matches Err(e2) && e == e2,
    }
}

/// The text of a keyword.
pub open spec fn kw_text(k: Keyword) -> Seq<char> {
    match k {
        Keyword::Quote => "quote"@,
        Keyword::If => "if"@,
        Keyword::Lambda => "lambda"@,
        Keyword::Define => "define"@,
    }
}

/// Whether an object has a canonical external representation.
pub open spec fn writable(m: ObjModel) -> bool
    decreases m,
{
    match m {
        ObjModel::ByteVector => false,
        ObjModel::Vector => false,
        ObjModel::Pair(a, d) => writable(*a) && writable(*d),
        _ => true,
    }
}

/// The canonical external representation.  Pairs print in dotted notation
/// throughout; no list shortcut is applied.
pub open spec fn spec_write(m: ObjModel) -> Seq<char>
    decreases m,
{
    match m {
        ObjModel::Boolean(b) => if b {
            "#t"@
        } else {
            "#f"@
        },
        ObjModel::ByteVector => Seq::<char>::empty(),
        ObjModel::Char(c) => seq![c],
        ObjModel::Kw(k) => kw_text(k),
        ObjModel::Null => "null"@,
        ObjModel::Num(n) => dec_int(n as int),
        ObjModel::Pair(a, d) => "("@ + spec_write(*a) + " . "@ + spec_write(*d) + ")"@,
        ObjModel::Proc(_) => "proc"@,
        ObjModel::Str(s) => "\""@ + s + "\""@,
        ObjModel::Sym(s) => s,
        ObjModel::Unspecified => "<unspecified>"@,
        ObjModel::Vector => Seq::<char>::empty(),
    }
}

impl Object {
    /// Constructs a new pair referencing the two given objects.
    pub fn cons(car: Rc<Object>, cdr: Rc<Object>) -> (r: Rc<Object>)
        ensures
            r@ == ObjModel::Pair(Box::new(car@), Box::new(cdr@)),
    {
        Rc::new(Object::Pair(car, cdr))
    }

    /// The first field of a pair; `NOT_A_PAIR` for every other variant.
    pub fn car(&self) -> (r: Result<Rc<Object>, DialError>)
        ensures
            rc_res_matches(r, spec_car(self@)),
    {
        match self {
            Object::Pair(a, _) => Ok(a.clone()),
            _ => Err(DialError::new(NOT_A_PAIR)),
        }
    }

    /// The name carried by a symbol; `NOT_A_SYMBOL` for every other variant.
    pub fn symbol_to_str(&self) -> (r: Result<String, DialError>)
        ensures
            match r {
                Ok(s) => self@ matches ObjModel::Sym(t) && s@ == t,
                Err(e) => !(self@ is Sym) && e == (DialError { code: NOT_A_SYMBOL }),
            },
    {
        match self {
            Object::Symbol(s) => Ok(s.clone()),
            _ => Err(DialError::new(NOT_A_SYMBOL)),
        }
    }

    /// Falsity is exactly `Boolean(false)` and `Null`.
    pub fn is_true(&self) -> (r: bool)
        ensures
            r == truthy(self@),
    {
        match self {
            Object::Null => false,
            Object::Boolean(b) => *b,
            _ => true,
        }
    }

    /// A self-evaluating expression yields itself; the reference is shared.
    pub fn self_eval(expr: &Rc<Object>) -> (r: Rc<Object>)
        ensures
            r@ == expr@,
    {
        expr.clone()
    }

    /// The ordered elements of a proper list; `MALFORMED_LIST` if the
    /// terminating cdr is not `Null`.
    pub fn to_vec(&self) -> (r: Result<Vec<Rc<Object>>, DialError>)
        ensures
            match list_model(self@) {
                Some(s) => r matches Ok(v) && v.deep_view() == s,
                None => r == Err::<Vec<Rc<Object>>, DialError>(
                    DialError { code: MALFORMED_LIST },
                ),
            },
    {
        let mut v: Vec<Rc<Object>> = Vec::new();
        let mut cur: &Object = self;
        proof {
            assert(v.deep_view() =~= Seq::<ObjModel>::empty());
        }
        loop
            invariant
                match list_model(cur@) {
                    Some(t) => list_model(self@) matches Some(s) && s == v.deep_view() + t,
                    None => list_model(self@) is None,
                },
            decreases height(cur@),
        {
            match cur {
                Object::Pair(a, d) => {
                    let ghost old_v = v.deep_view();
                    v.push(a.clone());
                    proof {
                        assert(v.deep_view() =~= old_v + seq![a@]);
                        let dm = list_model((&**d)@);
                        if dm is Some {
                            let t2 = dm.unwrap();
                            assert(old_v + (seq![a@] + t2) =~= (old_v + seq![a@]) + t2);
                        }
                    }
                    cur = &**d;
                },
                Object::Null => {
                    proof {
                        assert(list_model(cur@) == Some(Seq::<ObjModel>::empty()));
                        assert(v.deep_view() + Seq::<ObjModel>::empty() =~= v.deep_view());
                    }
                    return Ok(v);
                },
                _ => {
                    return Err(DialError::new(MALFORMED_LIST));
                },
            }
        }
    }

    fn write_into(&self, out: &mut String) -> (r: Result<(), DialError>)
        ensures
            match r {
                Ok(u) => writable(self@) && final(out)@ == old(out)@ + spec_write(self@),
                Err(e) => !writable(self@) && e == (DialError { code: NO_REPRESENTATION }),
            },
        decreases *self,
    {
        match self {
            Object::Boolean(b) => {
                if *b {
                    out.append("#t");
                } else {
                    out.append("#f");
                }
                Ok(())
            },
            Object::ByteVector => Err(DialError::new(NO_REPRESENTATION)),
            Object::Char(c) => {
                crate::strutil::push_char(out, *c);
                proof {
                    assert(out@ =~= old(out)@ + seq![*c]);
                }
                Ok(())
            },
            Object::Keyword(k) => {
                match k {
                    Keyword::Quote => out.append("quote"),
                    Keyword::If => out.append("if"),
                    Keyword::Lambda => out.append("lambda"),
                    Keyword::Define => out.append("define"),
                }
                Ok(())
            },
            Object::Null => {
                out.append("null");
                Ok(())
            },
            Object::Number(n) => {
                let t = int_to_decimal(*n);
                out.append(t.as_str());
                Ok(())
            },
            Object::Pair(a, d) => {
                out.append("(");
                let ghost s1 = out@;
                (&**a).write_into(out)?;
                out.append(" . ");
                let ghost s2 = out@;
                (&**d).write_into(out)?;
                out.append(")");
                proof {
                    assert(out@ =~= old(out)@ + spec_write(self@));
                }
                Ok(())
            },
            Object::Procedure(_) => {
                out.append("proc");
                Ok(())
            },
            Object::Str(s) => {
                out.append("\"");
                out.append(s.as_str());
                out.append("\"");
                proof {
                    assert(out@ =~= old(out)@ + spec_write(self@));
                }
                Ok(())
            },
            Object::Symbol(s) => {
                out.append(s.as_str());
                Ok(())
            },
            Object::Unspecified => {
                out.append("<unspecified>");
                Ok(())
            },
            Object::Vector => Err(DialError::new(NO_REPRESENTATION)),
        }
    }

    /// The canonical external representation of this object, or
    /// `NO_REPRESENTATION` for the reserved placeholder variants.
    pub fn write(&self) -> (r: Result<String, DialError>)
        ensures
            match r {
                Ok(s) => writable(self@) && s@ == spec_write(self@),
                Err(e) => !writable(self@) && e == (DialError { code: NO_REPRESENTATION }),
            },
    {
        let mut s = String::new();
        match self.write_into(&mut s) {
            Ok(_) => {
                proof {
                    assert(s@ =~= spec_write(self@));
                }
                Ok(s)
            },
            Err(e) => Err(e),
        }
    }
}

} // verus!
