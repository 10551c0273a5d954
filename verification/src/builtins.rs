use vstd::prelude::*;
use std::rc::Rc;
use crate::env::Env;
use crate::error::DialError;
use crate::error::TYPE_MISMATCH;
use crate::object::BuiltinKind;
use crate::object::ObjModel;
use crate::object::Object;
use crate::object::ProcModel;
use crate::object::Procedure;
use crate::object::rc_res_matches;
use crate::object::obj_view;
use crate::object::proc_view;

verus! {

/// The sum of the operands from index `i` on, folded left over the running
/// total `acc` with wrap-around; the first non-number operand fails.
pub open spec fn spec_add_from(vs: Seq<ObjModel>, i: int, acc: i128) -> Result<ObjModel, DialError>
    decreases vs.len() - i,
{
    if i < 0 || i >= vs.len() {
        Ok(ObjModel::Num(acc))
    } else {
        match vs[i] {
            ObjModel::Num(n) => spec_add_from(vs, i + 1, acc.wrapping_add(n)),
            _ => Err(DialError { code: TYPE_MISMATCH }),
        }
    }
}

/// What `+` returns: the wrap-around sum of all operands, 0 for the empty
/// operand list, `TYPE_MISMATCH` as soon as an operand is not a number.
pub open spec fn spec_add(vs: Seq<ObjModel>) -> Result<ObjModel, DialError> {
    spec_add_from(vs, 0, 0)
}

/// The `+` builtin.  Signed 128-bit wrap-around is the defined overflow
/// behaviour.
pub fn add(objects: Vec<Rc<Object>>) -> (r: Result<Rc<Object>, DialError>)
    ensures
        rc_res_matches(r, spec_add(objects.deep_view())),
{
    let ghost vs = objects.deep_view();
    let mut acc: i128 = 0;
    let mut i: usize = 0;
    while i < objects.len()
        invariant
            0 <= i <= objects@.len(),
            vs == objects.deep_view(),
            vs.len() == objects@.len(),
            spec_add_from(vs, 0, 0) == spec_add_from(vs, i as int, acc),
        decreases objects@.len() - i,
    {
        let o: &Rc<Object> = &objects[i];
        match &**o {
            Object::Number(n) => {
                acc = acc.wrapping_add(*n);
            },
            _ => {
                return Err(DialError::new(TYPE_MISMATCH));
            },
        }
        i = i + 1;
    }
    Ok(Rc::new(Object::Number(acc)))
}

/// The global environment: the root frame seeded with the builtin bindings,
/// here the single binding of `+`.
pub fn create_global_envr() -> (e: Env)
    ensures
        e.wf(),
        e@.len() == 1,
        e@[0].parent is None,
        e@[0].alive,
        e@[0].map == Map::<Seq<char>, ObjModel>::empty().insert(
            "+"@,
            ObjModel::Proc(ProcModel::Builtin(BuiltinKind::Add)),
        ),
{
    let mut e = Env::new();
    let name = "+".to_owned();
    let obj = Rc::new(Object::Procedure(Procedure::Builtin(BuiltinKind::Add)));
    proof {
        assert(*obj == Object::Procedure(Procedure::Builtin(BuiltinKind::Add)));
        assert(obj_view(*obj) == ObjModel::Proc(proc_view(Procedure::Builtin(BuiltinKind::Add))));
        assert(obj@ == ObjModel::Proc(ProcModel::Builtin(BuiltinKind::Add)));
    }
    e.insert(0, name, obj);
    e
}

} // verus!
