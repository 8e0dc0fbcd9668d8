use vstd::prelude::*;
use crate::fqn::Fqn;
use crate::ident::{chars_of, sanitize_chars, sanitized, string_of};
use crate::model::{Function, FunctionArg, OUT_PARM};

verus! {

pub open spec fn is_out(a: FunctionArg) -> bool {
    a.flags & OUT_PARM != 0
}

/// The arguments of `s` whose out-parameter flag is `out`, in order.
pub open spec fn args_where(s: Seq<FunctionArg>, out: bool) -> Seq<FunctionArg>
    decreases s.len(),
{
    if s.len() == 0 {
        Seq::empty()
    } else if is_out(s.last()) == out {
        args_where(s.drop_last(), out).push(s.last())
    } else {
        args_where(s.drop_last(), out)
    }
}

/// Splits a function's parameters, in order, into its call arguments and its
/// out-parameters.
pub fn partition_args(params: Vec<FunctionArg>) -> (r: (Vec<FunctionArg>, Vec<FunctionArg>))
    ensures
        r.0@ == args_where(params@, false),
        r.1@ == args_where(params@, true),
{
    let ghost all = params@;
    let mut rest = params;
    let mut args: Vec<FunctionArg> = Vec::new();
    let mut ret: Vec<FunctionArg> = Vec::new();
    let mut i: usize = 0;
    let n: usize = rest.len();
    assert(all.len() == n);
    while rest.len() > 0
        invariant
            0 <= i <= all.len(),
            all.len() <= usize::MAX,
            rest@ == all.subrange(i as int, all.len() as int),
            args@ == args_where(all.take(i as int), false),
            ret@ == args_where(all.take(i as int), true),
        decreases rest@.len(),
    {
        let a = rest.remove(0);
        assert(a == all[i as int]);
        assert(all.take(i + 1).drop_last() =~= all.take(i as int));
        if a.flags & OUT_PARM != 0 {
            ret.push(a);
        } else {
            args.push(a);
        }
        i = i + 1;
        assert(rest@ =~= all.subrange(i as int, all.len() as int));
    }
    assert(all.take(i as int) =~= all);
    (args, ret)
}

/// A function record: its identifier is its sanitized name; the parameters
/// without the out-parameter flag become `args` and the others `ret`, each
/// list in parameter order.
pub fn index_function(fqn: Fqn, name: &str, index: u32, flags: u32, params: Vec<FunctionArg>) -> (r:
    Function)
    ensures
        r.fqn@ == fqn@,
        r.ident@ == sanitized(name@),
        r.index == index,
        r.flags == flags,
        r.args@ == args_where(params@, false),
        r.ret@ == args_where(params@, true),
{
    let (args, ret) = partition_args(params);
    let ident = string_of(&sanitize_chars(&chars_of(name)));
    Function { fqn, ident, index, flags, args, ret }
}

} // verus!
