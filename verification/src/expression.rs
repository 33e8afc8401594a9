//! The fixed operation table and the evaluator.
//!
//! Every call node names one [`Func`]; evaluation dispatches on it. Each
//! operation decides itself which operands it evaluates and in what order
//! (special-form dispatch), so scoping constructs such as `let` control
//! their own environment discipline.

use crate::actaeon::{print_step, receive_step, send_step, Host, HostView};
use crate::lisptype::{model_seq, num_of, render, LispType, Val};
use crate::LispError;
use vstd::prelude::*;

verus! {

/// The outcome of one evaluation: what it returned, and the host state it
/// left behind.
pub ghost struct Step {
    pub out: Result<Val, LispError>,
    pub host: HostView,
}

/// A step that failed with `e`, leaving the host at `h`.
pub open spec fn step_err(e: LispError, h: HostView) -> Step {
    Step { out: Err(e), host: h }
}

/// A step that produced `v`, leaving the host at `h`.
pub open spec fn step_ok(v: Val, h: HostView) -> Step {
    Step { out: Ok(v), host: h }
}

/// Reduce a value. Literals, symbols and handles reduce to themselves; a
/// pending call runs its operation; a binding never reduces.
pub open spec fn eval(v: Val, env: Seq<Val>, h: HostView) -> Step
    decreases v, 0nat,
{
    match v {
        Val::Call(f, args) => eval_call(f, args, env, h),
        Val::Binding(n, b) => step_err(LispError::InvalidReduction, h),
        _ => step_ok(v, h),
    }
}

/// Evaluate the first two operands and read each as a number.
pub open spec fn eval_two_nums(args: Seq<Val>, env: Seq<Val>, h: HostView) -> (Result<
    (i64, i64),
    LispError,
>, HostView)
    decreases args, 0nat,
{
    if args.len() != 2 {
        (Err(LispError::ArityError), h)
    } else {
        let s0 = eval(args[0], env, h);
        match s0.out {
            Err(e) => (Err(e), s0.host),
            Ok(v0) => match num_of(v0, env) {
                Err(e) => (Err(e), s0.host),
                Ok(n0) => {
                    let s1 = eval(args[1], env, s0.host);
                    match s1.out {
                        Err(e) => (Err(e), s1.host),
                        Ok(v1) => match num_of(v1, env) {
                            Err(e) => (Err(e), s1.host),
                            Ok(n1) => (Ok((n0, n1)), s1.host),
                        },
                    }
                },
            },
        }
    }
}

/// Evaluate the first two operands and render each as text.
pub open spec fn eval_two_texts(args: Seq<Val>, env: Seq<Val>, h: HostView) -> (Result<
    (Seq<char>, Seq<char>),
    LispError,
>, HostView)
    decreases args, 0nat,
{
    if args.len() != 2 {
        (Err(LispError::ArityError), h)
    } else {
        let s0 = eval(args[0], env, h);
        match s0.out {
            Err(e) => (Err(e), s0.host),
            Ok(v0) => match render(v0, env) {
                Err(e) => (Err(e), s0.host),
                Ok(t0) => {
                    let s1 = eval(args[1], env, s0.host);
                    match s1.out {
                        Err(e) => (Err(e), s1.host),
                        Ok(v1) => match render(v1, env) {
                            Err(e) => (Err(e), s1.host),
                            Ok(t1) => (Ok((t0, t1)), s1.host),
                        },
                    }
                },
            },
        }
    }
}

/// Run one operation against its unevaluated operand list. Each arm decides
/// which operands it evaluates, in what order, and with what scoping.
pub open spec fn eval_call(f: Func, args: Seq<Val>, env: Seq<Val>, h: HostView) -> Step
    decreases args, 1nat,
{
    match f {
        Func::Add => {
            let r = eval_two_nums(args, env, h);
            match r.0 {
                Err(e) => step_err(e, r.1),
                Ok((a, b)) => step_ok(
                    Val::Number(vstd::wrapping::i64_specs::wrapping_add(a, b)),
                    r.1,
                ),
            }
        },
        Func::Subtract => {
            let r = eval_two_nums(args, env, h);
            match r.0 {
                Err(e) => step_err(e, r.1),
                Ok((a, b)) => step_ok(
                    Val::Number(vstd::wrapping::i64_specs::wrapping_sub(a, b)),
                    r.1,
                ),
            }
        },
        Func::Multiply => {
            let r = eval_two_nums(args, env, h);
            match r.0 {
                Err(e) => step_err(e, r.1),
                Ok((a, b)) => step_ok(
                    Val::Number(vstd::wrapping::i64_specs::wrapping_mul(a, b)),
                    r.1,
                ),
            }
        },
        Func::Concat => {
            let r = eval_two_texts(args, env, h);
            match r.0 {
                Err(e) => step_err(e, r.1),
                Ok((a, b)) => step_ok(Val::Text(a + b), r.1),
            }
        },
        Func::Equal => {
            let r = eval_two_texts(args, env, h);
            match r.0 {
                Err(e) => step_err(e, r.1),
                Ok((a, b)) => step_ok(Val::Boolean(a == b), r.1),
            }
        },
        Func::Print => if args.len() != 1 {
            step_err(LispError::ArityError, h)
        } else {
            let s0 = eval(args[0], env, h);
            match s0.out {
                Err(e) => step_err(e, s0.host),
                Ok(v0) => match render(v0, env) {
                    Err(e) => step_err(e, s0.host),
                    Ok(t) => step_ok(Val::Boolean(false), print_step(s0.host, t)),
                },
            }
        },
        Func::Let => if args.len() != 3 {
            step_err(LispError::ArityError, h)
        } else {
            match args[0] {
                Val::Symbol(name) => {
                    let s1 = eval(args[1], env, h);
                    match s1.out {
                        Err(e) => step_err(e, s1.host),
                        Ok(bound) => eval(
                            args[2],
                            env.push(Val::Binding(name, Box::new(bound))),
                            s1.host,
                        ),
                    }
                },
                _ => step_err(LispError::TypeMismatch, h),
            }
        },
        Func::Progn => if args.len() == 0 {
            step_err(LispError::ArityError, h)
        } else {
            eval_seq(args, env, h)
        },
        Func::Return => if args.len() != 1 {
            step_err(LispError::ArityError, h)
        } else {
            eval(args[0], env, h)
        },
        Func::Defun => if args.len() < 2 {
            step_err(LispError::ArityError, h)
        } else {
            match render(args[0], Seq::empty()) {
                Err(e) => step_err(e, h),
                Ok(stored) => if env.len() == 0 {
                    step_ok(Val::Boolean(false), h)
                } else {
                    match render(env[0], env) {
                        Err(e) => step_err(e, h),
                        Ok(cand) => if stored == cand {
                            eval_seq(args.skip(1), env, h)
                        } else {
                            step_ok(Val::Boolean(false), h)
                        },
                    }
                },
            }
        },
        Func::ActaeonConnect => {
            let r = eval_two_texts(args, env, h);
            match r.0 {
                Err(e) => step_err(e, r.1),
                Ok((remote, topic)) => step_ok(
                    Val::Handle(
                        crate::actaeon::HandleView {
                            center: "127.0.0.1"@,
                            remote: remote,
                            port: 4242,
                            topic: topic,
                        },
                    ),
                    r.1,
                ),
            }
        },
        Func::ActaeonReceive => if args.len() != 1 {
            step_err(LispError::ArityError, h)
        } else {
            let s0 = eval(args[0], env, h);
            match s0.out {
                Err(e) => step_err(e, s0.host),
                Ok(v0) => match v0 {
                    Val::Handle(hd) => {
                        let r = receive_step(s0.host);
                        step_ok(r.0, r.1)
                    },
                    _ => step_err(LispError::TypeMismatch, s0.host),
                },
            }
        },
        Func::ActaeonSend => if args.len() != 2 {
            step_err(LispError::ArityError, h)
        } else {
            let s0 = eval(args[0], env, h);
            match s0.out {
                Err(e) => step_err(e, s0.host),
                Ok(v0) => match v0 {
                    Val::Handle(hd) => {
                        let s1 = eval(args[1], env, s0.host);
                        match s1.out {
                            Err(e) => step_err(e, s1.host),
                            Ok(v1) => match render(v1, env) {
                                Err(e) => step_err(e, s1.host),
                                Ok(t) => {
                                    let r = send_step(s1.host, t);
                                    step_ok(r.0, r.1)
                                },
                            },
                        }
                    },
                    _ => step_err(LispError::TypeMismatch, s0.host),
                },
            }
        },
    }
}

/// Evaluating a literal — a number, a text, or a boolean — touches neither
/// the environment nor the host and yields the value itself. Two
/// evaluations of the same literal therefore agree with each other and with
/// the original: values are immutable once constructed.
pub proof fn lemma_literal_eval_stable(v: Val, env: Seq<Val>, h: HostView)
    requires
        v is Number || v is Text || v is Boolean,
    ensures
        eval(v, env, h) == step_ok(v, h),
        eval(v, env, eval(v, env, h).host) == step_ok(v, h),
{
}

/// Evaluate operands left to right, forwarding the first failure; the value
/// is the last operand's.
pub open spec fn eval_seq(args: Seq<Val>, env: Seq<Val>, h: HostView) -> Step
    decreases args, 0nat,
{
    if args.len() == 0 {
        step_err(LispError::ArityError, h)
    } else {
        let s0 = eval(args[0], env, h);
        if args.len() == 1 {
            s0
        } else {
            match s0.out {
                Err(e) => s0,
                Ok(v) => eval_seq(args.drop_first(), env, s0.host),
            }
        }
    }
}

/// The operations the interpreter knows about. The table is fixed: an
/// unrecognized name is an `UnknownOperation` error, never a lookup.
#[derive(Clone, Copy, Debug, PartialEq, Eq, Structural)]
pub enum Func {
    Defun,
    Add,
    Subtract,
    Multiply,
    Concat,
    Equal,
    Print,
    Let,
    Progn,
    Return,
    ActaeonConnect,
    ActaeonReceive,
    ActaeonSend,
}

/// The operation a name denotes, if any.
pub open spec fn func_of_name(s: Seq<char>) -> Option<Func> {
    if s == "defun"@ {
        Some(Func::Defun)
    } else if s == "+"@ {
        Some(Func::Add)
    } else if s == "-"@ {
        Some(Func::Subtract)
    } else if s == "*"@ {
        Some(Func::Multiply)
    } else if s == "concat"@ {
        Some(Func::Concat)
    } else if s == "equal"@ {
        Some(Func::Equal)
    } else if s == "print"@ {
        Some(Func::Print)
    } else if s == "let"@ {
        Some(Func::Let)
    } else if s == "progn"@ {
        Some(Func::Progn)
    } else if s == "return"@ {
        Some(Func::Return)
    } else if s == "actaeon-create"@ {
        Some(Func::ActaeonConnect)
    } else if s == "actaeon-receive"@ {
        Some(Func::ActaeonReceive)
    } else if s == "actaeon-send"@ {
        Some(Func::ActaeonSend)
    } else {
        None
    }
}

impl Func {
    /// Look a name up in the operation table.
    pub fn new(name: &str) -> (r: Result<Func, LispError>)
        ensures
            match func_of_name(name@) {
                Some(f) => r == Ok::<Func, LispError>(f),
                None => r == Err::<Func, LispError>(LispError::UnknownOperation),
            },
    {
        if crate::string::str_eq(name, "defun") {
            Ok(Func::Defun)
        } else if crate::string::str_eq(name, "+") {
            Ok(Func::Add)
        } else if crate::string::str_eq(name, "-") {
            Ok(Func::Subtract)
        } else if crate::string::str_eq(name, "*") {
            Ok(Func::Multiply)
        } else if crate::string::str_eq(name, "concat") {
            Ok(Func::Concat)
        } else if crate::string::str_eq(name, "equal") {
            Ok(Func::Equal)
        } else if crate::string::str_eq(name, "print") {
            Ok(Func::Print)
        } else if crate::string::str_eq(name, "let") {
            Ok(Func::Let)
        } else if crate::string::str_eq(name, "progn") {
            Ok(Func::Progn)
        } else if crate::string::str_eq(name, "return") {
            Ok(Func::Return)
        } else if crate::string::str_eq(name, "actaeon-create") {
            Ok(Func::ActaeonConnect)
        } else if crate::string::str_eq(name, "actaeon-receive") {
            Ok(Func::ActaeonReceive)
        } else if crate::string::str_eq(name, "actaeon-send") {
            Ok(Func::ActaeonSend)
        } else {
            Err(LispError::UnknownOperation)
        }
    }
}

/// Evaluate `args[0]` and `args[1]` and read each as a number, mirroring
/// [`eval_two_nums`].
fn run_two_nums(args: &Vec<LispType>, vars: &mut Vec<LispType>, host: &mut Host) -> (r: Result<
    (i64, i64),
    LispError,
>)
    ensures
        final(vars)@ == old(vars)@,
        ({
            let s = eval_two_nums(model_seq(args@), model_seq(old(vars)@), old(host)@);
            r == s.0 && final(host)@ == s.1
        }),
    decreases args@, 0nat,
{
    proof {
        crate::lisptype::lemma_model_seq(args@);
    }
    if args.len() != 2 {
        return Err(LispError::ArityError);
    }
    let v0 = match args[0].run(vars, host) {
        Ok(v) => v,
        Err(e) => return Err(e),
    };
    let n0 = match v0.num(vars) {
        Ok(n) => n,
        Err(e) => return Err(e),
    };
    let v1 = match args[1].run(vars, host) {
        Ok(v) => v,
        Err(e) => return Err(e),
    };
    let n1 = match v1.num(vars) {
        Ok(n) => n,
        Err(e) => return Err(e),
    };
    Ok((n0, n1))
}

/// Evaluate `args[0]` and `args[1]` and render each as text, mirroring
/// [`eval_two_texts`].
fn run_two_texts(args: &Vec<LispType>, vars: &mut Vec<LispType>, host: &mut Host) -> (r: Result<
    (String, String),
    LispError,
>)
    ensures
        final(vars)@ == old(vars)@,
        ({
            let s = eval_two_texts(model_seq(args@), model_seq(old(vars)@), old(host)@);
            (match s.0 {
                Ok(p) => r matches Ok(q) && q.0@ == p.0 && q.1@ == p.1,
                Err(e) => r == Err::<(String, String), LispError>(e),
            }) && final(host)@ == s.1
        }),
    decreases args@, 0nat,
{
    proof {
        crate::lisptype::lemma_model_seq(args@);
    }
    if args.len() != 2 {
        return Err(LispError::ArityError);
    }
    let v0 = match args[0].run(vars, host) {
        Ok(v) => v,
        Err(e) => return Err(e),
    };
    let t0 = match v0.to_string(vars) {
        Ok(t) => t,
        Err(e) => return Err(e),
    };
    let v1 = match args[1].run(vars, host) {
        Ok(v) => v,
        Err(e) => return Err(e),
    };
    let t1 = match v1.to_string(vars) {
        Ok(t) => t,
        Err(e) => return Err(e),
    };
    Ok((t0, t1))
}

/// The transport handle this value carries, if it is one.
fn as_handle(v: &LispType) -> (r: Option<&crate::actaeon::Actaeon>)
    ensures
        match r {
            Some(a) => v@ == Val::Handle(a@),
            None => !(v@ is Handle),
        },
{
    match v {
        LispType::Actaeon(a) => Some(a),
        LispType::Number(n) => None,
        LispType::String(s) => None,
        LispType::Bool(b) => None,
        LispType::Expression(e) => None,
        LispType::Symbol(s) => None,
        LispType::Atom(n, b) => None,
    }
}

/// Evaluate the operand, render it, and print the line, mirroring the
/// matching arm of [`eval_call`].
fn run_print(args: &Vec<LispType>, vars: &mut Vec<LispType>, host: &mut Host) -> (r: Result<
    LispType,
    LispError,
>)
    ensures
        final(vars)@ == old(vars)@,
        ({
            let s = eval_call(
                Func::Print,
                model_seq(args@),
                model_seq(old(vars)@),
                old(host)@,
            );
            crate::lisptype::out_model(r) == s.out && final(host)@ == s.host
        }),
    decreases args@, 1nat,
{
    proof {
        crate::lisptype::lemma_model_seq(args@);
    }
    if args.len() != 1 {
        return Err(LispError::ArityError);
    }
    let v0 = match args[0].run(vars, host) {
        Ok(v) => v,
        Err(e) => return Err(e),
    };
    let t = match v0.to_string(vars) {
        Ok(t) => t,
        Err(e) => return Err(e),
    };
    crate::actaeon::print_line(host, t.as_str());
    Ok(LispType::Bool(false))
}

/// Bind a name for the dynamic extent of the body, mirroring the matching
/// arm of [`eval_call`].
fn run_let(args: &Vec<LispType>, vars: &mut Vec<LispType>, host: &mut Host) -> (r: Result<
    LispType,
    LispError,
>)
    ensures
        final(vars)@ == old(vars)@,
        ({
            let s = eval_call(
                Func::Let,
                model_seq(args@),
                model_seq(old(vars)@),
                old(host)@,
            );
            crate::lisptype::out_model(r) == s.out && final(host)@ == s.host
        }),
    decreases args@, 1nat,
{
    proof {
        crate::lisptype::lemma_model_seq(args@);
    }
    if args.len() != 3 {
        return Err(LispError::ArityError);
    }
    let name = match args[0].to_string_from_symbol() {
        Ok(n) => n,
        Err(e) => return Err(e),
    };
    let bound = match args[1].run(vars, host) {
        Ok(v) => v,
        Err(e) => return Err(e),
    };
    let ghost mid = vars@;
    vars.push(LispType::Atom(name, Box::new(bound)));
    proof {
        crate::lisptype::lemma_model_seq_push(
            mid,
            LispType::Atom(name, Box::new(bound)),
        );
    }
    let res = args[2].run(vars, host);
    vars.pop();
    proof {
        assert(final(vars)@ =~= mid);
    }
    res
}

/// Match the stored name against the candidate and run the body,
/// mirroring the matching arm of [`eval_call`].
fn run_defun(args: &Vec<LispType>, vars: &mut Vec<LispType>, host: &mut Host) -> (r: Result<
    LispType,
    LispError,
>)
    ensures
        final(vars)@ == old(vars)@,
        ({
            let s = eval_call(
                Func::Defun,
                model_seq(args@),
                model_seq(old(vars)@),
                old(host)@,
            );
            crate::lisptype::out_model(r) == s.out && final(host)@ == s.host
        }),
    decreases args@, 1nat,
{
    proof {
        crate::lisptype::lemma_model_seq(args@);
    }
    if args.len() < 2 {
        return Err(LispError::ArityError);
    }
    let empty_env: Vec<LispType> = Vec::new();
    proof {
        assert(model_seq(empty_env@) =~= Seq::<Val>::empty());
    }
    let stored = match args[0].to_string(&empty_env) {
        Ok(s) => s,
        Err(e) => return Err(e),
    };
    if vars.len() == 0 {
        return Ok(LispType::Bool(false));
    }
    proof {
        crate::lisptype::lemma_model_seq(vars@);
    }
    let cand = match vars[0].to_string(vars) {
        Ok(s) => s,
        Err(e) => return Err(e),
    };
    if crate::string::str_eq(stored.as_str(), cand.as_str()) {
        proof {
            assert(args@.skip(1) =~= args@.subrange(1, args@.len() as int));
            assert(decreases_to!(args@ => args@.subrange(1, args@.len() as int)));
        }
        run_seq(args, 1, vars, host)
    } else {
        Ok(LispType::Bool(false))
    }
}

/// Take the next queued transport message, without blocking, mirroring
/// the matching arm of [`eval_call`].
fn run_receive(args: &Vec<LispType>, vars: &mut Vec<LispType>, host: &mut Host) -> (r: Result<
    LispType,
    LispError,
>)
    ensures
        final(vars)@ == old(vars)@,
        ({
            let s = eval_call(
                Func::ActaeonReceive,
                model_seq(args@),
                model_seq(old(vars)@),
                old(host)@,
            );
            crate::lisptype::out_model(r) == s.out && final(host)@ == s.host
        }),
    decreases args@, 1nat,
{
    proof {
        crate::lisptype::lemma_model_seq(args@);
    }
    if args.len() != 1 {
        return Err(LispError::ArityError);
    }
    let v0 = match args[0].run(vars, host) {
        Ok(v) => v,
        Err(e) => return Err(e),
    };
    match as_handle(&v0) {
        Some(a) => Ok(a.receive(host)),
        None => Err(LispError::TypeMismatch),
    }
}

/// Hand a message to the transport, mirroring the matching arm of
/// [`eval_call`].
fn run_send(args: &Vec<LispType>, vars: &mut Vec<LispType>, host: &mut Host) -> (r: Result<
    LispType,
    LispError,
>)
    ensures
        final(vars)@ == old(vars)@,
        ({
            let s = eval_call(
                Func::ActaeonSend,
                model_seq(args@),
                model_seq(old(vars)@),
                old(host)@,
            );
            crate::lisptype::out_model(r) == s.out && final(host)@ == s.host
        }),
    decreases args@, 1nat,
{
    proof {
        crate::lisptype::lemma_model_seq(args@);
    }
    if args.len() != 2 {
        return Err(LispError::ArityError);
    }
    let v0 = match args[0].run(vars, host) {
        Ok(v) => v,
        Err(e) => return Err(e),
    };
    if as_handle(&v0).is_none() {
        return Err(LispError::TypeMismatch);
    }
    let v1 = match args[1].run(vars, host) {
        Ok(v) => v,
        Err(e) => return Err(e),
    };
    let t = match v1.to_string(vars) {
        Ok(t) => t,
        Err(e) => return Err(e),
    };
    match as_handle(&v0) {
        Some(a) => Ok(a.send(host, t.as_str())),
        None => Err(LispError::TypeMismatch),
    }
}

/// Run one operation against its unevaluated operands, mirroring
/// [`eval_call`] arm by arm.
#[verifier::spinoff_prover]
pub(crate) fn run_call(f: Func, args: &Vec<LispType>, vars: &mut Vec<LispType>, host: &mut Host) -> (r:
    Result<LispType, LispError>)
    ensures
        final(vars)@ == old(vars)@,
        ({
            let s = eval_call(f, model_seq(args@), model_seq(old(vars)@), old(host)@);
            crate::lisptype::out_model(r) == s.out && final(host)@ == s.host
        }),
    decreases args@, 2nat,
{
    proof {
        crate::lisptype::lemma_model_seq(args@);
    }
    match f {
        Func::Add => {
            match run_two_nums(args, vars, host) {
                Ok(p) => Ok(LispType::Number(p.0.wrapping_add(p.1))),
                Err(e) => Err(e),
            }
        },
        Func::Subtract => {
            match run_two_nums(args, vars, host) {
                Ok(p) => Ok(LispType::Number(p.0.wrapping_sub(p.1))),
                Err(e) => Err(e),
            }
        },
        Func::Multiply => {
            match run_two_nums(args, vars, host) {
                Ok(p) => Ok(LispType::Number(p.0.wrapping_mul(p.1))),
                Err(e) => Err(e),
            }
        },
        Func::Concat => {
            match run_two_texts(args, vars, host) {
                Ok(p) => Ok(LispType::String(crate::string::Append::append(p.0, p.1))),
                Err(e) => Err(e),
            }
        },
        Func::Equal => {
            match run_two_texts(args, vars, host) {
                Ok(p) => Ok(LispType::Bool(crate::string::str_eq(p.0.as_str(), p.1.as_str()))),
                Err(e) => Err(e),
            }
        },
        Func::Print => run_print(args, vars, host),
        Func::Let => run_let(args, vars, host),
        Func::Progn => {
            if args.len() == 0 {
                return Err(LispError::ArityError);
            }
            proof {
                assert(model_seq(args@).skip(0) =~= model_seq(args@));
                assert(args@.skip(0) =~= args@);
            }
            run_seq(args, 0, vars, host)
        },
        Func::Return => {
            if args.len() != 1 {
                return Err(LispError::ArityError);
            }
            args[0].run(vars, host)
        },
        Func::Defun => run_defun(args, vars, host),
        Func::ActaeonConnect => {
            match run_two_texts(args, vars, host) {
                Ok(p) => Ok(
                    crate::actaeon::Actaeon::new("127.0.0.1", p.0.as_str(), 4242, p.1.as_str()),
                ),
                Err(e) => Err(e),
            }
        },
        Func::ActaeonReceive => run_receive(args, vars, host),
        Func::ActaeonSend => run_send(args, vars, host),
    }
}

/// Evaluate `args[i ..]` left to right, mirroring [`eval_seq`].
pub(crate) fn run_seq(args: &Vec<LispType>, i: usize, vars: &mut Vec<LispType>, host: &mut Host) -> (r:
    Result<LispType, LispError>)
    requires
        i < args@.len(),
    ensures
        final(vars)@ == old(vars)@,
        ({
            let s = eval_seq(model_seq(args@).skip(i as int), model_seq(old(vars)@), old(host)@);
            crate::lisptype::out_model(r) == s.out && final(host)@ == s.host
        }),
    decreases args@.skip(i as int), 0nat,
{
    proof {
        crate::lisptype::lemma_model_seq(args@);
        assert(model_seq(args@).skip(i as int)[0] == model_seq(args@)[i as int]);
        assert(model_seq(args@).skip(i as int).len() == args@.len() - i);
        assert(args@.skip(i as int)[0] == args@[i as int]);
        assert(decreases_to!(args@.skip(i as int) => args@.skip(i as int)[0]));
    }
    let n = args.len();
    let v = args[i].run(vars, host);
    if i == n - 1 {
        v
    } else {
        match v {
            Err(e) => Err(e),
            Ok(w) => {
                proof {
                    assert(model_seq(args@).skip(i as int).drop_first() =~= model_seq(args@).skip(
                        i as int + 1,
                    ));
                    let tail = args@.skip(i as int);
                    assert(args@.skip(i as int + 1) =~= tail.subrange(1, tail.len() as int));
                    assert(decreases_to!(tail => tail.subrange(1, tail.len() as int)));
                }
                run_seq(args, i + 1, vars, host)
            },
        }
    }
}

/// A pending application: an operation and its unevaluated operands.
#[derive(Debug)]
pub struct Expression {
    pub func: Func,
    pub args: Vec<LispType>,
}

impl Expression {
    /// Build an application from an operation name and its operands.
    pub fn create(name: &str, args: Vec<LispType>) -> (r: Result<Expression, LispError>)
        ensures
            match func_of_name(name@) {
                Some(f) => r matches Ok(e) && e.func == f && e.args@ == args@,
                None => r == Err::<Expression, LispError>(LispError::UnknownOperation),
            },
    {
        match Func::new(name) {
            Ok(f) => Ok(Expression { func: f, args }),
            Err(e) => Err(e),
        }
    }

    /// Run this application: dispatch its operation on its operands. The
    /// environment is handed back exactly as it came, whether the run
    /// succeeded or failed.
    pub fn run(&self, vars: &mut Vec<LispType>, host: &mut Host) -> (r: Result<
        LispType,
        LispError,
    >)
        ensures
            final(vars)@ == old(vars)@,
            ({
                let s = eval_call(
                    self.func,
                    model_seq(self.args@),
                    model_seq(old(vars)@),
                    old(host)@,
                );
                crate::lisptype::out_model(r) == s.out && final(host)@ == s.host
            }),
    {
        run_call(self.func, &self.args, vars, host)
    }
}

} // verus!

