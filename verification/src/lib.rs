//! Arrow is a small interpreter for a Lisp-family dialect: source text in
//! parenthesized prefix notation is tokenized, parsed into a tree of typed
//! values, and evaluated by a tree-walking engine with a stack-discipline
//! variable environment.
//!
//! The crate is organised as the data flows: [`tokenize`] turns text into
//! tokens and a tree of [`tokenize::TokenContainer`] nodes, which
//! [`tokenize::create_lisptypes`] converts into [`lisptype::LispType`]
//! values; [`expression`] holds the fixed operation table and the evaluator;
//! [`actaeon`] models the host-side effects (printing, transport messages);
//! and [`Arrow`] is the top-level registry of named definitions.

pub mod actaeon;
pub mod expression;
pub mod lisptype;
pub mod string;
pub mod tokenize;

use crate::actaeon::{Host, HostView};
use crate::expression::{eval, step_ok, Step};
use crate::lisptype::{classify, model_seq, out_model, LispType, Val};
use crate::tokenize::{convert, forest_of, TokenContainer};
use vstd::prelude::*;

verus! {

/// The failure taxonomy of the interpreter. Every fallible operation of the
/// crate reports one of these; evaluation forwards the first failure it meets.
#[derive(Clone, Copy, Debug, PartialEq, Eq, Structural)]
pub enum LispError {
    /// Malformed source text during tokenizing or parsing.
    SyntaxError,
    /// Wrong operand count for an operation.
    ArityError,
    /// An operand of the wrong kind for the operation.
    TypeMismatch,
    /// A symbol had no matching binding when resolution was required.
    UnboundSymbol,
    /// An operation name not present in the fixed dispatch table.
    UnknownOperation,
    /// An attempt to reduce an environment binding directly.
    InvalidReduction,
    /// A failure surfaced at the transport-operation boundary.
    TransportError,
}

/// What registering source text adds to the registry: the first top-level
/// form, parsed and converted. Text with no form at all is a syntax error.
pub open spec fn register_spec(text: Seq<char>) -> Result<Val, LispError> {
    match forest_of(text) {
        Err(e) => Err(e),
        Ok(forest) => if forest.len() == 0 {
            Err(LispError::SyntaxError)
        } else {
            convert(forest[0])
        },
    }
}

/// What invoking `name` does: every entry of the registry is evaluated, in
/// registration order, against an environment holding only the candidate;
/// the first failure is forwarded, and otherwise the result is whatever the
/// last entry returned. An empty registry yields `Boolean(false)`.
pub open spec fn invoke_spec(funcs: Seq<Val>, name: Seq<char>, h: HostView) -> Step
    decreases funcs.len(),
{
    if funcs.len() == 0 {
        step_ok(Val::Boolean(false), h)
    } else {
        let s0 = eval(funcs[0], seq![classify(name)], h);
        if funcs.len() == 1 {
            s0
        } else {
            match s0.out {
                Err(e) => s0,
                Ok(v) => invoke_spec(funcs.drop_first(), name, s0.host),
            }
        }
    }
}

/// Invoking any name on an empty registry yields `Boolean(false)` and
/// leaves the host untouched — it is never an error.
pub proof fn lemma_invoke_empty(name: Seq<char>, h: HostView)
    ensures
        invoke_spec(Seq::empty(), name, h) == step_ok(Val::Boolean(false), h),
{
}

/// Whether `v` is a definition that does not answer to `name`: a `defun`
/// call with a name and a body whose stored name renders to something other
/// than what the invocation's candidate renders to.
pub open spec fn defun_mismatch(v: Val, name: Seq<char>) -> bool {
    match v {
        Val::Call(f, args) => f == crate::expression::Func::Defun && args.len() >= 2 && match crate::lisptype::render(
            args[0],
            Seq::empty(),
        ) {
            Err(e) => false,
            Ok(stored) => match crate::lisptype::render(
                classify(name),
                seq![classify(name)],
            ) {
                Err(e) => false,
                Ok(cand) => stored != cand,
            },
        },
        _ => false,
    }
}

/// Invoking a name that no registry entry answers to yields
/// `Boolean(false)`, never an error: every mismatched definition returns
/// `Boolean(false)` without running its body, and the host is untouched.
pub proof fn lemma_invoke_no_match(funcs: Seq<Val>, name: Seq<char>, h: HostView)
    requires
        forall|i: int| 0 <= i < funcs.len() ==> defun_mismatch(#[trigger] funcs[i], name),
    ensures
        invoke_spec(funcs, name, h) == step_ok(Val::Boolean(false), h),
    decreases funcs.len(),
{
    if funcs.len() > 0 {
        assert(defun_mismatch(funcs[0], name));
        let env = seq![classify(name)];
        assert(env.len() == 1);
        assert(env[0] == classify(name));
        assert(eval(funcs[0], env, h) == step_ok(Val::Boolean(false), h));
        if funcs.len() > 1 {
            assert forall|i: int| 0 <= i < funcs.drop_first().len() implies defun_mismatch(
                #[trigger] funcs.drop_first()[i],
                name,
            ) by {
                assert(funcs.drop_first()[i] == funcs[i + 1]);
            }
            lemma_invoke_no_match(funcs.drop_first(), name, h);
        }
    }
}

/// The top-level wrapper: an append-only registry of named definitions, and
/// the host state their evaluation threads through.
#[derive(Debug)]
pub struct Arrow {
    pub funcs: Vec<LispType>,
    pub host: Host,
}

impl Default for Arrow {
    fn default() -> (a: Arrow)
        ensures
            a.funcs@.len() == 0,
            a.host@.printed.len() == 0,
            a.host@.inbox.len() == 0,
            a.host@.sent.len() == 0,
    {
        Arrow { funcs: Vec::new(), host: Host::new() }
    }
}

impl Arrow {
    /// Parse the first top-level form of `f` and append it to the registry.
    /// On failure the registry and the host are left exactly as they were.
    pub fn add_function(&mut self, f: &str) -> (r: Result<(), LispError>)
        ensures
            match register_spec(f@) {
                Ok(v) => r matches Ok(()) && model_seq(final(self).funcs@) == model_seq(
                    old(self).funcs@,
                ).push(v),
                Err(e) => r == Err::<(), LispError>(e) && final(self).funcs@ == old(self).funcs@,
            },
            final(self).host@ == old(self).host@,
    {
        let mut forest = match crate::tokenize::ast(f) {
            Ok(v) => v,
            Err(e) => {
                return Err(e);
            },
        };
        if forest.len() == 0 {
            return Err(LispError::SyntaxError);
        }
        proof {
            crate::tokenize::lemma_containers_model(forest@);
        }
        // Only the first top-level form is registered.
        let ghost whole = crate::tokenize::containers_model(forest@);
        let first_tree = forest.remove(0);
        let ghost tm = first_tree@;
        proof {
            assert(whole[0] == tm);
        }
        let mut single: Vec<TokenContainer> = Vec::new();
        single.push(first_tree);
        proof {
            crate::tokenize::lemma_containers_model(single@);
            assert(crate::tokenize::containers_model(single@) =~= seq![tm]);
            assert(seq![tm][0] == tm);
            assert(seq![tm].drop_first() =~= Seq::<crate::tokenize::TokModel>::empty());
            reveal_with_fuel(crate::tokenize::convert_forest, 2);
        }
        let mut converted = match crate::tokenize::create_lisptypes(single) {
            Ok(v) => v,
            Err(e) => {
                proof {
                    assert(convert(tm) == Err::<Val, LispError>(e));
                    assert(register_spec(f@) == Err::<Val, LispError>(e));
                }
                return Err(e);
            },
        };
        proof {
            crate::lisptype::lemma_model_seq(converted@);
            assert(model_seq(converted@)[0] == convert(tm)->Ok_0);
        }
        let first = converted.remove(0);
        let ghost fv = first@;
        let ghost prev = self.funcs@;
        proof {
            crate::lisptype::lemma_model_seq_push(prev, first);
        }
        self.funcs.push(first);
        proof {
            assert(model_seq(self.funcs@) =~= model_seq(prev).push(fv));
        }
        Ok(())
    }

    /// Invoke a name: hand a symbol for it to every registry entry in
    /// order, and surface what the last one returned. A name that no entry
    /// matches yields `Boolean(false)`, never an error.
    pub fn run(&mut self, n: &str) -> (r: Result<LispType, LispError>)
        ensures
            final(self).funcs@ == old(self).funcs@,
            ({
                let s = invoke_spec(model_seq(old(self).funcs@), n@, old(self).host@);
                out_model(r) == s.out && final(self).host@ == s.host
            }),
    {
        proof {
            assert(model_seq(self.funcs@).skip(0) =~= model_seq(self.funcs@));
        }
        run_entries(&self.funcs, 0, n, &mut self.host)
    }
}

/// Evaluate the registry entries from position `i` on, mirroring
/// [`invoke_spec`].
fn run_entries(funcs: &Vec<LispType>, i: usize, n: &str, host: &mut Host) -> (r: Result<
    LispType,
    LispError,
>)
    requires
        i <= funcs@.len(),
    ensures
        ({
            let s = invoke_spec(model_seq(funcs@).skip(i as int), n@, old(host)@);
            out_model(r) == s.out && final(host)@ == s.host
        }),
    decreases funcs@.len() - i,
{
    proof {
        crate::lisptype::lemma_model_seq(funcs@);
    }
    if i == funcs.len() {
        proof {
            assert(model_seq(funcs@).skip(i as int) =~= Seq::<Val>::empty());
        }
        return Ok(LispType::Bool(false));
    }
    proof {
        assert(model_seq(funcs@).skip(i as int)[0] == model_seq(funcs@)[i as int]);
        assert(model_seq(funcs@).skip(i as int).drop_first() =~= model_seq(funcs@).skip(
            i as int + 1,
        ));
    }
    let cand = crate::lisptype::classify_token(n);
    let mut env: Vec<LispType> = Vec::new();
    env.push(cand);
    proof {
        crate::lisptype::lemma_model_seq(env@);
        assert(env@[0].model() == classify(n@));
        assert(model_seq(env@) =~= seq![classify(n@)]);
    }
    let v = funcs[i].run(&mut env, host);
    let len = funcs.len();
    if i == len - 1 {
        v
    } else {
        match v {
            Err(e) => Err(e),
            Ok(w) => run_entries(funcs, i + 1, n, host),
        }
    }
}

} // verus!
