//! The tagged value model.
//!
//! [`LispType`] is the runtime datum: one active variant at a time. Its
//! spec-level counterpart is [`Val`]; every executable value models exactly
//! one [`Val`], and every contract in the crate speaks of the models.
//!
//! Two deliberate rules of this dialect are fixed here:
//! - Numbers are exact 64-bit signed integers (see [`crate::string`]).
//! - A symbol is resolved by scanning the environment from the
//!   earliest-pushed binding forward and taking the first name match, so an
//!   outer binding is found before an inner one that reuses its name.

use crate::actaeon::{Actaeon, HandleView};
use crate::expression::{Expression, Func};
use crate::string::{dec_str, str_eq};
use crate::LispError;
use vstd::prelude::*;
use vstd::string::StrSliceExecFns;
use vstd::string::StringExecFns;

verus! {

/// The runtime datum: number, text, boolean, unresolved symbol, pending
/// call, environment binding, or an opaque transport handle.
#[derive(Debug)]
pub enum LispType {
    Number(i64),
    String(String),
    Bool(bool),
    Expression(Expression),
    Symbol(String),
    Atom(String, Box<LispType>),
    Actaeon(Actaeon),
}

/// The spec-level value a [`LispType`] stands for.
pub ghost enum Val {
    Number(i64),
    Text(Seq<char>),
    Boolean(bool),
    Symbol(Seq<char>),
    Call(Func, Seq<Val>),
    Binding(Seq<char>, Box<Val>),
    Handle(HandleView),
}

impl LispType {
    /// The value this datum stands for.
    pub open spec fn model(self) -> Val
        decreases self,
    {
        match self {
            LispType::Number(n) => Val::Number(n),
            LispType::String(s) => Val::Text(s@),
            LispType::Bool(b) => Val::Boolean(b),
            LispType::Expression(e) => Val::Call(e.func, model_seq(e.args@)),
            LispType::Symbol(s) => Val::Symbol(s@),
            LispType::Atom(n, b) => Val::Binding(n@, Box::new((*b).model())),
            LispType::Actaeon(a) => Val::Handle(a@),
        }
    }
}

/// The models of a sequence of datums.
pub open spec fn model_seq(s: Seq<LispType>) -> Seq<Val>
    decreases s,
{
    if s.len() == 0 {
        Seq::empty()
    } else {
        seq![s[0].model()] + model_seq(s.drop_first())
    }
}

/// `model_seq` maps the sequence elementwise.
pub proof fn lemma_model_seq(s: Seq<LispType>)
    ensures
        model_seq(s).len() == s.len(),
        forall|i: int| 0 <= i < s.len() ==> model_seq(s)[i] == #[trigger] s[i].model(),
    decreases s.len(),
{
    if s.len() > 0 {
        lemma_model_seq(s.drop_first());
        assert forall|i: int| 0 <= i < s.len() implies model_seq(s)[i] == #[trigger] s[i].model() by {
            if i > 0 {
                assert(s.drop_first()[i - 1] == s[i]);
            }
        }
    }
}

/// `model_seq` commutes with appending one element.
pub proof fn lemma_model_seq_push(s: Seq<LispType>, x: LispType)
    ensures
        model_seq(s.push(x)) == model_seq(s).push(x.model()),
{
    lemma_model_seq(s);
    lemma_model_seq(s.push(x));
    assert forall|i: int| 0 <= i < s.len() + 1 implies model_seq(s.push(x))[i] == model_seq(
        s,
    ).push(x.model())[i] by {
        assert(model_seq(s.push(x))[i] == s.push(x)[i].model());
        if i < s.len() {
            assert(s.push(x)[i] == s[i]);
        } else {
            assert(s.push(x)[i] == x);
        }
    }
    assert(model_seq(s.push(x)) =~= model_seq(s).push(x.model()));
}

/// `model_seq` commutes with dropping a prefix.
pub proof fn lemma_model_seq_skip(s: Seq<LispType>, i: int)
    requires
        0 <= i <= s.len(),
    ensures
        model_seq(s.skip(i)) == model_seq(s).skip(i),
{
    lemma_model_seq(s);
    lemma_model_seq(s.skip(i));
    assert forall|k: int| 0 <= k < s.len() - i implies model_seq(s.skip(i))[k] == model_seq(s).skip(
        i,
    )[k] by {
        assert(model_seq(s.skip(i))[k] == s.skip(i)[k].model());
        assert(s.skip(i)[k] == s[i + k]);
    }
    assert(model_seq(s.skip(i)) =~= model_seq(s).skip(i));
}

impl View for LispType {
    type V = Val;

    open spec fn view(&self) -> Val {
        self.model()
    }
}

/// The model of an evaluation result: the value's model on success, the
/// error unchanged on failure.
pub open spec fn out_model(r: Result<LispType, LispError>) -> Result<Val, LispError> {
    match r {
        Ok(v) => Ok(v.model()),
        Err(e) => Err(e),
    }
}

/// How a literal token is classified, trying in order: a numeric literal;
/// text wrapped in double quotes; the boolean literals `t` and `nil`; and
/// otherwise a symbol, with one leading quote mark stripped.
pub open spec fn classify(w: Seq<char>) -> Val {
    if crate::string::num_shape(w) && crate::string::fits_i64(crate::string::num_val(w)) {
        Val::Number(crate::string::num_val(w) as i64)
    } else if w.len() >= 2 && w[0] == '"' && w[w.len() - 1] == '"' {
        Val::Text(w.subrange(1, w.len() - 1))
    } else if w == "t"@ {
        Val::Boolean(true)
    } else if w == "nil"@ {
        Val::Boolean(false)
    } else if w.len() >= 1 && w[0] == '\'' {
        Val::Symbol(w.drop_first())
    } else {
        Val::Symbol(w)
    }
}

/// Classify one literal token into a value.
pub(crate) fn classify_token(w: &str) -> (v: LispType)
    ensures
        v@ == classify(w@),
{
    match crate::string::parse_number(w) {
        Some(n) => LispType::Number(n),
        None => {
            let len = w.unicode_len();
            if len >= 2 && w.get_char(0) == '"' && w.get_char(len - 1) == '"' {
                LispType::String(String::from_str(w.substring_char(1, len - 1)))
            } else if str_eq(w, "t") {
                LispType::Bool(true)
            } else if str_eq(w, "nil") {
                LispType::Bool(false)
            } else if len >= 1 && w.get_char(0) == '\'' {
                proof {
                    assert(w@.subrange(1, w@.len() as int) =~= w@.drop_first());
                }
                LispType::Symbol(String::from_str(w.substring_char(1, len)))
            } else {
                LispType::Symbol(String::from_str(w))
            }
        },
    }
}

impl LispType {
    /// Classify a single literal token into a value. Exactly one token is
    /// expected.
    pub fn new(args: &[String]) -> (r: Result<LispType, LispError>)
        ensures
            args@.len() == 1 ==> (r matches Ok(v) && v@ == classify(args@[0]@)),
            args@.len() != 1 ==> r == Err::<LispType, LispError>(LispError::ArityError),
    {
        if args.len() == 1 {
            Ok(classify_token(args[0].as_str()))
        } else {
            Err(LispError::ArityError)
        }
    }
}

/// The first binding for `name`, scanning from the earliest-pushed entry of
/// the environment forward.
pub open spec fn lookup(env: Seq<Val>, name: Seq<char>) -> Option<Val>
    decreases env.len(),
{
    if env.len() == 0 {
        None
    } else {
        match env[0] {
            Val::Binding(n, b) => if n == name {
                Some(*b)
            } else {
                lookup(env.drop_first(), name)
            },
            _ => lookup(env.drop_first(), name),
        }
    }
}

/// Numeric coercion: a number itself, or a symbol whose first matching
/// binding holds a number.
pub open spec fn num_of(v: Val, env: Seq<Val>) -> Result<i64, LispError> {
    match v {
        Val::Number(n) => Ok(n),
        Val::Symbol(s) => match lookup(env, s) {
            None => Err(LispError::UnboundSymbol),
            Some(w) => match w {
                Val::Number(n) => Ok(n),
                _ => Err(LispError::TypeMismatch),
            },
        },
        _ => Err(LispError::TypeMismatch),
    }
}

/// Textual rendering: numbers in decimal, booleans as `t`/`nil`, text
/// verbatim, a symbol through its first matching binding (or as its own
/// name), and a binding as `( name value )`. A pending call and a transport
/// handle have no textual form.
pub open spec fn render(v: Val, env: Seq<Val>) -> Result<Seq<char>, LispError>
    decreases env.len(), v,
{
    match v {
        Val::Number(n) => Ok(dec_str(n as int)),
        Val::Text(s) => Ok(s),
        Val::Boolean(b) => Ok(
            if b {
                "t"@
            } else {
                "nil"@
            },
        ),
        Val::Symbol(s) => match lookup(env, s) {
            None => Ok(s),
            Some(w) => render(w, Seq::empty()),
        },
        Val::Call(f, args) => Err(LispError::TypeMismatch),
        Val::Binding(n, b) => match render(*b, env) {
            Ok(t) => Ok("( "@ + n + " "@ + t + " )"@),
            Err(e) => Err(e),
        },
        Val::Handle(h) => Err(LispError::TypeMismatch),
    }
}

/// Boolean coercion: a boolean itself, the texts `t` and `nil`, and the
/// numbers one and zero.
pub open spec fn bool_of(v: Val) -> Result<bool, LispError> {
    match v {
        Val::Boolean(b) => Ok(b),
        Val::Text(s) => if s == "t"@ {
            Ok(true)
        } else if s == "nil"@ {
            Ok(false)
        } else {
            Err(LispError::TypeMismatch)
        },
        Val::Number(n) => if n == 0 {
            Ok(false)
        } else if n == 1 {
            Ok(true)
        } else {
            Err(LispError::TypeMismatch)
        },
        _ => Err(LispError::TypeMismatch),
    }
}

/// The first binding for `name` in `vars`, scanning from the front.
fn find_binding<'a>(vars: &'a Vec<LispType>, name: &str) -> (r: Option<&'a LispType>)
    ensures
        match lookup(model_seq(vars@), name@) {
            None => r is None,
            Some(w) => r matches Some(b) && b@ == w,
        },
{
    proof {
        lemma_model_seq(vars@);
        assert(model_seq(vars@).skip(0) =~= model_seq(vars@));
    }
    let mut i: usize = 0;
    while i < vars.len()
        invariant
            0 <= i <= vars@.len(),
            lookup(model_seq(vars@), name@) == lookup(model_seq(vars@).skip(i as int), name@),
        decreases vars@.len() - i,
    {
        proof {
            lemma_model_seq(vars@);
            lemma_model_seq_skip(vars@, i as int);
            assert(model_seq(vars@).skip(i as int).len() == vars@.len() - i);
            assert(model_seq(vars@).skip(i as int)[0] == vars@[i as int].model());
            assert(model_seq(vars@).skip(i as int).drop_first() =~= model_seq(vars@).skip(
                i as int + 1,
            ));
        }
        match &vars[i] {
            LispType::Atom(n, b) => {
                if str_eq(n.as_str(), name) {
                    return Some(&**b);
                }
            },
            _ => {},
        }
        i += 1;
    }
    proof {
        assert(model_seq(vars@).skip(vars@.len() as int) =~= Seq::<Val>::empty());
    }
    None
}

impl LispType {
    /// Read this value as a number, resolving a symbol through the
    /// environment.
    pub fn num(&self, vars: &Vec<LispType>) -> (r: Result<i64, LispError>)
        ensures
            r == num_of(self@, model_seq(vars@)),
    {
        match self {
            LispType::Number(n) => Ok(*n),
            LispType::Symbol(s) => match find_binding(vars, s.as_str()) {
                None => Err(LispError::UnboundSymbol),
                Some(b) => match b {
                    LispType::Number(n) => Ok(*n),
                    _ => Err(LispError::TypeMismatch),
                },
            },
            _ => Err(LispError::TypeMismatch),
        }
    }

    /// Read this value as a boolean.
    pub fn bool(&self) -> (r: Result<bool, LispError>)
        ensures
            r == bool_of(self@),
    {
        match self {
            LispType::Bool(b) => Ok(*b),
            LispType::String(s) => {
                if str_eq(s.as_str(), "t") {
                    Ok(true)
                } else if str_eq(s.as_str(), "nil") {
                    Ok(false)
                } else {
                    Err(LispError::TypeMismatch)
                }
            },
            LispType::Number(n) => {
                if *n == 0 {
                    Ok(false)
                } else if *n == 1 {
                    Ok(true)
                } else {
                    Err(LispError::TypeMismatch)
                }
            },
            _ => Err(LispError::TypeMismatch),
        }
    }

    /// Render this value as text, resolving a symbol through the
    /// environment.
    pub fn to_string(&self, vars: &Vec<LispType>) -> (r: Result<String, LispError>)
        ensures
            match render(self@, model_seq(vars@)) {
                Ok(t) => r matches Ok(s) && s@ == t,
                Err(e) => r == Err::<String, LispError>(e),
            },
        decreases vars@.len(), *self,
    {
        match self {
            LispType::Number(n) => Ok(crate::string::render_i64(*n)),
            LispType::String(s) => Ok(s.clone()),
            LispType::Bool(b) => {
                if *b {
                    Ok(String::from_str("t"))
                } else {
                    Ok(String::from_str("nil"))
                }
            },
            LispType::Symbol(s) => {
                match find_binding(vars, s.as_str()) {
                    None => Ok(s.clone()),
                    Some(b) => {
                        proof {
                            if vars@.len() == 0 {
                                lemma_model_seq(vars@);
                                assert(model_seq(vars@) =~= Seq::<Val>::empty());
                            }
                        }
                        let empty: Vec<LispType> = Vec::new();
                        b.to_string(&empty)
                    },
                }
            },
            LispType::Expression(e) => Err(LispError::TypeMismatch),
            LispType::Atom(n, b) => {
                match b.to_string(vars) {
                    Ok(t) => {
                        let s = crate::string::Append::append(
                            crate::string::Append::append(
                                crate::string::Append::append(
                                    crate::string::Append::append(
                                        String::from_str("( "),
                                        n.clone(),
                                    ),
                                    String::from_str(" "),
                                ),
                                t,
                            ),
                            String::from_str(" )"),
                        );
                        proof {
                            assert(s@ =~= "( "@ + n@ + " "@ + render((*b)@, model_seq(vars@))->Ok_0
                                + " )"@);
                        }
                        Ok(s)
                    },
                    Err(e) => Err(e),
                }
            },
            LispType::Actaeon(a) => Err(LispError::TypeMismatch),
        }
    }

    /// Reduce this value. A literal, a symbol or a handle reduces to a copy
    /// of itself; a pending call runs its operation; a binding never
    /// reduces. The environment is handed back exactly as it came, whether
    /// the run succeeded or failed.
    pub fn run(&self, vars: &mut Vec<LispType>, host: &mut crate::actaeon::Host) -> (r: Result<
        LispType,
        LispError,
    >)
        ensures
            final(vars)@ == old(vars)@,
            ({
                let s = crate::expression::eval(self@, model_seq(old(vars)@), old(host)@);
                out_model(r) == s.out && final(host)@ == s.host
            }),
        decreases *self, 0nat,
    {
        match self {
            LispType::Expression(e) => {
                proof {
                    assert(decreases_to!(*self => e.args@));
                }
                crate::expression::run_call(e.func, &e.args, vars, host)
            },
            LispType::Number(n) => Ok(LispType::Number(*n)),
            LispType::String(s) => Ok(LispType::String(s.clone())),
            LispType::Bool(b) => Ok(LispType::Bool(*b)),
            LispType::Symbol(s) => Ok(LispType::Symbol(s.clone())),
            LispType::Atom(n, b) => Err(LispError::InvalidReduction),
            LispType::Actaeon(a) => Ok(
                LispType::Actaeon(
                    Actaeon {
                        center: a.center.clone(),
                        remote: a.remote.clone(),
                        port: a.port,
                        topic: a.topic.clone(),
                    },
                ),
            ),
        }
    }

    /// The name a symbol carries; an error on every other variant.
    pub fn to_string_from_symbol(&self) -> (r: Result<String, LispError>)
        ensures
            match self@ {
                Val::Symbol(s) => r matches Ok(n) && n@ == s,
                _ => r == Err::<String, LispError>(LispError::TypeMismatch),
            },
    {
        match self {
            LispType::Symbol(s) => Ok(s.clone()),
            _ => Err(LispError::TypeMismatch),
        }
    }
}

} // verus!
