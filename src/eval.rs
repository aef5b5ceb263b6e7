//! The evaluator: a stack of scopes and the rules that reduce a form.
use crate::default_env::{
    apply_pure, arity_of, builtin_arity, define_signature, display_all, display_values,
    names_of, pure_result, symbol_names,
};
use crate::env::{env_lookup, env_set, std_table, Env, EnvV};
use crate::parse::{parse_str, read_source, ParseError};
use crate::text::{decimal, push_chars, push_decimal, push_str, string_of};
use crate::value::{
    lemma_views, show, show_args, show_type, typ_of, type_error, views, write_value, Args, ArgsV,
    Builtin, FromLisp, SVal, Type, Value, texts,
};
use vstd::prelude::*;

verus! {

/// Why an evaluation failed.
#[derive(Debug)]
pub enum FuncError {
    /// A callable got a number of arguments that its arity does not accept.
    InvalidArguments { expected: Args, got: usize },
    /// A value was not of any of the expected types.
    InvalidType { expected: Vec<Type>, got: Value },
    /// A symbol is bound in no active scope.
    UndeclaredSymbol(String),
    /// The head of a call form is not callable.
    AttemptToCallNonFunction(Value),
    /// An empty list was evaluated as a call form.
    AttemptToEvalEmptyList,
    /// A list primitive needed an element of an empty list.
    GivenEmptyList,
    /// The host had no input to give.
    IoError(String),
    /// The source text could not be read.
    ParsingErr(ParseError),
    /// The program asked to end with this exit code.
    Exit(i32),
    /// Evaluation nested deeper than the depth it was given.
    DepthExhausted,
}

/// The mathematical form of an error.
pub enum ErrV {
    InvalidArguments(ArgsV, nat),
    InvalidType(Seq<Type>, SVal),
    UndeclaredSymbol(Seq<char>),
    AttemptToCallNonFunction(SVal),
    AttemptToEvalEmptyList,
    GivenEmptyList,
    IoError(Seq<char>),
    ParsingErr(ParseError),
    Exit(i32),
    DepthExhausted,
}

impl View for FuncError {
    type V = ErrV;

    open spec fn view(&self) -> ErrV {
        match self {
            FuncError::InvalidArguments { expected, got } => ErrV::InvalidArguments(expected@, *got as nat),
            FuncError::InvalidType { expected, got } => ErrV::InvalidType(expected@, got@),
            FuncError::UndeclaredSymbol(s) => ErrV::UndeclaredSymbol(s@),
            FuncError::AttemptToCallNonFunction(v) => ErrV::AttemptToCallNonFunction(v@),
            FuncError::AttemptToEvalEmptyList => ErrV::AttemptToEvalEmptyList,
            FuncError::GivenEmptyList => ErrV::GivenEmptyList,
            FuncError::IoError(s) => ErrV::IoError(s@),
            FuncError::ParsingErr(p) => ErrV::ParsingErr(*p),
            FuncError::Exit(c) => ErrV::Exit(*c),
            FuncError::DepthExhausted => ErrV::DepthExhausted,
        }
    }
}

/// The name of a reader error.
pub open spec fn parse_error_text(p: ParseError) -> Seq<char> {
    match p {
        ParseError::UnclosedList => "UnclosedList"@,
        ParseError::InvalidListDelimitter => "InvalidListDelimitter"@,
        ParseError::UnreadableSourceCode => "UnreadableSourceCode"@,
        ParseError::InvalidHexLiteral => "InvalidHexLiteral"@,
    }
}

/// An integer in decimal, with a minus sign when negative.
pub open spec fn signed_decimal(c: int) -> Seq<char> {
    if c < 0 { "-"@ + decimal((-c) as nat) } else { decimal(c as nat) }
}

/// The written forms of type descriptors.
pub open spec fn type_texts(ts: Seq<Type>) -> Seq<Seq<char>> {
    ts.map_values(|t: Type| show_type(t))
}

/// The message that describes an error to a reader.
pub open spec fn error_text(e: ErrV) -> Seq<char> {
    match e {
        ErrV::InvalidArguments(a, n) => "expected "@ + show_args(a) + " arguments, but got "@ + decimal(n),
        ErrV::InvalidType(ts, v) => "expected "@ + crate::value::joined(type_texts(ts), " or "@)
            + ", but got a "@ + show_type(typ_of(v)) + " with a value of "@ + show(v),
        ErrV::UndeclaredSymbol(s) => s + " does not refer to a valid value stored in any currently accessible scope"@,
        ErrV::AttemptToCallNonFunction(v) => show(v) + " is not a callable function"@,
        ErrV::AttemptToEvalEmptyList => "Attempt to eval empty list"@,
        ErrV::GivenEmptyList => "Cannot take any elements out of any empty list"@,
        ErrV::IoError(s) => "An IO error occured: "@ + s,
        ErrV::ParsingErr(p) => "Error while parsing source code: "@ + parse_error_text(p),
        ErrV::Exit(c) => "exit requested with code "@ + signed_decimal(c as int),
        ErrV::DepthExhausted => "evaluation nested deeper than the depth it was given"@,
    }
}

impl FuncError {
    /// A message that describes this error to a reader.
    pub fn message(&self) -> (r: String)
        ensures
            r@ == error_text(self@),
    {
        let mut out: Vec<char> = Vec::new();
        match self {
            FuncError::InvalidArguments { expected, got } => {
                push_str(&mut out, "expected ");
                crate::value::write_args_text(&mut out, expected);
                push_str(&mut out, " arguments, but got ");
                push_decimal(&mut out, *got as u64);
            },
            FuncError::InvalidType { expected, got } => {
                push_str(&mut out, "expected ");
                let ghost start = out@;
                let mut i: usize = 0;
                while i < expected.len()
                    invariant
                        i <= expected@.len(),
                        out@ == start + crate::value::joined(type_texts(expected@).subrange(0, i as int), " or "@),
                    decreases expected@.len() - i,
                {
                    if i > 0 {
                        push_str(&mut out, " or ");
                    }
                    crate::value::write_type_text(&mut out, &expected[i]);
                    proof {
                        let t = type_texts(expected@).subrange(0, i + 1);
                        assert(t.drop_last() =~= type_texts(expected@).subrange(0, i as int));
                        if i == 0 {
                            assert(t.len() == 1);
                        }
                    }
                    i = i + 1;
                    assert(out@ =~= start + crate::value::joined(type_texts(expected@).subrange(0, i as int), " or "@));
                }
                assert(type_texts(expected@).subrange(0, expected@.len() as int) =~= type_texts(expected@));
                push_str(&mut out, ", but got a ");
                let t = got.typ();
                crate::value::write_type_text(&mut out, &t);
                push_str(&mut out, " with a value of ");
                write_value(&mut out, got);
            },
            FuncError::UndeclaredSymbol(s) => {
                push_str(&mut out, s.as_str());
                push_str(&mut out, " does not refer to a valid value stored in any currently accessible scope");
            },
            FuncError::AttemptToCallNonFunction(v) => {
                write_value(&mut out, v);
                push_str(&mut out, " is not a callable function");
            },
            FuncError::AttemptToEvalEmptyList => push_str(&mut out, "Attempt to eval empty list"),
            FuncError::GivenEmptyList => push_str(&mut out, "Cannot take any elements out of any empty list"),
            FuncError::IoError(s) => {
                push_str(&mut out, "An IO error occured: ");
                push_str(&mut out, s.as_str());
            },
            FuncError::ParsingErr(p) => {
                push_str(&mut out, "Error while parsing source code: ");
                match p {
                    ParseError::UnclosedList => push_str(&mut out, "UnclosedList"),
                    ParseError::InvalidListDelimitter => push_str(&mut out, "InvalidListDelimitter"),
                    ParseError::UnreadableSourceCode => push_str(&mut out, "UnreadableSourceCode"),
                    ParseError::InvalidHexLiteral => push_str(&mut out, "InvalidHexLiteral"),
                }
            },
            FuncError::Exit(c) => {
                push_str(&mut out, "exit requested with code ");
                if *c < 0 {
                    push_str(&mut out, "-");
                    push_decimal(&mut out, (-(*c as i64)) as u64);
                } else {
                    push_decimal(&mut out, *c as u64);
                }
            },
            FuncError::DepthExhausted => push_str(&mut out, "evaluation nested deeper than the depth it was given"),
        }
        assert(out@ =~= error_text(self@));
        string_of(&out)
    }
}

/// The outcome of evaluating a form.
pub type FuncResult = Result<Value, FuncError>;

/// The mathematical form of an outcome.
pub open spec fn result_view(r: FuncResult) -> Result<SVal, ErrV> {
    match r {
        Ok(v) => Ok(v@),
        Err(e) => Err(e@),
    }
}


/// The mathematical form of the interpreter's state: its scopes, outermost
/// (global) first, the text written so far, and the lines of input not yet read.
pub struct LispV {
    pub scopes: Seq<EnvV>,
    pub output: Seq<char>,
    pub input: Seq<Seq<char>>,
}

/// The value a name resolves to: the innermost scope that binds it wins.
pub open spec fn scopes_lookup(sc: Seq<EnvV>, k: Seq<char>) -> Option<SVal>
    decreases sc.len(),
{
    if sc.len() == 0 {
        None
    } else {
        match env_lookup(sc.last(), k) {
            Some(v) => Some(v),
            None => scopes_lookup(sc.drop_last(), k),
        }
    }
}

pub open spec fn with_scopes(st: LispV, sc: Seq<EnvV>) -> LispV {
    LispV { scopes: sc, output: st.output, input: st.input }
}

/// The state with a fresh, empty innermost scope.
pub open spec fn push_scope(st: LispV) -> LispV {
    with_scopes(st, st.scopes.push(Seq::empty()))
}

/// The state without its innermost scope.
pub open spec fn pop_scope(st: LispV) -> LispV {
    with_scopes(st, st.scopes.drop_last())
}

/// The state after binding a name in the innermost scope.
pub open spec fn set_current(st: LispV, k: Seq<char>, v: SVal) -> LispV {
    let n = st.scopes.len() - 1;
    with_scopes(st, st.scopes.update(n, env_set(st.scopes[n], k, v)))
}

/// The scope one above the innermost, or the global scope when there is no other.
pub open spec fn parent_index(n: int) -> int {
    if n >= 2 { n - 2 } else { 0 }
}

/// The state after binding a name in the scope one above the innermost.
pub open spec fn set_parent(st: LispV, k: Seq<char>, v: SVal) -> LispV {
    let p = parent_index(st.scopes.len() as int);
    with_scopes(st, st.scopes.update(p, env_set(st.scopes[p], k, v)))
}

/// The text of the error that `input` reports when the host gave no line.
pub open spec fn no_input_text() -> Seq<char> {
    seq!['n', 'o', ' ', 'i', 'n', 'p', 'u', 't']
}

/// Evaluates one form with at most `fuel` nested steps: the state after it
/// and the value or error that it gives.
pub open spec fn sem_eval(fuel: nat, st: LispV, form: SVal) -> (LispV, Result<SVal, ErrV>)
    decreases fuel, 0nat, 0int,
{
    if fuel == 0 {
        (st, Err(ErrV::DepthExhausted))
    } else {
        let g = (fuel - 1) as nat;
        match form {
            SVal::Symbol(s) => match scopes_lookup(st.scopes, s) {
                Some(v) => (st, Ok(v)),
                None => (st, Err(ErrV::UndeclaredSymbol(s))),
            },
            SVal::Quote(b) => (st, Ok(*b)),
            SVal::List(items) => if items.len() == 0 {
                (st, Err(ErrV::AttemptToEvalEmptyList))
            } else {
                let (st1, head) = sem_eval(g, push_scope(st), items[0]);
                let (st2, r) = sem_apply(g, st1, head, items.drop_first());
                (pop_scope(st2), r)
            },
            _ => (st, Ok(form)),
        }
    }
}

/// Applies what the head of a call form gave to the rest of the form.
pub open spec fn sem_apply(g: nat, st: LispV, head: Result<SVal, ErrV>, rest: Seq<SVal>) -> (LispV, Result<SVal, ErrV>)
    decreases g, 4nat, 0int,
{
    match head {
        Err(e) => (st, Err(e)),
        Ok(SVal::HardFunc(f)) => if f.func.spec_is_special() {
            if !crate::value::arity_accepts(f.args, rest.len()) {
                (st, Err(ErrV::InvalidArguments(f.args, rest.len())))
            } else {
                sem_builtin(g, st, f.func, rest)
            }
        } else {
            let (st1, args) = sem_args(g, st, rest, 0, Seq::empty());
            match args {
                Err(e) => (st1, Err(e)),
                Ok(a) => if !crate::value::arity_accepts(f.args, a.len()) {
                    (st1, Err(ErrV::InvalidArguments(f.args, a.len())))
                } else {
                    sem_builtin(g, st1, f.func, a)
                },
            }
        },
        Ok(SVal::Lambda(params, body)) => if rest.len() != params.len() {
            (st, Err(ErrV::InvalidArguments(ArgsV::Fixed(params.len() as usize), rest.len())))
        } else {
            let (st1, e) = sem_bind(g, st, params, rest, 0);
            match e {
                Some(e) => (st1, Err(e)),
                None => sem_seq(g, st1, body, 0, SVal::Nil),
            }
        },
        Ok(v) => (st, Err(ErrV::AttemptToCallNonFunction(v))),
    }
}

/// Evaluates forms from position `i` on, left to right, after the values in `acc`.
pub open spec fn sem_args(g: nat, st: LispV, forms: Seq<SVal>, i: int, acc: Seq<SVal>) -> (LispV, Result<Seq<SVal>, ErrV>)
    decreases g, 1nat, forms.len() - i,
{
    if i < 0 || i >= forms.len() {
        (st, Ok(acc))
    } else {
        let (st1, r) = sem_eval(g, st, forms[i]);
        match r {
            Err(e) => (st1, Err(e)),
            Ok(v) => sem_args(g, st1, forms, i + 1, acc.push(v)),
        }
    }
}

/// Evaluates the arguments of a lambda call from position `i` on and binds
/// each, as soon as it has a value, in the innermost scope.
pub open spec fn sem_bind(g: nat, st: LispV, params: Seq<Seq<char>>, forms: Seq<SVal>, i: int) -> (LispV, Option<ErrV>)
    decreases g, 1nat, forms.len() - i,
{
    if i < 0 || i >= forms.len() {
        (st, None)
    } else {
        let (st1, r) = sem_eval(g, st, forms[i]);
        match r {
            Err(e) => (st1, Some(e)),
            Ok(v) => sem_bind(g, set_current(st1, params[i], v), params, forms, i + 1),
        }
    }
}

/// Evaluates forms from position `i` on; the last value is the result (`last`
/// when there is none).
pub open spec fn sem_seq(g: nat, st: LispV, forms: Seq<SVal>, i: int, last: SVal) -> (LispV, Result<SVal, ErrV>)
    decreases g, 1nat, forms.len() - i,
{
    if i < 0 || i >= forms.len() {
        (st, Ok(last))
    } else {
        let (st1, r) = sem_eval(g, st, forms[i]);
        match r {
            Err(e) => (st1, Err(e)),
            Ok(v) => sem_seq(g, st1, forms, i + 1, v),
        }
    }
}

/// Binds the definitions of a `let` from position `i` on, each a list of a
/// symbol and a form, in the innermost scope.
pub open spec fn sem_let_defs(g: nat, st: LispV, defs: Seq<SVal>, i: int) -> (LispV, Option<ErrV>)
    decreases g, 1nat, defs.len() - i,
{
    if i < 0 || i >= defs.len() {
        (st, None)
    } else {
        match defs[i] {
            SVal::List(d) => if d.len() != 2 {
                (st, Some(ErrV::InvalidArguments(ArgsV::Fixed(2), d.len())))
            } else {
                match d[0] {
                    SVal::Symbol(name) => {
                        let (st1, r) = sem_eval(g, st, d[1]);
                        match r {
                            Err(e) => (st1, Some(e)),
                            Ok(v) => sem_let_defs(g, set_current(st1, name, v), defs, i + 1),
                        }
                    },
                    v => (st, Some(type_error(Type::Symbol, v))),
                }
            },
            v => (st, Some(type_error(Type::List, v))),
        }
    }
}

/// The call form that applies `f` to the given arguments.
pub open spec fn call_form(f: SVal, args: Seq<SVal>) -> SVal {
    SVal::List(seq![f] + args)
}

/// Applies `f` to each element from position `i` on, collecting the results.
pub open spec fn sem_map(g: nat, st: LispV, f: SVal, l: Seq<SVal>, i: int, acc: Seq<SVal>) -> (LispV, Result<Seq<SVal>, ErrV>)
    decreases g, 1nat, l.len() - i,
{
    if i < 0 || i >= l.len() {
        (st, Ok(acc))
    } else {
        let (st1, r) = sem_eval(g, st, call_form(f, seq![l[i]]));
        match r {
            Err(e) => (st1, Err(e)),
            Ok(v) => sem_map(g, st1, f, l, i + 1, acc.push(v)),
        }
    }
}

/// Folds `f` over the elements from position `i` on, starting from `acc`.
pub open spec fn sem_fold(g: nat, st: LispV, f: SVal, l: Seq<SVal>, i: int, acc: SVal) -> (LispV, Result<SVal, ErrV>)
    decreases g, 1nat, l.len() - i,
{
    if i < 0 || i >= l.len() {
        (st, Ok(acc))
    } else {
        let (st1, r) = sem_eval(g, st, call_form(f, seq![acc, l[i]]));
        match r {
            Err(e) => (st1, Err(e)),
            Ok(v) => sem_fold(g, st1, f, l, i + 1, v),
        }
    }
}

/// Keeps the elements from position `i` on for which `f` gives `true`.
pub open spec fn sem_filter(g: nat, st: LispV, f: SVal, l: Seq<SVal>, i: int, acc: Seq<SVal>) -> (LispV, Result<Seq<SVal>, ErrV>)
    decreases g, 1nat, l.len() - i,
{
    if i < 0 || i >= l.len() {
        (st, Ok(acc))
    } else {
        let (st1, r) = sem_eval(g, st, call_form(f, seq![l[i]]));
        match r {
            Err(e) => (st1, Err(e)),
            Ok(SVal::Bool(keep)) => sem_filter(g, st1, f, l, i + 1, if keep { acc.push(l[i]) } else { acc }),
            Ok(v) => (st1, Err(type_error(Type::Bool, v))),
        }
    }
}

/// Runs a built-in on its arguments (its forms, for a special form), whose
/// count its arity accepts.
pub open spec fn sem_builtin(g: nat, st: LispV, b: Builtin, a: Seq<SVal>) -> (LispV, Result<SVal, ErrV>)
    decreases g, 3nat, 0int,
{
    if !crate::value::arity_accepts(builtin_arity(b), a.len()) {
        (st, Err(ErrV::InvalidArguments(builtin_arity(b), a.len())))
    } else {
    match b {
        Builtin::Quote => (st, Ok(a[0])),
        Builtin::If => {
            let (st1, c) = sem_eval(g, st, a[0]);
            match c {
                Err(e) => (st1, Err(e)),
                Ok(SVal::Bool(t)) => sem_eval(g, st1, if t { a[1] } else { a[2] }),
                Ok(v) => (st1, Err(type_error(Type::Bool, v))),
            }
        },
        Builtin::Define => match a[0] {
            SVal::Symbol(s) => {
                let (st1, r) = sem_eval(g, st, a[1]);
                match r {
                    Err(e) => (st1, Err(e)),
                    Ok(v) => (set_parent(st1, s, v), Ok(SVal::Nil)),
                }
            },
            SVal::List(sig) => match define_signature(sig, a.drop_first()) {
                Ok((name, lam)) => (set_parent(st, name, lam), Ok(SVal::Nil)),
                Err(e) => (st, Err(e)),
            },
            v => (st, Err(ErrV::InvalidType(seq![Type::Symbol, Type::List], v))),
        },
        Builtin::Let => match a[0] {
            SVal::List(defs) => {
                let (st1, e) = sem_let_defs(g, st, defs, 0);
                match e {
                    Some(e) => (st1, Err(e)),
                    None => sem_seq(g, st1, a, 1, SVal::Nil),
                }
            },
            v => (st, Err(type_error(Type::List, v))),
        },
        Builtin::Lambda => match a[0] {
            SVal::List(ps) => match symbol_names(ps, 0, Seq::empty()) {
                Ok(names) => (st, Ok(SVal::Lambda(names, a.drop_first()))),
                Err(e) => (st, Err(e)),
            },
            v => (st, Err(type_error(Type::List, v))),
        },
        Builtin::Sequence => sem_seq(g, st, a, 0, SVal::Nil),
        Builtin::Eval => sem_eval(g, st, a[0]),
        Builtin::MapOver => match a[1] {
            SVal::List(l) => {
                let (st1, r) = sem_map(g, st, a[0], l, 0, Seq::empty());
                match r {
                    Ok(out) => (st1, Ok(SVal::List(out))),
                    Err(e) => (st1, Err(e)),
                }
            },
            v => (st, Err(type_error(Type::List, v))),
        },
        Builtin::Filter => match a[1] {
            SVal::List(l) => {
                let (st1, r) = sem_filter(g, st, a[0], l, 0, Seq::empty());
                match r {
                    Ok(out) => (st1, Ok(SVal::List(out))),
                    Err(e) => (st1, Err(e)),
                }
            },
            v => (st, Err(type_error(Type::List, v))),
        },
        Builtin::Fold => if a.len() == 3 {
            match a[2] {
                SVal::List(l) => sem_fold(g, st, a[0], l, 0, a[1]),
                v => (st, Err(type_error(Type::List, v))),
            }
        } else {
            match a[1] {
                SVal::List(l) => if l.len() == 0 {
                    (st, Err(ErrV::GivenEmptyList))
                } else {
                    sem_fold(g, st, a[0], l, 1, l[0])
                },
                v => (st, Err(type_error(Type::List, v))),
            }
        },
        Builtin::Print => (
            LispV { scopes: st.scopes, output: st.output + display_all(a, 0) + seq!['\n'], input: st.input },
            Ok(SVal::Nil),
        ),
        Builtin::Input => if a.len() == 1 && !(a[0] is Str) {
            (st, Err(type_error(Type::String, a[0])))
        } else {
            let prompt = if a.len() == 1 { a[0]->Str_0 } else { Seq::empty() };
            if st.input.len() == 0 {
                (LispV { scopes: st.scopes, output: st.output + prompt, input: st.input },
                    Err(ErrV::IoError(no_input_text())))
            } else {
                (LispV { scopes: st.scopes, output: st.output + prompt, input: st.input.drop_first() },
                    Ok(SVal::Str(st.input[0])))
            }
        },
        _ => (st, pure_result(b, a)),
    }
    }
}


/// Reads source text and evaluates its forms in order.
pub open spec fn sem_source(st: LispV, code: Seq<char>) -> (LispV, Result<SVal, ErrV>) {
    match read_source(code) {
        Ok(forms) => sem_seq(MAX_DEPTH as nat, st, forms, 0, SVal::Nil),
        Err(e) => (st, Err(ErrV::ParsingErr(e))),
    }
}

/// The mathematical form of a result that holds several values.
pub open spec fn values_result_view(r: Result<Vec<Value>, FuncError>) -> Result<Seq<SVal>, ErrV> {
    match r {
        Ok(v) => Ok(views(v@)),
        Err(e) => Err(e@),
    }
}

/// The views of a sequence with one more value.
pub proof fn lemma_views_push(s: Seq<Value>, x: Value)
    ensures
        views(s.push(x)) == views(s).push(x@),
{
    assert(s.push(x).drop_last() =~= s);
}

/// The views of a sequence without its first value.
pub proof fn lemma_views_drop_first(s: Seq<Value>)
    requires
        s.len() > 0,
    ensures
        views(s.drop_first()) == views(s).drop_first(),
{
    lemma_views(s);
    lemma_views(s.drop_first());
    assert(views(s.drop_first()) =~= views(s).drop_first());
}

/// The interpreter: a stack of scopes, global first, innermost last; the text
/// that `print` and `input` wrote; and the lines that the host gave `input`.
pub struct Lisp {
    pub scopes: Vec<Env>,
    pub output: Vec<char>,
    pub input: Vec<String>,
}

impl View for Lisp {
    type V = LispV;

    open spec fn view(&self) -> LispV {
        LispV {
            scopes: self.scopes@.map_values(|e: Env| e@),
            output: self.output@,
            input: texts(self.input@),
        }
    }
}

/// The depth that evaluation is given: more nesting than any host stack holds.
pub const MAX_DEPTH: u64 = 0xffff_ffff_ffff_ffff;

impl Lisp {
    /// A fresh interpreter: the global scope alone, no output, no input.
    pub fn new() -> (r: Lisp)
        ensures
            r.wf(),
            r@ == (LispV { scopes: seq![std_table()], output: Seq::empty(), input: Seq::empty() }),
    {
        let g = Env::std_lib();
        let r = Lisp { scopes: vec![g], output: Vec::new(), input: Vec::new() };
        assert(r@.scopes =~= seq![std_table()]);
        assert(r@.input =~= Seq::<Seq<char>>::empty());
        r
    }

    /// Evaluates one form.
    pub fn eval_token(&mut self, token: Value) -> (r: FuncResult)
        requires
            old(self).wf(),
        ensures
            final(self).wf(),
            final(self).scopes@.len() == old(self).scopes@.len(),
            (final(self)@, result_view(r)) == sem_eval(MAX_DEPTH as nat, old(self)@, token@),
    {
        self.eval_form(token, MAX_DEPTH)
    }

    /// Evaluates forms in order; the last value is the result (`nil` when
    /// there is none).
    pub fn eval_token_vec(&mut self, tokens: Vec<Value>) -> (r: FuncResult)
        requires
            old(self).wf(),
        ensures
            final(self).wf(),
            final(self).scopes@.len() == old(self).scopes@.len(),
            (final(self)@, result_view(r)) == sem_seq(MAX_DEPTH as nat, old(self)@, views(tokens@), 0, SVal::Nil),
    {
        self.eval_seq(&tokens, 0, MAX_DEPTH)
    }

    /// Reads source text and evaluates its forms in order; the last value is
    /// the result.
    pub fn eval_raw(&mut self, code: &str) -> (r: FuncResult)
        requires
            old(self).wf(),
        ensures
            final(self).wf(),
            final(self).scopes@.len() == old(self).scopes@.len(),
            (final(self)@, result_view(r)) == sem_source(old(self)@, code@),
    {
        match parse_str(code) {
            Ok(forms) => self.eval_token_vec(forms),
            Err(e) => Err(FuncError::ParsingErr(e)),
        }
    }

    /// Reads and evaluates source text and converts the result to a host type.
    pub fn eval<T: FromLisp>(&mut self, code: &str) -> (r: Result<T, FuncError>)
        requires
            old(self).wf(),
        ensures
            final(self).wf(),
            final(self)@ == sem_source(old(self)@, code@).0,
            match sem_source(old(self)@, code@).1 {
                Err(e) => r is Err && r->Err_0@ == e,
                Ok(v) => if T::accepts(v) {
                    r is Ok && T::converts(v, r->Ok_0)
                } else {
                    r is Err && r->Err_0@ == type_error(T::expected(), v)
                },
            },
    {
        match self.eval_raw(code) {
            Ok(v) => T::from_lisp(v),
            Err(e) => Err(e),
        }
    }

    /// Hands the interpreter a line for `input` to read, after those it has.
    pub fn push_input(&mut self, line: String)
        requires
            old(self).wf(),
        ensures
            final(self).wf(),
            final(self)@ == (LispV { scopes: old(self)@.scopes, output: old(self)@.output, input: old(self)@.input.push(line@) }),
    {
        self.input.push(line);
        assert(self@.input =~= old(self)@.input.push(line@));
        assert(self@.scopes =~= old(self)@.scopes);
    }

    /// Takes the text that `print` and `input` wrote, leaving none.
    pub fn take_output(&mut self) -> (r: String)
        requires
            old(self).wf(),
        ensures
            final(self).wf(),
            r@ == old(self)@.output,
            final(self)@ == (LispV { scopes: old(self)@.scopes, output: Seq::empty(), input: old(self)@.input }),
    {
        let r = crate::text::string_of(&self.output);
        self.output = Vec::new();
        assert(self@.scopes =~= old(self)@.scopes);
        r
    }

    /// At least the global scope, and no name bound twice in a scope.
    pub open spec fn wf(&self) -> bool {
        &&& self.scopes@.len() >= 1
        &&& forall|i: int| 0 <= i < self.scopes@.len() ==> #[trigger] self.scopes@[i].wf()
    }

    /// Opens a fresh innermost scope.
    pub fn sub_scope(&mut self)
        requires
            old(self).wf(),
        ensures
            final(self).wf(),
            final(self)@ == push_scope(old(self)@),
            final(self).scopes@.len() == old(self).scopes@.len() + 1,
    {
        self.scopes.push(Env::new());
        assert(self@.scopes =~= push_scope(old(self)@).scopes);
    }

    /// Closes the innermost scope; the global scope stays.
    pub fn exit_scope(&mut self)
        requires
            old(self).wf(),
            old(self).scopes@.len() >= 2,
        ensures
            final(self).wf(),
            final(self)@ == pop_scope(old(self)@),
            final(self).scopes@.len() == old(self).scopes@.len() - 1,
    {
        self.scopes.pop();
        assert(self@.scopes =~= pop_scope(old(self)@).scopes);
    }

    /// The value a name resolves to, innermost scope first.
    pub fn lookup(&self, name: &str) -> (r: Option<Value>)
        requires
            self.wf(),
        ensures
            match r {
                Some(v) => scopes_lookup(self@.scopes, name@) == Some(v@),
                None => scopes_lookup(self@.scopes, name@) is None,
            },
    {
        let ghost sc = self@.scopes;
        let mut i: usize = self.scopes.len();
        assert(sc.subrange(0, i as int) =~= sc);
        while i > 0
            invariant
                i <= self.scopes@.len(),
                self.wf(),
                sc == self@.scopes,
                scopes_lookup(sc, name@) == scopes_lookup(sc.subrange(0, i as int), name@),
            decreases i,
        {
            let ghost pre = sc.subrange(0, i as int);
            assert(pre.last() == self.scopes@[i - 1]@);
            assert(pre.drop_last() =~= sc.subrange(0, i - 1));
            match self.scopes[i - 1].get(name) {
                Some(v) => {
                    return Some(v);
                },
                None => {},
            }
            i = i - 1;
        }
        None
    }

    /// The innermost scope, to change in place.
    pub fn cur_scope(&mut self) -> (r: &mut Env)
        requires
            old(self).wf(),
        ensures
            *r == old(self).scopes@[old(self).scopes@.len() - 1],
            final(self).scopes@ == old(self).scopes@.update(old(self).scopes@.len() - 1, *final(r)),
            final(self).output@ == old(self).output@,
            final(self).input@ == old(self).input@,
    {
        let index = self.scopes.len() - 1;
        &mut self.scopes[index]
    }

    /// The scope one above the innermost (the global scope when it is the
    /// only one), to change in place.
    pub fn parent_scope(&mut self) -> (r: &mut Env)
        requires
            old(self).wf(),
        ensures
            *r == old(self).scopes@[parent_index(old(self).scopes@.len() as int)],
            final(self).scopes@ == old(self).scopes@.update(parent_index(old(self).scopes@.len() as int), *final(r)),
            final(self).output@ == old(self).output@,
            final(self).input@ == old(self).input@,
    {
        let n = self.scopes.len();
        let index: usize = if n >= 2 { n - 2 } else { 0 };
        &mut self.scopes[index]
    }

    /// Binds a name in the innermost scope.
    pub fn set_current(&mut self, name: &str, value: Value)
        requires
            old(self).wf(),
        ensures
            final(self).wf(),
            final(self)@ == set_current(old(self)@, name@, value@),
            final(self).scopes@.len() == old(self).scopes@.len(),
    {
        let n = self.scopes.len() - 1;
        self.scopes[n].set(name, value);
        assert(self@.scopes =~= set_current(old(self)@, name@, value@).scopes);
    }

    /// Binds a name in the scope one above the innermost (the global scope
    /// when it is the only one).
    pub fn set_parent(&mut self, name: &str, value: Value)
        requires
            old(self).wf(),
        ensures
            final(self).wf(),
            final(self)@ == set_parent(old(self)@, name@, value@),
            final(self).scopes@.len() == old(self).scopes@.len(),
    {
        let n = self.scopes.len();
        let p: usize = if n >= 2 { n - 2 } else { 0 };
        self.scopes[p].set(name, value);
        assert(self@.scopes =~= set_parent(old(self)@, name@, value@).scopes);
    }

    /// Binds a name in the global scope.
    pub fn set_global<T: crate::env::ToLisp>(&mut self, name: &str, value: T)
        requires
            old(self).wf(),
        ensures
            final(self).wf(),
            final(self)@ == with_scopes(old(self)@, old(self)@.scopes.update(0, env_set(old(self)@.scopes[0], name@, value.lisp_view()))),
            final(self).scopes@.len() == old(self).scopes@.len(),
    {
        self.scopes[0].set(name, value);
        assert(self@.scopes =~= old(self)@.scopes.update(0, env_set(old(self)@.scopes[0], name@, value.lisp_view())));
    }

    /// Evaluates one form with at most `depth` nested steps.
    pub fn eval_form(&mut self, token: Value, depth: u64) -> (r: FuncResult)
        requires
            old(self).wf(),
        ensures
            final(self).wf(),
            final(self).scopes@.len() == old(self).scopes@.len(),
            (final(self)@, result_view(r)) == sem_eval(depth as nat, old(self)@, token@),
        decreases depth, 0nat, 0int,
    {
        if depth == 0 {
            return Err(FuncError::DepthExhausted);
        }
        let g = depth - 1;
        match token {
            Value::Symbol(sym) => match self.lookup(sym.as_str()) {
                Some(v) => Ok(v),
                None => Err(FuncError::UndeclaredSymbol(sym)),
            },
            Value::Quote(b) => Ok(*b),
            Value::List(mut items) => {
                proof {
                    lemma_views(items@);
                }
                if items.len() == 0 {
                    return Err(FuncError::AttemptToEvalEmptyList);
                }
                let ghost orig = items@;
                self.sub_scope();
                let head_form = items.remove(0);
                proof {
                    lemma_views_drop_first(orig);
                    assert(items@ =~= orig.drop_first());
                }
                let head = self.eval_form(head_form, g);
                let r = self.apply(head, items, g);
                self.exit_scope();
                r
            },
            other => Ok(other),
        }
    }

    /// Applies what the head of a call form gave to the rest of the form.
    fn apply(&mut self, head: FuncResult, rest: Vec<Value>, g: u64) -> (r: FuncResult)
        requires
            old(self).wf(),
        ensures
            final(self).wf(),
            final(self).scopes@.len() == old(self).scopes@.len(),
            (final(self)@, result_view(r)) == sem_apply(g as nat, old(self)@, result_view(head), views(rest@)),
        decreases g, 4nat, 0int,
    {
        proof {
            lemma_views(rest@);
        }
        match head {
            Err(e) => Err(e),
            Ok(Value::HardFunc(f)) => {
                if f.func.is_special() {
                    if !f.args.accepts(rest.len()) {
                        return Err(FuncError::InvalidArguments { expected: f.args, got: rest.len() });
                    }
                    self.builtin(f.func, rest, g)
                } else {
                    let args = match self.eval_args(&rest, g) {
                        Ok(a) => a,
                        Err(e) => return Err(e),
                    };
                    proof {
                        lemma_views(args@);
                    }
                    if !f.args.accepts(args.len()) {
                        return Err(FuncError::InvalidArguments { expected: f.args, got: args.len() });
                    }
                    self.builtin(f.func, args, g)
                }
            },
            Ok(Value::Lambda { args: params, body }) => {
                if rest.len() != params.len() {
                    return Err(FuncError::InvalidArguments { expected: Args::Fixed(params.len()), got: rest.len() });
                }
                match self.bind_args(&params, &rest, g) {
                    Some(e) => return Err(e),
                    None => {},
                }
                self.eval_seq(&body, 0, g)
            },
            Ok(v) => Err(FuncError::AttemptToCallNonFunction(v)),
        }
    }

    /// Evaluates forms left to right.
    fn eval_args(&mut self, forms: &Vec<Value>, g: u64) -> (r: Result<Vec<Value>, FuncError>)
        requires
            old(self).wf(),
        ensures
            final(self).wf(),
            final(self).scopes@.len() == old(self).scopes@.len(),
            (final(self)@, values_result_view(r)) == sem_args(g as nat, old(self)@, views(forms@), 0, Seq::empty()),
        decreases g, 1nat, 0int,
    {
        proof {
            lemma_views(forms@);
        }
        let ghost fv = views(forms@);
        let mut acc: Vec<Value> = Vec::new();
        let mut i: usize = 0;
        while i < forms.len()
            invariant
                i <= forms@.len(),
                self.wf(),
                self.scopes@.len() == old(self).scopes@.len(),
                fv == views(forms@),
                fv.len() == forms@.len(),
                forall|j: int| 0 <= j < forms@.len() ==> #[trigger] fv[j] == forms@[j]@,
                sem_args(g as nat, old(self)@, fv, 0, Seq::empty())
                    == sem_args(g as nat, self@, fv, i as int, views(acc@)),
            decreases forms@.len() - i,
        {
            let f = forms[i].deep_copy();
            match self.eval_form(f, g) {
                Ok(v) => {
                    proof {
                        lemma_views_push(acc@, v);
                    }
                    acc.push(v);
                },
                Err(e) => return Err(e),
            }
            i = i + 1;
        }
        Ok(acc)
    }

    /// Evaluates the arguments of a lambda call and binds each in the innermost scope.
    fn bind_args(&mut self, params: &Vec<String>, forms: &Vec<Value>, g: u64) -> (r: Option<FuncError>)
        requires
            old(self).wf(),
            params@.len() == forms@.len(),
        ensures
            final(self).wf(),
            final(self).scopes@.len() == old(self).scopes@.len(),
            (final(self)@, match r { Some(e) => Some(e@), None => None::<ErrV> })
                == sem_bind(g as nat, old(self)@, texts(params@), views(forms@), 0),
        decreases g, 1nat, 0int,
    {
        proof {
            lemma_views(forms@);
        }
        let ghost fv = views(forms@);
        let mut i: usize = 0;
        while i < forms.len()
            invariant
                i <= forms@.len(),
                params@.len() == forms@.len(),
                self.wf(),
                self.scopes@.len() == old(self).scopes@.len(),
                fv == views(forms@),
                fv.len() == forms@.len(),
                forall|j: int| 0 <= j < forms@.len() ==> #[trigger] fv[j] == forms@[j]@,
                sem_bind(g as nat, old(self)@, texts(params@), fv, 0)
                    == sem_bind(g as nat, self@, texts(params@), fv, i as int),
            decreases forms@.len() - i,
        {
            let f = forms[i].deep_copy();
            match self.eval_form(f, g) {
                Ok(v) => {
                    self.set_current(params[i].as_str(), v);
                },
                Err(e) => return Some(e),
            }
            i = i + 1;
        }
        None
    }

    /// Evaluates forms from position `start` on; the last value is the result.
    fn eval_seq(&mut self, forms: &Vec<Value>, start: usize, g: u64) -> (r: FuncResult)
        requires
            old(self).wf(),
        ensures
            final(self).wf(),
            final(self).scopes@.len() == old(self).scopes@.len(),
            (final(self)@, result_view(r)) == sem_seq(g as nat, old(self)@, views(forms@), start as int, SVal::Nil),
        decreases g, 1nat, 0int,
    {
        proof {
            lemma_views(forms@);
        }
        let ghost fv = views(forms@);
        let mut last = Value::Nil;
        let mut i: usize = start;
        while i < forms.len()
            invariant
                self.wf(),
                self.scopes@.len() == old(self).scopes@.len(),
                fv == views(forms@),
                fv.len() == forms@.len(),
                forall|j: int| 0 <= j < forms@.len() ==> #[trigger] fv[j] == forms@[j]@,
                sem_seq(g as nat, old(self)@, fv, start as int, SVal::Nil)
                    == sem_seq(g as nat, self@, fv, i as int, last@),
            decreases forms@.len() - i,
        {
            let f = forms[i].deep_copy();
            match self.eval_form(f, g) {
                Ok(v) => {
                    last = v;
                },
                Err(e) => return Err(e),
            }
            i = i + 1;
        }
        Ok(last)
    }

    /// Binds the definitions of a `let` in the innermost scope.
    fn let_defs(&mut self, defs: &Vec<Value>, g: u64) -> (r: Option<FuncError>)
        requires
            old(self).wf(),
        ensures
            final(self).wf(),
            final(self).scopes@.len() == old(self).scopes@.len(),
            (final(self)@, match r { Some(e) => Some(e@), None => None::<ErrV> })
                == sem_let_defs(g as nat, old(self)@, views(defs@), 0),
        decreases g, 1nat, 0int,
    {
        proof {
            lemma_views(defs@);
        }
        let ghost dv = views(defs@);
        let mut i: usize = 0;
        while i < defs.len()
            invariant
                self.wf(),
                self.scopes@.len() == old(self).scopes@.len(),
                dv == views(defs@),
                dv.len() == defs@.len(),
                forall|j: int| 0 <= j < defs@.len() ==> #[trigger] dv[j] == defs@[j]@,
                sem_let_defs(g as nat, old(self)@, dv, 0) == sem_let_defs(g as nat, self@, dv, i as int),
            decreases defs@.len() - i,
        {
            match &defs[i] {
                Value::List(d) => {
                    proof {
                        lemma_views(d@);
                    }
                    if d.len() != 2 {
                        return Some(FuncError::InvalidArguments { expected: Args::Fixed(2), got: d.len() });
                    }
                    match &d[0] {
                        Value::Symbol(name) => {
                            let f = d[1].deep_copy();
                            match self.eval_form(f, g) {
                                Ok(v) => self.set_current(name.as_str(), v),
                                Err(e) => return Some(e),
                            }
                        },
                        other => return Some(type_error_value(Type::Symbol, other)),
                    }
                },
                other => return Some(type_error_value(Type::List, other)),
            }
            i = i + 1;
        }
        None
    }

    /// Runs a built-in on its arguments (its forms, for a special form).
    fn builtin(&mut self, b: Builtin, a: Vec<Value>, g: u64) -> (r: FuncResult)
        requires
            old(self).wf(),
        ensures
            final(self).wf(),
            final(self).scopes@.len() == old(self).scopes@.len(),
            (final(self)@, result_view(r)) == sem_builtin(g as nat, old(self)@, b, views(a@)),
        decreases g, 3nat, 0int,
    {
        proof {
            lemma_views(a@);
        }
        let arity = arity_of(b);
        if !arity.accepts(a.len()) {
            return Err(FuncError::InvalidArguments { expected: arity, got: a.len() });
        }
        match b {
            Builtin::Quote => Ok(a[0].deep_copy()),
            Builtin::If => if_fn(a, self, g),
            Builtin::Define => define(a, self, g),
            Builtin::Let => let_fn(a, self, g),
            Builtin::Lambda => lambda(a),
            Builtin::Sequence => seq(a, self, g),
            Builtin::Eval => eval(a, self, g),
            Builtin::MapOver => map(a, self, g),
            Builtin::Fold => fold(a, self, g),
            Builtin::Filter => filter(a, self, g),
            Builtin::Print => print(a, self),
            Builtin::Input => input(a, self),
            _ => apply_pure(b, a),
        }
    }

    /// Applies `f` to each element of `l`, collecting the results.
    fn map_list(&mut self, f: &Value, l: &Vec<Value>, g: u64) -> (r: Result<Vec<Value>, FuncError>)
        requires
            old(self).wf(),
        ensures
            final(self).wf(),
            final(self).scopes@.len() == old(self).scopes@.len(),
            (final(self)@, values_result_view(r)) == sem_map(g as nat, old(self)@, f@, views(l@), 0, Seq::empty()),
        decreases g, 1nat, 0int,
    {
        proof {
            lemma_views(l@);
        }
        let ghost lv = views(l@);
        let mut acc: Vec<Value> = Vec::new();
        let mut i: usize = 0;
        while i < l.len()
            invariant
                self.wf(),
                self.scopes@.len() == old(self).scopes@.len(),
                lv == views(l@),
                lv.len() == l@.len(),
                forall|j: int| 0 <= j < l@.len() ==> #[trigger] lv[j] == l@[j]@,
                sem_map(g as nat, old(self)@, f@, lv, 0, Seq::empty())
                    == sem_map(g as nat, self@, f@, lv, i as int, views(acc@)),
            decreases l@.len() - i,
        {
            let form = call_of(f, &l[i], None);
            match self.eval_form(form, g) {
                Ok(v) => {
                    proof {
                        lemma_views_push(acc@, v);
                    }
                    acc.push(v);
                },
                Err(e) => return Err(e),
            }
            i = i + 1;
        }
        Ok(acc)
    }

    /// Keeps the elements of `l` for which `f` gives `true`.
    fn filter_list(&mut self, f: &Value, l: &Vec<Value>, g: u64) -> (r: Result<Vec<Value>, FuncError>)
        requires
            old(self).wf(),
        ensures
            final(self).wf(),
            final(self).scopes@.len() == old(self).scopes@.len(),
            (final(self)@, values_result_view(r)) == sem_filter(g as nat, old(self)@, f@, views(l@), 0, Seq::empty()),
        decreases g, 1nat, 0int,
    {
        proof {
            lemma_views(l@);
        }
        let ghost lv = views(l@);
        let mut acc: Vec<Value> = Vec::new();
        let mut i: usize = 0;
        while i < l.len()
            invariant
                self.wf(),
                self.scopes@.len() == old(self).scopes@.len(),
                lv == views(l@),
                lv.len() == l@.len(),
                forall|j: int| 0 <= j < l@.len() ==> #[trigger] lv[j] == l@[j]@,
                sem_filter(g as nat, old(self)@, f@, lv, 0, Seq::empty())
                    == sem_filter(g as nat, self@, f@, lv, i as int, views(acc@)),
            decreases l@.len() - i,
        {
            let form = call_of(f, &l[i], None);
            match self.eval_form(form, g) {
                Ok(Value::Bool(keep)) => {
                    if keep {
                        let x = l[i].deep_copy();
                        proof {
                            lemma_views_push(acc@, x);
                        }
                        acc.push(x);
                    }
                },
                Ok(other) => return Err(type_error_value(Type::Bool, &other)),
                Err(e) => return Err(e),
            }
            i = i + 1;
        }
        Ok(acc)
    }

    /// Folds `f` over the elements of `l` from position `start` on.
    fn fold_list(&mut self, f: &Value, l: &Vec<Value>, start: usize, init: Value, g: u64) -> (r: FuncResult)
        requires
            old(self).wf(),
        ensures
            final(self).wf(),
            final(self).scopes@.len() == old(self).scopes@.len(),
            (final(self)@, result_view(r)) == sem_fold(g as nat, old(self)@, f@, views(l@), start as int, init@),
        decreases g, 1nat, 0int,
    {
        proof {
            lemma_views(l@);
        }
        let ghost lv = views(l@);
        let mut acc = init;
        let mut i: usize = start;
        while i < l.len()
            invariant
                self.wf(),
                self.scopes@.len() == old(self).scopes@.len(),
                lv == views(l@),
                lv.len() == l@.len(),
                forall|j: int| 0 <= j < l@.len() ==> #[trigger] lv[j] == l@[j]@,
                sem_fold(g as nat, old(self)@, f@, lv, start as int, init@)
                    == sem_fold(g as nat, self@, f@, lv, i as int, acc@),
            decreases l@.len() - i,
        {
            let form = call_of(f, &acc, Some(&l[i]));
            match self.eval_form(form, g) {
                Ok(v) => {
                    acc = v;
                },
                Err(e) => return Err(e),
            }
            i = i + 1;
        }
        Ok(acc)
    }
}

/// The call form that applies `f` to one value, or to two.
fn call_of(f: &Value, x: &Value, y: Option<&Value>) -> (r: Value)
    ensures
        r@ == match y {
            Some(y) => call_form(f@, seq![x@, y@]),
            None => call_form(f@, seq![x@]),
        },
{
    let mut items: Vec<Value> = Vec::new();
    items.push(f.deep_copy());
    items.push(x.deep_copy());
    match y {
        Some(y) => items.push(y.deep_copy()),
        None => {},
    }
    proof {
        lemma_views(items@);
        match y {
            Some(y) => assert(views(items@) =~= seq![f@] + seq![x@, y@]),
            None => assert(views(items@) =~= seq![f@] + seq![x@]),
        }
    }
    Value::List(items)
}

/// The error that a projection onto one type reports for a value.
fn type_error_value(t: Type, v: &Value) -> (r: FuncError)
    ensures
        r@ == type_error(t, v@),
{
    let e = vec![t];
    assert(e@ == seq![t]);
    FuncError::InvalidType { expected: e, got: v.deep_copy() }
}

/// A copy of the values from position `start` on.
fn values_from(vals: &Vec<Value>, start: usize) -> (r: Vec<Value>)
    requires
        start <= vals@.len(),
    ensures
        views(r@) == views(vals@).subrange(start as int, vals@.len() as int),
{
    proof {
        lemma_views(vals@);
    }
    let mut out: Vec<Value> = Vec::new();
    let mut i: usize = start;
    while i < vals.len()
        invariant
            start <= i <= vals@.len(),
            views(vals@).len() == vals@.len(),
            forall|j: int| 0 <= j < vals@.len() ==> #[trigger] views(vals@)[j] == vals@[j]@,
            views(out@) == views(vals@).subrange(start as int, i as int),
        decreases vals@.len() - i,
    {
        let x = vals[i].deep_copy();
        proof {
            lemma_views_push(out@, x);
            assert(views(vals@).subrange(start as int, i + 1) =~= views(vals@).subrange(start as int, i as int).push(x@));
        }
        out.push(x);
        i = i + 1;
    }
    out
}

/// `eval`: evaluates its (already evaluated) argument once more.
pub fn eval(vals: Vec<Value>, lisp: &mut Lisp, depth: u64) -> (r: FuncResult)
    requires
        old(lisp).wf(),
        vals@.len() == 1,
    ensures
        final(lisp).wf(),
        final(lisp).scopes@.len() == old(lisp).scopes@.len(),
        (final(lisp)@, result_view(r)) == sem_builtin(depth as nat, old(lisp)@, Builtin::Eval, views(vals@)),
    decreases depth, 2nat, 0int,
{
    proof {
        lemma_views(vals@);
    }
    lisp.eval_form(vals[0].deep_copy(), depth)
}

/// `seq`: evaluates its forms in order; the last value is the result.
pub fn seq(vals: Vec<Value>, lisp: &mut Lisp, depth: u64) -> (r: FuncResult)
    requires
        old(lisp).wf(),
        vals@.len() >= 1,
    ensures
        final(lisp).wf(),
        final(lisp).scopes@.len() == old(lisp).scopes@.len(),
        (final(lisp)@, result_view(r)) == sem_builtin(depth as nat, old(lisp)@, Builtin::Sequence, views(vals@)),
    decreases depth, 2nat, 0int,
{
    lisp.eval_seq(&vals, 0, depth)
}

/// `if`: evaluates the condition, then only the branch it picks.
pub fn if_fn(vals: Vec<Value>, lisp: &mut Lisp, depth: u64) -> (r: FuncResult)
    requires
        old(lisp).wf(),
        vals@.len() == 3,
    ensures
        final(lisp).wf(),
        final(lisp).scopes@.len() == old(lisp).scopes@.len(),
        (final(lisp)@, result_view(r)) == sem_builtin(depth as nat, old(lisp)@, Builtin::If, views(vals@)),
    decreases depth, 2nat, 0int,
{
    proof {
        lemma_views(vals@);
    }
    match lisp.eval_form(vals[0].deep_copy(), depth) {
        Ok(Value::Bool(t)) => {
            let branch = if t { vals[1].deep_copy() } else { vals[2].deep_copy() };
            lisp.eval_form(branch, depth)
        },
        Ok(other) => Err(type_error_value(Type::Bool, &other)),
        Err(e) => Err(e),
    }
}

/// `define`: binds a name, or a function from its signature and body, in the
/// scope that encloses the call.
pub fn define(vals: Vec<Value>, lisp: &mut Lisp, depth: u64) -> (r: FuncResult)
    requires
        old(lisp).wf(),
        vals@.len() >= 2,
    ensures
        final(lisp).wf(),
        final(lisp).scopes@.len() == old(lisp).scopes@.len(),
        (final(lisp)@, result_view(r)) == sem_builtin(depth as nat, old(lisp)@, Builtin::Define, views(vals@)),
    decreases depth, 2nat, 0int,
{
    proof {
        lemma_views(vals@);
    }
    match &vals[0] {
        Value::Symbol(s) => {
            match lisp.eval_form(vals[1].deep_copy(), depth) {
                Ok(v) => {
                    lisp.set_parent(s.as_str(), v);
                    Ok(Value::Nil)
                },
                Err(e) => Err(e),
            }
        },
        Value::List(sig) => {
            proof {
                lemma_views(sig@);
            }
            if sig.len() == 0 {
                return Err(FuncError::GivenEmptyList);
            }
            let name = match &sig[0] {
                Value::Symbol(n) => n,
                other => return Err(type_error_value(Type::Symbol, other)),
            };
            let names = match names_of(sig, 1) {
                Ok(ns) => ns,
                Err(e) => return Err(e),
            };
            let body = values_from(&vals, 1);
            proof {
                assert(views(vals@).subrange(1, vals@.len() as int) =~= views(vals@).drop_first());
            }
            lisp.set_parent(name.as_str(), Value::Lambda { args: names, body });
            Ok(Value::Nil)
        },
        other => {
            let e = vec![Type::Symbol, Type::List];
            assert(e@ == seq![Type::Symbol, Type::List]);
            Err(FuncError::InvalidType { expected: e, got: other.deep_copy() })
        },
    }
}

/// `let`: binds each definition in the call's own scope, then evaluates the body there.
pub fn let_fn(vals: Vec<Value>, lisp: &mut Lisp, depth: u64) -> (r: FuncResult)
    requires
        old(lisp).wf(),
        vals@.len() >= 2,
    ensures
        final(lisp).wf(),
        final(lisp).scopes@.len() == old(lisp).scopes@.len(),
        (final(lisp)@, result_view(r)) == sem_builtin(depth as nat, old(lisp)@, Builtin::Let, views(vals@)),
    decreases depth, 2nat, 0int,
{
    proof {
        lemma_views(vals@);
    }
    match &vals[0] {
        Value::List(defs) => {
            match lisp.let_defs(defs, depth) {
                Some(e) => Err(e),
                None => lisp.eval_seq(&vals, 1, depth),
            }
        },
        other => Err(type_error_value(Type::List, other)),
    }
}

/// `lambda`: a function of the given parameters, with the remaining forms as its body.
pub fn lambda(vals: Vec<Value>) -> (r: FuncResult)
    requires
        vals@.len() >= 2,
    ensures
        forall|st: LispV, g: nat| (#[trigger] sem_builtin(g, st, Builtin::Lambda, views(vals@))) == (st, result_view(r)),
{
    proof {
        lemma_views(vals@);
    }
    match &vals[0] {
        Value::List(ps) => {
            let body = values_from(&vals, 1);
            proof {
                assert(views(vals@).subrange(1, vals@.len() as int) =~= views(vals@).drop_first());
            }
            match names_of(ps, 0) {
                Ok(names) => Ok(Value::Lambda { args: names, body }),
                Err(e) => Err(e),
            }
        },
        other => Err(type_error_value(Type::List, other)),
    }
}

/// `map`: applies a function to each element of a list.
pub fn map(vals: Vec<Value>, lisp: &mut Lisp, depth: u64) -> (r: FuncResult)
    requires
        old(lisp).wf(),
        vals@.len() == 2,
    ensures
        final(lisp).wf(),
        final(lisp).scopes@.len() == old(lisp).scopes@.len(),
        (final(lisp)@, result_view(r)) == sem_builtin(depth as nat, old(lisp)@, Builtin::MapOver, views(vals@)),
    decreases depth, 2nat, 0int,
{
    proof {
        lemma_views(vals@);
    }
    match &vals[1] {
        Value::List(l) => match lisp.map_list(&vals[0], l, depth) {
            Ok(out) => Ok(Value::List(out)),
            Err(e) => Err(e),
        },
        other => Err(type_error_value(Type::List, other)),
    }
}

/// `filter`: the elements of a list for which a function gives `true`.
pub fn filter(vals: Vec<Value>, lisp: &mut Lisp, depth: u64) -> (r: FuncResult)
    requires
        old(lisp).wf(),
        vals@.len() == 2,
    ensures
        final(lisp).wf(),
        final(lisp).scopes@.len() == old(lisp).scopes@.len(),
        (final(lisp)@, result_view(r)) == sem_builtin(depth as nat, old(lisp)@, Builtin::Filter, views(vals@)),
    decreases depth, 2nat, 0int,
{
    proof {
        lemma_views(vals@);
    }
    match &vals[1] {
        Value::List(l) => match lisp.filter_list(&vals[0], l, depth) {
            Ok(out) => Ok(Value::List(out)),
            Err(e) => Err(e),
        },
        other => Err(type_error_value(Type::List, other)),
    }
}

/// `fold`: folds a function over a list, from a given start or from its first element.
pub fn fold(vals: Vec<Value>, lisp: &mut Lisp, depth: u64) -> (r: FuncResult)
    requires
        old(lisp).wf(),
        vals@.len() == 2 || vals@.len() == 3,
    ensures
        final(lisp).wf(),
        final(lisp).scopes@.len() == old(lisp).scopes@.len(),
        (final(lisp)@, result_view(r)) == sem_builtin(depth as nat, old(lisp)@, Builtin::Fold, views(vals@)),
    decreases depth, 2nat, 0int,
{
    proof {
        lemma_views(vals@);
    }
    if vals.len() == 3 {
        match &vals[2] {
            Value::List(l) => lisp.fold_list(&vals[0], l, 0, vals[1].deep_copy(), depth),
            other => Err(type_error_value(Type::List, other)),
        }
    } else {
        match &vals[1] {
            Value::List(l) => {
                proof {
                    lemma_views(l@);
                }
                if l.len() == 0 {
                    Err(FuncError::GivenEmptyList)
                } else {
                    lisp.fold_list(&vals[0], l, 1, l[0].deep_copy(), depth)
                }
            },
            other => Err(type_error_value(Type::List, other)),
        }
    }
}

/// `print`: writes the displayed values and a newline to the output.
pub fn print(vals: Vec<Value>, lisp: &mut Lisp) -> (r: FuncResult)
    requires
        old(lisp).wf(),
    ensures
        final(lisp).wf(),
        final(lisp).scopes@.len() == old(lisp).scopes@.len(),
        forall|g: nat| (#[trigger] sem_builtin(g, old(lisp)@, Builtin::Print, views(vals@))) == (final(lisp)@, result_view(r)),
{
    let text = display_values(&vals);
    push_chars(&mut lisp.output, &text);
    lisp.output.push('\n');
    assert(lisp@.output =~= old(lisp)@.output + display_all(views(vals@), 0) + seq!['\n']);
    assert(lisp@.scopes =~= old(lisp)@.scopes);
    Ok(Value::Nil)
}

/// `input`: writes the prompt, if one is given, and takes the next line that
/// the host gave.
pub fn input(vals: Vec<Value>, lisp: &mut Lisp) -> (r: FuncResult)
    requires
        old(lisp).wf(),
        vals@.len() <= 1,
    ensures
        final(lisp).wf(),
        final(lisp).scopes@.len() == old(lisp).scopes@.len(),
        forall|g: nat| (#[trigger] sem_builtin(g, old(lisp)@, Builtin::Input, views(vals@))) == (final(lisp)@, result_view(r)),
{
    proof {
        lemma_views(vals@);
    }
    if vals.len() == 1 {
        match &vals[0] {
            Value::String(p) => {
                let c = crate::text::chars_of(p.as_str());
                push_chars(&mut lisp.output, &c);
            },
            other => return Err(type_error_value(Type::String, other)),
        }
    }
    assert(lisp@.scopes =~= old(lisp)@.scopes);
    if lisp.input.len() == 0 {
        let msg = crate::text::chars_of("no input");
        proof {
            reveal_strlit("no input");
            assert(msg@ =~= no_input_text());
        }
        return Err(FuncError::IoError(crate::text::string_of(&msg)));
    }
    let line = lisp.input.remove(0);
    assert(lisp@.input =~= texts(old(lisp).input@).drop_first());
    Ok(Value::String(line))
}
} // verus!
