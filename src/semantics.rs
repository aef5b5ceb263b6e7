//! Facts about reading and evaluation, proved from the definitions that the
//! reader and the evaluator are verified against.
use crate::default_env::builtin_arity;
use crate::env::{env_lookup, env_set, keys_unique, set_all, std_entries, std_table, EnvV};
use crate::eval::{
    pop_scope, push_scope, scopes_lookup, sem_apply, sem_args, sem_builtin, sem_eval, with_scopes,
    sem_let_defs, sem_seq, set_current, ErrV, LispV,
};
use crate::number::{plain, single_text};
use crate::parse::{atom_of, digits_end, float_form, string_literal, unescape, FloatForm, ParseError};
use crate::value::{arity_accepts, downcast, escape, escape_char, number_text_from, show, ArgsV, Builtin, Foreign, FuncV, SVal, Type, type_error};
use vstd::prelude::*;

verus! {

/// Whether a string can be written as a literal and read back unchanged: it
/// holds no double quote and no backslash.
pub open spec fn plain_text(s: Seq<char>) -> bool {
    !s.contains('"') && !s.contains('\\')
}

proof fn lemma_unescape_escape(s: Seq<char>)
    requires
        plain_text(s),
    ensures
        unescape(escape(s)) == s,
    decreases s.len(),
{
    if s.len() > 0 {
        let p = s.drop_last();
        assert(plain_text(p)) by {
            if p.contains('"') {
                let i = choose|i: int| 0 <= i < p.len() && p[i] == '"';
                assert(s[i] == '"');
            }
            if p.contains('\\') {
                let i = choose|i: int| 0 <= i < p.len() && p[i] == '\\';
                assert(s[i] == '\\');
            }
        }
        lemma_unescape_escape(p);
        lemma_escape_whole(p);
        let c = s.last();
        assert(c != '"' && c != '\\') by {
            assert(s[s.len() - 1] == c);
        }
        lemma_unescape_append(escape(p), escape_char(c));
        let e = escape_char(c);
        assert(unescape(Seq::<char>::empty()) == Seq::<char>::empty());
        if c == '\n' || c == '\t' || c == '\r' {
            assert(e.len() == 2 && e[0] == '\\');
            assert(e.subrange(2, 2) =~= Seq::<char>::empty());
            assert(unescape(e) =~= seq![c] + unescape(e.subrange(2, 2)));
        } else {
            assert(e =~= seq![c]);
            assert(e.drop_first() =~= Seq::<char>::empty());
            assert(unescape(e) =~= seq![c] + unescape(e.drop_first()));
        }
        assert(unescape(escape_char(c)) =~= seq![c]);
        assert(escape(s) == escape(p) + escape_char(c));
        assert(p.push(c) =~= p + seq![c]);
        assert(p.push(c) =~= s);
    }
}

/// The escaped form of a plain text ends in no pending backslash, so what
/// follows it reads on its own.
proof fn lemma_unescape_append(a: Seq<char>, b: Seq<char>)
    requires
        escaped_whole(a),
    ensures
        unescape(a + b) == unescape(a) + unescape(b),
    decreases a.len(),
{
    if a.len() == 0 {
        assert(a + b =~= b);
    } else if a.len() >= 2 && a[0] == '\\' && (a[1] == 'n' || a[1] == 't' || a[1] == 'r') {
        let r = a.subrange(2, a.len() as int);
        assert(escaped_whole(r));
        assert((a + b).subrange(2, (a + b).len() as int) =~= r + b);
        lemma_unescape_append(r, b);
        assert(unescape(a + b) =~= unescape(a) + unescape(b));
    } else {
        let r = a.drop_first();
        assert(escaped_whole(r));
        assert((a + b).drop_first() =~= r + b);
        lemma_unescape_append(r, b);
        assert(unescape(a + b) =~= unescape(a) + unescape(b));
    }
}

/// Every backslash is followed, within the text, by `n`, `t` or `r`.
pub open spec fn escaped_whole(a: Seq<char>) -> bool {
    forall|i: int| 0 <= i < a.len() && #[trigger] a[i] == '\\' ==> i + 1 < a.len() && (a[i + 1] == 'n' || a[i + 1] == 't' || a[i + 1] == 'r')
}

proof fn lemma_escape_whole(s: Seq<char>)
    requires
        plain_text(s),
    ensures
        escaped_whole(escape(s)),
    decreases s.len(),
{
    if s.len() > 0 {
        let p = s.drop_last();
        assert(plain_text(p)) by {
            if p.contains('"') {
                let i = choose|i: int| 0 <= i < p.len() && p[i] == '"';
                assert(s[i] == '"');
            }
            if p.contains('\\') {
                let i = choose|i: int| 0 <= i < p.len() && p[i] == '\\';
                assert(s[i] == '\\');
            }
        }
        lemma_escape_whole(p);
        let c = s.last();
        assert(c != '"' && c != '\\') by {
            assert(s[s.len() - 1] == c);
        }
        let a = escape(p);
        let e = escape_char(c);
        assert forall|i: int| 0 <= i < (a + e).len() && #[trigger] (a + e)[i] == '\\' implies i + 1 < (a + e).len()
            && ((a + e)[i + 1] == 'n' || (a + e)[i + 1] == 't' || (a + e)[i + 1] == 'r') by {
            if i < a.len() {
                assert(a[i] == '\\');
            }
        }
    }
}

/// Reading back the written form of a string literal or a symbol gives the
/// same value: a symbol that the reader made, or a string with no double
/// quote and no backslash (the written form escapes those, and the reader
/// expands only `\n`, `\t` and `\r`).
pub proof fn lemma_atom_round_trip(v: SVal)
    requires
        (v is Symbol && atom_of(v->Symbol_0) == Ok::<SVal, ParseError>(v))
            || (v is Str && plain_text(v->Str_0)),
    ensures
        atom_of(show(v)) == Ok::<SVal, ParseError>(v),
{
    if v is Str {
        let s = v->Str_0;
        let t = show(v);
        let q = seq!['"'];
        assert("\""@ == q) by {
            reveal_strlit("\"");
        }
        assert(t == q + escape(s) + q);
        assert(t[0] == '"');
        lemma_escape_whole(s);
        lemma_unescape_escape(s);
        assert(t.subrange(1, t.len() - 1) =~= escape(s));
        assert(string_literal(t) == Some(s));
    }
}

/// Arity is checked before a built-in runs. For one that takes its
/// arguments evaluated, once they all have values, a count its arity does not
/// accept fails with that arity and the count; an accepted count runs the
/// built-in on the values. A special form is checked the same way on the
/// number of its forms, before any is evaluated.
pub proof fn lemma_arity(g: nat, st: LispV, f: FuncV, rest: Seq<SVal>)
    ensures
        f.func.spec_is_special() ==> ({
            &&& !arity_accepts(f.args, rest.len()) ==> sem_apply(g, st, Ok(SVal::HardFunc(f)), rest)
                == (st, Err::<SVal, ErrV>(ErrV::InvalidArguments(f.args, rest.len())))
            &&& arity_accepts(f.args, rest.len()) ==> sem_apply(g, st, Ok(SVal::HardFunc(f)), rest)
                == sem_builtin(g, st, f.func, rest)
        }),
        !f.func.spec_is_special() && sem_args(g, st, rest, 0, Seq::empty()).1 is Ok ==> ({
            let (st1, a) = sem_args(g, st, rest, 0, Seq::empty());
            let n = a->Ok_0.len();
            &&& !arity_accepts(f.args, n) ==> sem_apply(g, st, Ok(SVal::HardFunc(f)), rest)
                == (st1, Err::<SVal, ErrV>(ErrV::InvalidArguments(f.args, n)))
            &&& arity_accepts(f.args, n) ==> sem_apply(g, st, Ok(SVal::HardFunc(f)), rest)
                == sem_builtin(g, st1, f.func, a->Ok_0)
        }),
{
}

/// The case of an exact arity of two: one or three values fail with
/// `Fixed(2)` and the count, two run the built-in.
pub proof fn lemma_fixed_two_arity(g: nat, st: LispV, f: FuncV, rest: Seq<SVal>)
    requires
        f.args == ArgsV::Fixed(2),
        !f.func.spec_is_special(),
        sem_args(g, st, rest, 0, Seq::empty()).1 is Ok,
    ensures
        ({
            let (st1, a) = sem_args(g, st, rest, 0, Seq::empty());
            let n = a->Ok_0.len();
            &&& n != 2 ==> sem_apply(g, st, Ok(SVal::HardFunc(f)), rest) == (st1, Err::<SVal, ErrV>(ErrV::InvalidArguments(ArgsV::Fixed(2), n)))
            &&& n == 2 ==> sem_apply(g, st, Ok(SVal::HardFunc(f)), rest) == sem_builtin(g, st1, f.func, a->Ok_0)
        }),
{
    lemma_arity(g, st, f, rest);
}

proof fn lemma_number_search(b: u32, q: nat, p: nat)
    requires
        1 <= q <= p <= 9,
        atom_of(plain(single_text(b, p))) == Ok::<SVal, ParseError>(SVal::Number(b)),
    ensures
        atom_of(number_text_from(b, q)) == Ok::<SVal, ParseError>(SVal::Number(b)),
    decreases p - q,
{
    if q < p && q < 9 && atom_of(plain(single_text(b, q))) != Ok::<SVal, ParseError>(SVal::Number(b)) {
        lemma_number_search(b, q + 1, p);
    }
}

/// Reading back the written form of a number gives the same bit pattern
/// whenever the printer's text at some precision from 1 to 9 digits reads
/// back: the written form is the first of those that does.
pub proof fn lemma_number_round_trip(b: u32, p: nat)
    requires
        1 <= p <= 9,
        atom_of(plain(single_text(b, p))) == Ok::<SVal, ParseError>(SVal::Number(b)),
    ensures
        atom_of(show(SVal::Number(b))) == Ok::<SVal, ParseError>(SVal::Number(b)),
{
    lemma_number_search(b, 1, p);
}

/// Binding names other than `k` leaves what `k` is bound to.
proof fn lemma_set_all_keeps(e: EnvV, es: Seq<(Seq<char>, SVal)>, i: int, k: Seq<char>)
    requires
        0 <= i <= es.len(),
        keys_unique(e),
        forall|j: int| i <= j < es.len() ==> #[trigger] es[j].0 != k,
    ensures
        env_lookup(set_all(e, es, i), k) == env_lookup(e, k),
    decreases es.len() - i,
{
    if i < es.len() {
        crate::env::lemma_env_set(e, es[i].0, es[i].1);
        lemma_set_all_keeps(env_set(e, es[i].0, es[i].1), es, i + 1, k);
    }
}

/// A boolean's written form is read as a symbol (`true` or `false`), and in
/// a fresh interpreter that symbol evaluates to the same boolean.
pub proof fn lemma_bool_round_trip(fuel: nat, b: bool)
    requires
        fuel >= 1,
    ensures
        atom_of(show(SVal::Bool(b))) == Ok::<SVal, ParseError>(SVal::Symbol(show(SVal::Bool(b)))),
        sem_eval(fuel, LispV { scopes: seq![std_table()], output: Seq::empty(), input: Seq::empty() },
            SVal::Symbol(show(SVal::Bool(b)))).1 == Ok::<SVal, ErrV>(SVal::Bool(b)),
{
    reveal_strlit("true");
    reveal_strlit("false");
    reveal_strlit("nil");
    reveal_strlit("Number");
    reveal_strlit("Bool");
    reveal_strlit("String");
    reveal_strlit("Symbol");
    reveal_strlit("List");
    reveal_strlit("Nil");
    reveal_strlit("ForeignFunc");
    reveal_strlit("Lambda");
    reveal_strlit("type");
    reveal_strlit("eval");
    reveal_strlit("id");
    reveal_strlit("quote");
    reveal_strlit("if");
    reveal_strlit("def");
    reveal_strlit("define");
    reveal_strlit("let");
    reveal_strlit("\\");
    reveal_strlit("lambda");
    reveal_strlit("seq");
    reveal_strlit("and");
    reveal_strlit("or");
    reveal_strlit("not");
    reveal_strlit("+");
    reveal_strlit("-");
    reveal_strlit("*");
    reveal_strlit("/");
    reveal_strlit("=");
    reveal_strlit(">");
    reveal_strlit("<");
    reveal_strlit("print");
    reveal_strlit("input");
    reveal_strlit("exit");
    reveal_strlit("str");
    reveal_strlit("list");
    reveal_strlit("range");
    reveal_strlit("len");
    reveal_strlit("empty?");
    reveal_strlit("cons");
    reveal_strlit("join");
    reveal_strlit("head");
    reveal_strlit("tail");
    reveal_strlit("map");
    reveal_strlit("fold");
    reveal_strlit("filter");
    let t = show(SVal::Bool(b));
    let es = std_entries();
    let e0: EnvV = Seq::empty();
    // the written form reads as a symbol
    assert(t[0] == 't' || t[0] == 'f');
    assert(digits_end(t, 0) == 0);
    assert(float_form(t) == FloatForm::NotFloat);
    assert(string_literal(t) is None);
    // the global scope binds it to the boolean
    let k: int = if b { 0 } else { 1 };
    assert(es[k].0 == t && es[k].1 == SVal::Bool(b));
    if b {
        assert forall|j: int| 1 <= j < es.len() implies #[trigger] es[j].0 != t by {
            assert(es[j].0 != "true"@);
        }
        let e1 = env_set(e0, t, SVal::Bool(true));
        crate::env::lemma_env_set(e0, t, SVal::Bool(true));
        lemma_set_all_keeps(e1, es, 1, t);
    } else {
        assert forall|j: int| 2 <= j < es.len() implies #[trigger] es[j].0 != t by {
            assert(es[j].0 != "false"@);
        }
        let e1 = env_set(e0, es[0].0, es[0].1);
        crate::env::lemma_env_set(e0, es[0].0, es[0].1);
        let e2 = env_set(e1, t, SVal::Bool(false));
        crate::env::lemma_env_set(e1, t, SVal::Bool(false));
        assert(set_all(e1, es, 1) == set_all(e2, es, 2));
        lemma_set_all_keeps(e2, es, 2, t);
    }
    assert(env_lookup(std_table(), t) == Some(SVal::Bool(b)));
    let sc = seq![std_table()];
    assert(sc.last() == std_table());
}

/// Quoting: `'v` and `(quote v)` both evaluate to `v` itself, unevaluated,
/// and leave the scopes as they were.
pub proof fn lemma_quote(fuel: nat, st: LispV, v: SVal)
    requires
        fuel >= 2,
        st.scopes.len() >= 1,
        scopes_lookup(st.scopes, "quote"@) == Some(SVal::HardFunc(FuncV { func: Builtin::Quote, args: builtin_arity(Builtin::Quote) })),
    ensures
        sem_eval(fuel, st, SVal::Quote(Box::new(v))) == (st, Ok::<SVal, ErrV>(v)),
        sem_eval(fuel, st, SVal::List(seq![SVal::Symbol("quote"@), v])) == (st, Ok::<SVal, ErrV>(v)),
{
    let items = seq![SVal::Symbol("quote"@), v];
    let st1 = push_scope(st);
    let e: EnvV = Seq::empty();
    assert(env_lookup(e, "quote"@) is None);
    assert(st1.scopes.drop_last() =~= st.scopes);
    assert(scopes_lookup(st1.scopes, "quote"@) == scopes_lookup(st.scopes, "quote"@));
    assert(items.drop_first() =~= seq![v]);
    assert(pop_scope(st1).scopes =~= st.scopes);
    assert(builtin_arity(Builtin::Quote) == ArgsV::Fixed(1));
    let g = (fuel - 1) as nat;
    let f = FuncV { func: Builtin::Quote, args: builtin_arity(Builtin::Quote) };
    assert(sem_eval(g, st1, SVal::Symbol("quote"@)) == (st1, Ok::<SVal, ErrV>(SVal::HardFunc(f))));
    assert(crate::value::arity_accepts(f.args, 1));
    assert(sem_builtin(g, st1, Builtin::Quote, seq![v]) == (st1, Ok::<SVal, ErrV>(v)));
    assert(sem_apply(g, st1, Ok(SVal::HardFunc(f)), seq![v]) == (st1, Ok::<SVal, ErrV>(v)));
}

/// Evaluating the empty list is an error, whatever the state.
pub proof fn lemma_empty_call(fuel: nat, st: LispV)
    requires
        fuel >= 1,
    ensures
        sem_eval(fuel, st, SVal::List(Seq::empty())) == (st, Err::<SVal, ErrV>(ErrV::AttemptToEvalEmptyList)),
{
}

/// A symbol bound in no active scope fails with an error that names it; one
/// that is bound evaluates to its innermost binding.
pub proof fn lemma_symbol(fuel: nat, st: LispV, s: Seq<char>)
    requires
        fuel >= 1,
    ensures
        scopes_lookup(st.scopes, s) is None ==> sem_eval(fuel, st, SVal::Symbol(s)) == (st, Err::<SVal, ErrV>(ErrV::UndeclaredSymbol(s))),
        scopes_lookup(st.scopes, s) is Some ==> sem_eval(fuel, st, SVal::Symbol(s)) == (st, Ok::<SVal, ErrV>(scopes_lookup(st.scopes, s)->Some_0)),
{
}

/// A lambda called with a number of arguments other than its parameters
/// fails with an exact arity of its parameter count, before any argument is
/// evaluated.
pub proof fn lemma_lambda_arity(g: nat, st: LispV, params: Seq<Seq<char>>, body: Seq<SVal>, rest: Seq<SVal>)
    requires
        rest.len() != params.len(),
    ensures
        sem_apply(g, st, Ok(SVal::Lambda(params, body)), rest)
            == (st, Err::<SVal, ErrV>(ErrV::InvalidArguments(ArgsV::Fixed(params.len() as usize), rest.len()))),
{
}

/// A foreign value bound in the global scope of an interpreter with no other
/// scope evaluates to itself, downcasts to its host object for its own host
/// type, and fails with a type error naming the requested type for any other.
pub proof fn lemma_foreign_round_trip(fuel: nat, st: LispV, name: Seq<char>, f: Foreign, other: u64)
    requires
        fuel >= 1,
        st.scopes.len() == 1,
        crate::env::keys_unique(st.scopes[0]),
        other != f.kind,
    ensures
        ({
            let st1 = with_scopes(st, st.scopes.update(0, env_set(st.scopes[0], name, SVal::Foreign(f))));
            let (st2, r) = sem_eval(fuel, st1, SVal::Symbol(name));
            &&& st2 == st1
            &&& r == Ok::<SVal, ErrV>(SVal::Foreign(f))
            &&& downcast(r->Ok_0, f.kind) == Ok::<Foreign, ErrV>(f)
            &&& downcast(r->Ok_0, other) == Err::<Foreign, ErrV>(type_error(Type::Foreign(other), SVal::Foreign(f)))
        }),
{
    let e = env_set(st.scopes[0], name, SVal::Foreign(f));
    let sc = st.scopes.update(0, e);
    crate::env::lemma_env_set(st.scopes[0], name, SVal::Foreign(f));
    assert(sc.last() == e);
}


/// `(let ((name v)) body)` for a number `v`.
pub open spec fn let_form(name: Seq<char>, v: u32, body: SVal) -> SVal {
    SVal::List(seq![
        SVal::Symbol("let"@),
        SVal::List(seq![SVal::List(seq![SVal::Symbol(name), SVal::Number(v)])]),
        body,
    ])
}

/// The value of `let` in the standard library.
pub open spec fn let_builtin() -> SVal {
    SVal::HardFunc(FuncV { func: Builtin::Let, args: builtin_arity(Builtin::Let) })
}

/// A `let` of one number evaluates its body in a fresh scope that binds the
/// name, and then drops that scope.
proof fn lemma_let_one(f: nat, st: LispV, name: Seq<char>, v: u32, body: SVal)
    requires
        f >= 2,
        st.scopes.len() >= 1,
        scopes_lookup(st.scopes, "let"@) == Some(let_builtin()),
    ensures
        ({
            let inner = set_current(push_scope(st), name, SVal::Number(v));
            let (st2, r) = sem_eval((f - 1) as nat, inner, body);
            sem_eval(f, st, let_form(name, v, body)) == (pop_scope(st2), r)
        }),
{
    let g = (f - 1) as nat;
    let st1 = push_scope(st);
    let e: EnvV = Seq::empty();
    assert(env_lookup(e, "let"@) is None);
    assert(st1.scopes.drop_last() =~= st.scopes);
    assert(scopes_lookup(st1.scopes, "let"@) == Some(let_builtin()));
    let form = let_form(name, v, body);
    let items = form->List_0;
    let rest = items.drop_first();
    let def = SVal::List(seq![SVal::Symbol(name), SVal::Number(v)]);
    let defs = seq![def];
    assert(rest =~= seq![SVal::List(defs), body]);
    assert(builtin_arity(Builtin::Let) == ArgsV::Atleast(2));
    assert(sem_eval(g, st1, SVal::Symbol("let"@)) == (st1, Ok::<SVal, ErrV>(let_builtin())));
    assert(sem_eval(g, st1, SVal::Number(v)) == (st1, Ok::<SVal, ErrV>(SVal::Number(v))));
    let inner = set_current(st1, name, SVal::Number(v));
    assert(def->List_0.len() == 2 && def->List_0[0] == SVal::Symbol(name) && def->List_0[1] == SVal::Number(v));
    assert(sem_let_defs(g, inner, defs, 1) == (inner, None::<ErrV>));
    assert(sem_let_defs(g, st1, defs, 0) == (inner, None::<ErrV>));
    let (st3, r) = sem_eval(g, inner, body);
    match r {
        Ok(x) => {
            assert(sem_seq(g, st3, rest, 2, x) == (st3, Ok::<SVal, ErrV>(x)));
        },
        Err(_) => {},
    }
    assert(sem_seq(g, inner, rest, 1, SVal::Nil) == (st3, r));
    assert(sem_builtin(g, st1, Builtin::Let, rest) == (st3, r));
    assert(sem_apply(g, st1, Ok(let_builtin()), rest) == (st3, r));
}

/// Shadowing: in `(let ((x a)) (let ((x b)) x))` the inner binding wins, and
/// when both forms are done the scopes are exactly as before, so a name that
/// was unbound before is unbound after.
pub proof fn lemma_let_shadowing(fuel: nat, st: LispV, a: u32, b: u32)
    requires
        fuel >= 3,
        st.scopes.len() >= 1,
        scopes_lookup(st.scopes, "let"@) == Some(let_builtin()),
    ensures
        sem_eval(fuel, st, let_form("x"@, a, let_form("x"@, b, SVal::Symbol("x"@))))
            == (st, Ok::<SVal, ErrV>(SVal::Number(b))),
{
    let x = "x"@;
    let l = "let"@;
    assert(x != l) by {
        reveal_strlit("x");
        reveal_strlit("let");
        assert(x.len() != l.len());
    }
    let g = (fuel - 1) as nat;
    let inner_body = let_form(x, b, SVal::Symbol(x));
    lemma_let_one(fuel, st, x, a, inner_body);
    let s1 = set_current(push_scope(st), x, SVal::Number(a));
    let e: EnvV = Seq::empty();
    let e1 = env_set(e, x, SVal::Number(a));
    assert(keys_unique(e));
    crate::env::lemma_env_set(e, x, SVal::Number(a));
    assert(s1.scopes =~= st.scopes.push(e1));
    assert(s1.scopes.drop_last() =~= st.scopes);
    assert(env_lookup(e1, l) == env_lookup(e, l));
    assert(env_lookup(e, l) is None);
    assert(scopes_lookup(s1.scopes, l) == Some(let_builtin()));
    lemma_let_one(g, s1, x, b, SVal::Symbol(x));
    let s2 = set_current(push_scope(s1), x, SVal::Number(b));
    let e2 = env_set(e, x, SVal::Number(b));
    crate::env::lemma_env_set(e, x, SVal::Number(b));
    assert(s2.scopes =~= s1.scopes.push(e2));
    assert(env_lookup(e2, x) == Some(SVal::Number(b)));
    assert(scopes_lookup(s2.scopes, x) == Some(SVal::Number(b)));
    assert(sem_eval((g - 1) as nat, s2, SVal::Symbol(x)) == (s2, Ok::<SVal, ErrV>(SVal::Number(b))));
    assert(pop_scope(s2).scopes =~= s1.scopes);
    assert(pop_scope(s2) == s1);
    assert(pop_scope(s1).scopes =~= st.scopes);
    assert(pop_scope(s1) == st);
}
} // verus!
