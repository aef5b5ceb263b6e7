//! The standard library's built-ins that compute from their arguments alone,
//! and the arity that the standard library gives each built-in.
use crate::eval::{result_view, ErrV, FuncError, FuncResult};
use crate::number::{
    add_single, compare_single, div_single, mul_single, single_add, single_cmp, single_div,
    single_from_int, single_mul, single_of_int, single_sub, single_to_i32, single_to_int,
    sub_single,
};
use crate::text::{push_str, string_of};
use crate::value::{
    lemma_views, show, texts, type_error, typ_of, views, write_value, Args, ArgsV, Builtin,
    SVal, Type, Value,
};
use vstd::prelude::*;

verus! {

/// The arity that the standard library declares for a built-in.
pub open spec fn builtin_arity(b: Builtin) -> ArgsV {
    match b {
        Builtin::TypeOf | Builtin::Eval | Builtin::Id | Builtin::Quote | Builtin::Not
        | Builtin::Len | Builtin::IsEmpty | Builtin::Head | Builtin::Tail => ArgsV::Fixed(1),
        Builtin::GreaterThan | Builtin::LessThan | Builtin::Cons | Builtin::Join
        | Builtin::MapOver | Builtin::Filter => ArgsV::Fixed(2),
        Builtin::If => ArgsV::Fixed(3),
        Builtin::Define | Builtin::Let | Builtin::Lambda | Builtin::Add | Builtin::Sub
        | Builtin::Mul | Builtin::Div | Builtin::Eq => ArgsV::Atleast(2),
        Builtin::Sequence => ArgsV::Atleast(1),
        Builtin::Input | Builtin::Exit => ArgsV::Multiple(seq![0usize, 1usize]),
        Builtin::Range | Builtin::Fold => ArgsV::Multiple(seq![2usize, 3usize]),
        Builtin::And | Builtin::Or | Builtin::Print | Builtin::Str | Builtin::List => ArgsV::Variant,
    }
}

/// The arity that the standard library declares for a built-in.
pub fn arity_of(b: Builtin) -> (r: Args)
    ensures
        r@ == builtin_arity(b),
{
    let r = match b {
        Builtin::TypeOf | Builtin::Eval | Builtin::Id | Builtin::Quote | Builtin::Not
        | Builtin::Len | Builtin::IsEmpty | Builtin::Head | Builtin::Tail => Args::Fixed(1),
        Builtin::GreaterThan | Builtin::LessThan | Builtin::Cons | Builtin::Join
        | Builtin::MapOver | Builtin::Filter => Args::Fixed(2),
        Builtin::If => Args::Fixed(3),
        Builtin::Define | Builtin::Let | Builtin::Lambda | Builtin::Add | Builtin::Sub
        | Builtin::Mul | Builtin::Div | Builtin::Eq => Args::Atleast(2),
        Builtin::Sequence => Args::Atleast(1),
        Builtin::Input | Builtin::Exit => Args::Multiple(vec![0, 1]),
        Builtin::Range | Builtin::Fold => Args::Multiple(vec![2, 3]),
        Builtin::And | Builtin::Or | Builtin::Print | Builtin::Str | Builtin::List => Args::Variant,
    };
    proof {
        if r is Multiple {
            assert(r->Multiple_0@ =~= builtin_arity(b)->Multiple_0);
        }
    }
    r
}

/// The names of symbols from position `i` on, after those in `acc`; the first
/// value that is no symbol is a type error.
pub open spec fn symbol_names(items: Seq<SVal>, i: int, acc: Seq<Seq<char>>) -> Result<Seq<Seq<char>>, ErrV>
    decreases items.len() - i,
{
    if i < 0 || i >= items.len() {
        Ok(acc)
    } else {
        match items[i] {
            SVal::Symbol(s) => symbol_names(items, i + 1, acc.push(s)),
            v => Err(type_error(Type::Symbol, v)),
        }
    }
}

/// The name and the lambda that `(define (name params...) body...)` binds.
pub open spec fn define_signature(sig: Seq<SVal>, body: Seq<SVal>) -> Result<(Seq<char>, SVal), ErrV> {
    if sig.len() == 0 {
        Err(ErrV::GivenEmptyList)
    } else {
        match sig[0] {
            SVal::Symbol(name) => match symbol_names(sig, 1, Seq::empty()) {
                Ok(ns) => Ok((name, SVal::Lambda(ns, body))),
                Err(e) => Err(e),
            },
            v => Err(type_error(Type::Symbol, v)),
        }
    }
}

/// How `print` and `str` write a value: a string as its text, anything else
/// in its written form.
pub open spec fn display(v: SVal) -> Seq<char> {
    match v {
        SVal::Str(s) => s,
        _ => show(v),
    }
}

/// The displayed values from position `i` on, one after another.
pub open spec fn display_all(a: Seq<SVal>, i: int) -> Seq<char>
    decreases a.len() - i,
{
    if i < 0 || i >= a.len() {
        Seq::empty()
    } else {
        display(a[i]) + display_all(a, i + 1)
    }
}

/// Equality as `=` sees it: numbers by IEEE comparison, foreign values never.
pub open spec fn sval_eq(a: SVal, b: SVal) -> bool
    decreases a, 1nat,
{
    match a {
        SVal::Number(x) => match b { SVal::Number(y) => single_cmp(x, y) == Some(core::cmp::Ordering::Equal), _ => false },
        SVal::Bool(x) => match b { SVal::Bool(y) => x == y, _ => false },
        SVal::Symbol(x) => match b { SVal::Symbol(y) => x == y, _ => false },
        SVal::Str(x) => match b { SVal::Str(y) => x == y, _ => false },
        SVal::HardFunc(f) => match b { SVal::HardFunc(g) => f == g, _ => false },
        SVal::Lambda(p, x) => match b { SVal::Lambda(q, y) => p == q && svals_eq(x, y), _ => false },
        SVal::List(x) => match b { SVal::List(y) => svals_eq(x, y), _ => false },
        SVal::Nil => b is Nil,
        SVal::Quote(x) => match b { SVal::Quote(y) => sval_eq(*x, *y), _ => false },
        SVal::Type(x) => match b { SVal::Type(y) => x == y, _ => false },
        SVal::Foreign(_) => false,
    }
}

/// Element-wise equality of two sequences of values.
pub open spec fn svals_eq(x: Seq<SVal>, y: Seq<SVal>) -> bool
    decreases x, 0nat,
{
    x.len() == y.len() && (x.len() == 0 || (svals_eq(x.drop_last(), y.drop_last()) && sval_eq(x.last(), y.last())))
}

/// `and`: `false` at the first `false`, a type error at the first value that
/// is no boolean before it, else `true`.
pub open spec fn and_from(a: Seq<SVal>, i: int) -> Result<SVal, ErrV>
    decreases a.len() - i,
{
    if i < 0 || i >= a.len() {
        Ok(SVal::Bool(true))
    } else {
        match a[i] {
            SVal::Bool(b) => if !b { Ok(SVal::Bool(false)) } else { and_from(a, i + 1) },
            v => Err(type_error(Type::Bool, v)),
        }
    }
}

/// `or`: `true` at the first `true`, a type error at the first value that
/// is no boolean before it, else `false`.
pub open spec fn or_from(a: Seq<SVal>, i: int) -> Result<SVal, ErrV>
    decreases a.len() - i,
{
    if i < 0 || i >= a.len() {
        Ok(SVal::Bool(false))
    } else {
        match a[i] {
            SVal::Bool(b) => if b { Ok(SVal::Bool(true)) } else { or_from(a, i + 1) },
            v => Err(type_error(Type::Bool, v)),
        }
    }
}

/// One step of an arithmetic built-in.
pub open spec fn arith_op(b: Builtin, x: u32, y: u32) -> u32 {
    match b {
        Builtin::Add => single_add(x, y),
        Builtin::Sub => single_sub(x, y),
        Builtin::Mul => single_mul(x, y),
        _ => single_div(x, y),
    }
}

/// Folds an arithmetic built-in over the numbers from position `i` on.
pub open spec fn arith_from(b: Builtin, a: Seq<SVal>, i: int, acc: u32) -> Result<SVal, ErrV>
    decreases a.len() - i,
{
    if i < 0 || i >= a.len() {
        Ok(SVal::Number(acc))
    } else {
        match a[i] {
            SVal::Number(y) => arith_from(b, a, i + 1, arith_op(b, acc, y)),
            v => Err(type_error(Type::Number, v)),
        }
    }
}

/// `=`: whether each value equals the next, from position `i` on.
pub open spec fn eq_from(a: Seq<SVal>, i: int) -> bool
    decreases a.len() - i,
{
    if i < 0 || i + 1 >= a.len() {
        true
    } else {
        sval_eq(a[i], a[i + 1]) && eq_from(a, i + 1)
    }
}

/// The numbers `k`, `k + step`, ... below `end`, after those in `acc`; none
/// when the step is not positive.
pub open spec fn range_from(k: int, end: int, step: int, acc: Seq<SVal>) -> Seq<SVal>
    decreases if k < end { end - k } else { 0 },
{
    if step <= 0 || k >= end {
        acc
    } else {
        range_from(k + step, end, step, acc.push(SVal::Number(single_of_int(k))))
    }
}

/// The result of a built-in that computes from its arguments alone, for a
/// count of arguments that its arity accepts.
pub open spec fn pure_result(b: Builtin, a: Seq<SVal>) -> Result<SVal, ErrV> {
    match b {
        Builtin::TypeOf => Ok(SVal::Type(typ_of(a[0]))),
        Builtin::Id => Ok(a[0]),
        Builtin::And => and_from(a, 0),
        Builtin::Or => or_from(a, 0),
        Builtin::Not => match a[0] {
            SVal::Bool(x) => Ok(SVal::Bool(!x)),
            v => Err(type_error(Type::Bool, v)),
        },
        Builtin::Add | Builtin::Sub | Builtin::Mul | Builtin::Div => match a[0] {
            SVal::Number(x) => arith_from(b, a, 1, x),
            v => Err(type_error(Type::Number, v)),
        },
        Builtin::Eq => Ok(SVal::Bool(eq_from(a, 0))),
        Builtin::GreaterThan | Builtin::LessThan => match a[0] {
            SVal::Number(x) => match a[1] {
                SVal::Number(y) => Ok(SVal::Bool(single_cmp(x, y) == Some(
                    if b is GreaterThan { core::cmp::Ordering::Greater } else { core::cmp::Ordering::Less },
                ))),
                v => Err(type_error(Type::Number, v)),
            },
            v => Err(type_error(Type::Number, v)),
        },
        Builtin::Exit => if a.len() == 1 {
            match a[0] {
                SVal::Number(x) => Err(ErrV::Exit(single_to_i32(x))),
                v => Err(type_error(Type::Number, v)),
            }
        } else {
            Err(ErrV::Exit(0))
        },
        Builtin::Str => Ok(SVal::Str(display_all(a, 0))),
        Builtin::List => Ok(SVal::List(a)),
        Builtin::Range => {
            let o: int = if a.len() == 3 { 1 } else { 0 };
            match (if a.len() == 3 { a[0] } else { SVal::Number(single_of_int(1)) }) {
                SVal::Number(s) => match a[o] {
                    SVal::Number(x) => match a[o + 1] {
                        SVal::Number(y) => Ok(SVal::List(range_from(
                            single_to_i32(x) as int,
                            single_to_i32(y) as int,
                            if a.len() == 3 { single_to_i32(s) as int } else { 1 },
                            Seq::empty(),
                        ))),
                        v => Err(type_error(Type::Number, v)),
                    },
                    v => Err(type_error(Type::Number, v)),
                },
                v => Err(type_error(Type::Number, v)),
            }
        },
        Builtin::Len => match a[0] {
            SVal::List(l) => Ok(SVal::Number(single_of_int(l.len() as int))),
            v => Err(type_error(Type::List, v)),
        },
        Builtin::IsEmpty => match a[0] {
            SVal::List(l) => Ok(SVal::Bool(l.len() == 0)),
            v => Err(type_error(Type::List, v)),
        },
        Builtin::Cons => match a[1] {
            SVal::List(l) => Ok(SVal::List(seq![a[0]] + l)),
            v => Err(type_error(Type::List, v)),
        },
        Builtin::Join => match a[0] {
            SVal::List(l) => Ok(SVal::List(l.push(a[1]))),
            v => Err(type_error(Type::List, v)),
        },
        Builtin::Head => match a[0] {
            SVal::List(l) => if l.len() == 0 { Err(ErrV::GivenEmptyList) } else { Ok(l[0]) },
            v => Err(type_error(Type::List, v)),
        },
        Builtin::Tail => match a[0] {
            SVal::List(l) => if l.len() == 0 { Err(ErrV::GivenEmptyList) } else { Ok(SVal::List(l.drop_first())) },
            v => Err(type_error(Type::List, v)),
        },
        _ => Ok(SVal::Nil),
    }
}


/// Whether two vectors of strings hold the same texts.
fn strings_equal(a: &Vec<String>, b: &Vec<String>) -> (r: bool)
    ensures
        r == (texts(a@) == texts(b@)),
{
    if a.len() != b.len() {
        assert(texts(a@).len() != texts(b@).len());
        return false;
    }
    let mut i: usize = 0;
    while i < a.len()
        invariant
            i <= a@.len(),
            a@.len() == b@.len(),
            forall|j: int| 0 <= j < i ==> #[trigger] a@[j]@ == b@[j]@,
        decreases a@.len() - i,
    {
        if a[i] != b[i] {
            assert(texts(a@)[i as int] != texts(b@)[i as int]);
            return false;
        }
        i = i + 1;
    }
    assert(texts(a@) =~= texts(b@));
    true
}

/// `=` on two values.
pub fn values_equal(a: &Value, b: &Value) -> (r: bool)
    ensures
        r == sval_eq(a@, b@),
    decreases a, 1nat,
{
    match (a, b) {
        (Value::Number(x), Value::Number(y)) => {
            match compare_single(*x, *y) {
                Some(core::cmp::Ordering::Equal) => true,
                _ => false,
            }
        },
        (Value::Bool(x), Value::Bool(y)) => *x == *y,
        (Value::Symbol(x), Value::Symbol(y)) => *x == *y,
        (Value::String(x), Value::String(y)) => *x == *y,
        (Value::HardFunc(f), Value::HardFunc(g)) => f.func == g.func && f.args.same(&g.args),
        (Value::Lambda { args: p, body: x }, Value::Lambda { args: q, body: y }) => {
            strings_equal(p, q) && lists_equal(x, y)
        },
        (Value::List(x), Value::List(y)) => lists_equal(x, y),
        (Value::Nil, Value::Nil) => true,
        (Value::Quote(x), Value::Quote(y)) => values_equal(&**x, &**y),
        (Value::Type(x), Value::Type(y)) => x.same(y),
        _ => false,
    }
}

/// Element-wise `=` on two vectors of values.
fn lists_equal(x: &Vec<Value>, y: &Vec<Value>) -> (r: bool)
    ensures
        r == svals_eq(views(x@), views(y@)),
    decreases x, 0nat,
{
    proof {
        lemma_views(x@);
        lemma_views(y@);
    }
    if x.len() != y.len() {
        return false;
    }
    let mut i: usize = 0;
    while i < x.len()
        invariant
            i <= x@.len(),
            x@.len() == y@.len(),
            views(x@).len() == x@.len(),
            views(y@).len() == y@.len(),
            forall|j: int| 0 <= j < x@.len() ==> #[trigger] views(x@)[j] == x@[j]@,
            forall|j: int| 0 <= j < y@.len() ==> #[trigger] views(y@)[j] == y@[j]@,
            svals_eq(views(x@).subrange(0, i as int), views(y@).subrange(0, i as int)),
        decreases x@.len() - i,
    {
        proof {
            vstd::std_specs::vec::axiom_vec_index_decreases(*x, i as int);
        }
        let e = values_equal(&x[i], &y[i]);
        proof {
            let xs = views(x@).subrange(0, i + 1);
            let ys = views(y@).subrange(0, i + 1);
            assert(xs.drop_last() =~= views(x@).subrange(0, i as int));
            assert(ys.drop_last() =~= views(y@).subrange(0, i as int));
        }
        if !e {
            proof {
                if svals_eq(views(x@), views(y@)) {
                    lemma_svals_prefix(views(x@), views(y@), i as int + 1);
                    let xs = views(x@).subrange(0, i + 1);
                    let ys = views(y@).subrange(0, i + 1);
                    assert(xs.last() == x@[i as int]@);
                    assert(ys.last() == y@[i as int]@);
                }
            }
            return false;
        }
        i = i + 1;
    }
    assert(views(x@).subrange(0, x@.len() as int) =~= views(x@));
    assert(views(y@).subrange(0, y@.len() as int) =~= views(y@));
    true
}

/// Equal sequences have equal prefixes.
proof fn lemma_svals_prefix(x: Seq<SVal>, y: Seq<SVal>, n: int)
    requires
        0 <= n <= x.len(),
        svals_eq(x, y),
    ensures
        svals_eq(x.subrange(0, n), y.subrange(0, n)),
    decreases x.len(),
{
    if n < x.len() {
        assert(x.drop_last().subrange(0, n) =~= x.subrange(0, n));
        assert(y.drop_last().subrange(0, n) =~= y.subrange(0, n));
        lemma_svals_prefix(x.drop_last(), y.drop_last(), n);
    } else {
        assert(x.subrange(0, n) =~= x);
        assert(y.subrange(0, n) =~= y);
    }
}

/// Appends how `print` and `str` write a value.
fn write_display(out: &mut Vec<char>, v: &Value)
    ensures
        final(out)@ == old(out)@ + display(v@),
{
    match v {
        Value::String(s) => push_str(out, s.as_str()),
        _ => write_value(out, v),
    }
}

/// The displayed values, one after another.
pub fn display_values(vals: &Vec<Value>) -> (r: Vec<char>)
    ensures
        r@ == display_all(views(vals@), 0),
{
    proof {
        lemma_views(vals@);
    }
    let mut out: Vec<char> = Vec::new();
    let mut i: usize = 0;
    while i < vals.len()
        invariant
            i <= vals@.len(),
            views(vals@).len() == vals@.len(),
            forall|j: int| 0 <= j < vals@.len() ==> #[trigger] views(vals@)[j] == vals@[j]@,
            display_all(views(vals@), 0) == out@ + display_all(views(vals@), i as int),
        decreases vals@.len() - i,
    {
        let ghost before = out@;
        write_display(&mut out, &vals[i]);
        assert(display_all(views(vals@), i as int) == display(vals@[i as int]@) + display_all(views(vals@), i + 1));
        assert(before + display_all(views(vals@), i as int) =~= out@ + display_all(views(vals@), i + 1));
        i = i + 1;
    }
    assert(out@ =~= out@ + display_all(views(vals@), i as int));
    out
}

/// The names of the symbols in a vector; the first value that is no symbol
/// is a type error.
pub fn names_of(items: &Vec<Value>, start: usize) -> (r: Result<Vec<String>, FuncError>)
    requires
        start <= items@.len(),
    ensures
        match symbol_names(views(items@), start as int, Seq::empty()) {
            Ok(ns) => r is Ok && texts(r->Ok_0@) == ns,
            Err(e) => r is Err && r->Err_0@ == e,
        },
{
    proof {
        lemma_views(items@);
    }
    let mut names: Vec<String> = Vec::new();
    let mut i: usize = start;
    assert(texts(names@) =~= Seq::<Seq<char>>::empty());
    while i < items.len()
        invariant
            start <= i <= items@.len(),
            views(items@).len() == items@.len(),
            forall|j: int| 0 <= j < items@.len() ==> #[trigger] views(items@)[j] == items@[j]@,
            symbol_names(views(items@), start as int, Seq::empty())
                == symbol_names(views(items@), i as int, texts(names@)),
        decreases items@.len() - i,
    {
        match &items[i] {
            Value::Symbol(s) => {
                let ghost before = texts(names@);
                names.push(s.clone());
                assert(texts(names@) =~= before.push(s@));
            },
            other => {
                let e = vec![Type::Symbol];
                assert(e@ == seq![Type::Symbol]);
                return Err(FuncError::InvalidType { expected: e, got: other.deep_copy() });
            },
        }
        i = i + 1;
    }
    Ok(names)
}

/// The lambda with these parameters and this body.
pub fn make_lambda(args: Vec<Value>, body: Vec<Value>) -> (r: FuncResult)
    ensures
        result_view(r) == match symbol_names(views(args@), 0, Seq::empty()) {
            Ok(ns) => Ok(SVal::Lambda(ns, views(body@))),
            Err(e) => Err(e),
        },
{
    match names_of(&args, 0) {
        Ok(names) => Ok(Value::Lambda { args: names, body }),
        Err(e) => Err(e),
    }
}

/// `type`: the type descriptor of a value.
pub fn type_of(vals: Vec<Value>) -> (r: FuncResult)
    requires
        arity_accepts_n(Builtin::TypeOf, vals@.len()),
    ensures
        result_view(r) == pure_result(Builtin::TypeOf, views(vals@)),
{
    proof { lemma_views(vals@); }
    Ok(Value::Type(vals[0].typ()))
}

/// `id`: its argument.
pub fn id(vals: Vec<Value>) -> (r: FuncResult)
    requires
        arity_accepts_n(Builtin::Id, vals@.len()),
    ensures
        result_view(r) == pure_result(Builtin::Id, views(vals@)),
{
    proof { lemma_views(vals@); }
    Ok(vals[0].deep_copy())
}

/// Whether a count of arguments meets the arity of a built-in.
pub open spec fn arity_accepts_n(b: Builtin, n: nat) -> bool {
    crate::value::arity_accepts(builtin_arity(b), n)
}

fn bool_type_error(v: &Value) -> (r: FuncError)
    ensures
        r@ == type_error(Type::Bool, v@),
{
    let e = vec![Type::Bool];
    assert(e@ == seq![Type::Bool]);
    FuncError::InvalidType { expected: e, got: v.deep_copy() }
}

fn type_error_of(t: Type, v: &Value) -> (r: FuncError)
    ensures
        r@ == type_error(t, v@),
{
    let e = vec![t];
    assert(e@ == seq![t]);
    FuncError::InvalidType { expected: e, got: v.deep_copy() }
}

/// `and`: `false` at the first `false`, else `true`; every value read must be a boolean.
pub fn and(vals: Vec<Value>) -> (r: FuncResult)
    ensures
        result_view(r) == pure_result(Builtin::And, views(vals@)),
{
    proof { lemma_views(vals@); }
    let mut i: usize = 0;
    while i < vals.len()
        invariant
            i <= vals@.len(),
            views(vals@).len() == vals@.len(),
            forall|j: int| 0 <= j < vals@.len() ==> #[trigger] views(vals@)[j] == vals@[j]@,
            and_from(views(vals@), 0) == and_from(views(vals@), i as int),
        decreases vals@.len() - i,
    {
        match &vals[i] {
            Value::Bool(b) => {
                if !*b {
                    return Ok(Value::Bool(false));
                }
            },
            other => return Err(bool_type_error(other)),
        }
        i = i + 1;
    }
    Ok(Value::Bool(true))
}

/// `or`: `true` at the first `true`, else `false`; every value read must be a boolean.
pub fn or(vals: Vec<Value>) -> (r: FuncResult)
    ensures
        result_view(r) == pure_result(Builtin::Or, views(vals@)),
{
    proof { lemma_views(vals@); }
    let mut i: usize = 0;
    while i < vals.len()
        invariant
            i <= vals@.len(),
            views(vals@).len() == vals@.len(),
            forall|j: int| 0 <= j < vals@.len() ==> #[trigger] views(vals@)[j] == vals@[j]@,
            or_from(views(vals@), 0) == or_from(views(vals@), i as int),
        decreases vals@.len() - i,
    {
        match &vals[i] {
            Value::Bool(b) => {
                if *b {
                    return Ok(Value::Bool(true));
                }
            },
            other => return Err(bool_type_error(other)),
        }
        i = i + 1;
    }
    Ok(Value::Bool(false))
}

/// `not`: the negation of a boolean.
pub fn not(vals: Vec<Value>) -> (r: FuncResult)
    requires
        arity_accepts_n(Builtin::Not, vals@.len()),
    ensures
        result_view(r) == pure_result(Builtin::Not, views(vals@)),
{
    proof { lemma_views(vals@); }
    match &vals[0] {
        Value::Bool(b) => Ok(Value::Bool(!*b)),
        other => Err(bool_type_error(other)),
    }
}

/// An arithmetic built-in folded over its numbers.
fn arith(b: Builtin, vals: &Vec<Value>) -> (r: FuncResult)
    requires
        vals@.len() >= 1,
        b is Add || b is Sub || b is Mul || b is Div,
    ensures
        result_view(r) == pure_result(b, views(vals@)),
{
    proof { lemma_views(vals@); }
    let mut acc: u32 = match &vals[0] {
        Value::Number(x) => *x,
        other => return Err(type_error_of(Type::Number, other)),
    };
    let mut i: usize = 1;
    while i < vals.len()
        invariant
            1 <= i <= vals@.len(),
            views(vals@).len() == vals@.len(),
            forall|j: int| 0 <= j < vals@.len() ==> #[trigger] views(vals@)[j] == vals@[j]@,
            pure_result(b, views(vals@)) == arith_from(b, views(vals@), i as int, acc),
            b is Add || b is Sub || b is Mul || b is Div,
        decreases vals@.len() - i,
    {
        match &vals[i] {
            Value::Number(y) => {
                acc = match b {
                    Builtin::Add => add_single(acc, *y),
                    Builtin::Sub => sub_single(acc, *y),
                    Builtin::Mul => mul_single(acc, *y),
                    _ => div_single(acc, *y),
                };
            },
            other => return Err(type_error_of(Type::Number, other)),
        }
        i = i + 1;
    }
    Ok(Value::Number(acc))
}

/// `+`: the sum of its numbers, left to right.
pub fn add(vals: Vec<Value>) -> (r: FuncResult)
    requires
        arity_accepts_n(Builtin::Add, vals@.len()),
    ensures
        result_view(r) == pure_result(Builtin::Add, views(vals@)),
{
    arith(Builtin::Add, &vals)
}

/// `-`: the first number less the others, left to right.
pub fn sub(vals: Vec<Value>) -> (r: FuncResult)
    requires
        arity_accepts_n(Builtin::Sub, vals@.len()),
    ensures
        result_view(r) == pure_result(Builtin::Sub, views(vals@)),
{
    arith(Builtin::Sub, &vals)
}

/// `*`: the product of its numbers, left to right.
pub fn mul(vals: Vec<Value>) -> (r: FuncResult)
    requires
        arity_accepts_n(Builtin::Mul, vals@.len()),
    ensures
        result_view(r) == pure_result(Builtin::Mul, views(vals@)),
{
    arith(Builtin::Mul, &vals)
}

/// `/`: the first number divided by the others, left to right.
pub fn div(vals: Vec<Value>) -> (r: FuncResult)
    requires
        arity_accepts_n(Builtin::Div, vals@.len()),
    ensures
        result_view(r) == pure_result(Builtin::Div, views(vals@)),
{
    arith(Builtin::Div, &vals)
}

/// `=`: whether each value equals the next.
pub fn eq(vals: Vec<Value>) -> (r: FuncResult)
    ensures
        result_view(r) == pure_result(Builtin::Eq, views(vals@)),
{
    proof { lemma_views(vals@); }
    if vals.len() == 0 {
        return Ok(Value::Bool(true));
    }
    let mut i: usize = 0;
    while i < vals.len() - 1
        invariant
            vals@.len() >= 1,
            i <= vals@.len() - 1,
            views(vals@).len() == vals@.len(),
            forall|j: int| 0 <= j < vals@.len() ==> #[trigger] views(vals@)[j] == vals@[j]@,
            eq_from(views(vals@), 0) == eq_from(views(vals@), i as int),
        decreases vals@.len() - i,
    {
        if !values_equal(&vals[i], &vals[i + 1]) {
            return Ok(Value::Bool(false));
        }
        i = i + 1;
    }
    Ok(Value::Bool(true))
}

/// Compares two numbers for `>` and `<`.
fn compare(b: Builtin, vals: &Vec<Value>) -> (r: FuncResult)
    requires
        vals@.len() == 2,
        b is GreaterThan || b is LessThan,
    ensures
        result_view(r) == pure_result(b, views(vals@)),
{
    proof { lemma_views(vals@); }
    let x = match &vals[0] {
        Value::Number(x) => *x,
        other => return Err(type_error_of(Type::Number, other)),
    };
    let y = match &vals[1] {
        Value::Number(y) => *y,
        other => return Err(type_error_of(Type::Number, other)),
    };
    let c = compare_single(x, y);
    let r = match c {
        Some(core::cmp::Ordering::Greater) => b == Builtin::GreaterThan,
        Some(core::cmp::Ordering::Less) => b == Builtin::LessThan,
        _ => false,
    };
    Ok(Value::Bool(r))
}

/// `>` on two numbers.
pub fn greater_than(vals: Vec<Value>) -> (r: FuncResult)
    requires
        arity_accepts_n(Builtin::GreaterThan, vals@.len()),
    ensures
        result_view(r) == pure_result(Builtin::GreaterThan, views(vals@)),
{
    compare(Builtin::GreaterThan, &vals)
}

/// `<` on two numbers.
pub fn less_than(vals: Vec<Value>) -> (r: FuncResult)
    requires
        arity_accepts_n(Builtin::LessThan, vals@.len()),
    ensures
        result_view(r) == pure_result(Builtin::LessThan, views(vals@)),
{
    compare(Builtin::LessThan, &vals)
}

/// `exit`: ends evaluation with an exit code for the host, 0 by default.
pub fn exit(vals: Vec<Value>) -> (r: FuncResult)
    requires
        arity_accepts_n(Builtin::Exit, vals@.len()),
    ensures
        result_view(r) == pure_result(Builtin::Exit, views(vals@)),
{
    proof { lemma_views(vals@); }
    if vals.len() == 1 {
        match &vals[0] {
            Value::Number(x) => Err(FuncError::Exit(single_to_int(*x))),
            other => Err(type_error_of(Type::Number, other)),
        }
    } else {
        Err(FuncError::Exit(0))
    }
}

/// `str`: the displayed values, one after another.
pub fn str_fn(vals: Vec<Value>) -> (r: FuncResult)
    ensures
        result_view(r) == pure_result(Builtin::Str, views(vals@)),
{
    let out = display_values(&vals);
    Ok(Value::String(string_of(&out)))
}

/// `list`: its arguments as a list.
pub fn list(vals: Vec<Value>) -> (r: FuncResult)
    ensures
        result_view(r) == pure_result(Builtin::List, views(vals@)),
{
    Ok(Value::List(vals))
}

/// `range`: the integers from the start, by the step (1 unless given first),
/// below the end.
pub fn range(vals: Vec<Value>) -> (r: FuncResult)
    requires
        arity_accepts_n(Builtin::Range, vals@.len()),
    ensures
        result_view(r) == pure_result(Builtin::Range, views(vals@)),
{
    proof {
        lemma_views(vals@);
        assert(vals@.len() == 2 || vals@.len() == 3) by {
            let ks = seq![2usize, 3usize];
            let i = choose|i: int| 0 <= i < ks.len() && ks[i] == vals@.len();
        }
    }
    let o: usize = if vals.len() == 3 { 1 } else { 0 };
    let step: i64 = if vals.len() == 3 {
        match &vals[0] {
            Value::Number(s) => single_to_int(*s) as i64,
            other => return Err(type_error_of(Type::Number, other)),
        }
    } else {
        1
    };
    let start: i64 = match &vals[o] {
        Value::Number(x) => single_to_int(*x) as i64,
        other => return Err(type_error_of(Type::Number, other)),
    };
    let end: i64 = match &vals[o + 1] {
        Value::Number(y) => single_to_int(*y) as i64,
        other => return Err(type_error_of(Type::Number, other)),
    };
    let mut out: Vec<Value> = Vec::new();
    if step > 0 {
        let mut k: i64 = start;
        while k < end
            invariant
                1 <= step <= i32::MAX as i64,
                i32::MIN as i64 <= k <= 2 * (i32::MAX as i64),
                end <= i32::MAX as i64,
                range_from(start as int, end as int, step as int, Seq::empty())
                    == range_from(k as int, end as int, step as int, views(out@)),
            decreases if k < end { end - k } else { 0 },
        {
            let ghost before = views(out@);
            let ghost old_out = out@;
            out.push(Value::Number(single_from_int(k as i128)));
            proof {
                lemma_views(old_out);
                lemma_views(out@);
                assert(views(out@) =~= before.push(SVal::Number(single_of_int(k as int))));
            }
            k = k + step;
        }
    }
    assert(views(out@) == range_from(start as int, end as int, step as int, Seq::empty()));
    Ok(Value::List(out))
}

/// `len`: the number of elements of a list.
pub fn len(vals: Vec<Value>) -> (r: FuncResult)
    requires
        arity_accepts_n(Builtin::Len, vals@.len()),
    ensures
        result_view(r) == pure_result(Builtin::Len, views(vals@)),
{
    proof { lemma_views(vals@); }
    match &vals[0] {
        Value::List(l) => {
            proof { lemma_views(l@); }
            Ok(Value::Number(single_from_int(l.len() as i128)))
        },
        other => Err(type_error_of(Type::List, other)),
    }
}

/// `empty?`: whether a list has no elements.
pub fn is_empty(vals: Vec<Value>) -> (r: FuncResult)
    requires
        arity_accepts_n(Builtin::IsEmpty, vals@.len()),
    ensures
        result_view(r) == pure_result(Builtin::IsEmpty, views(vals@)),
{
    proof { lemma_views(vals@); }
    match &vals[0] {
        Value::List(l) => {
            proof { lemma_views(l@); }
            Ok(Value::Bool(l.len() == 0))
        },
        other => Err(type_error_of(Type::List, other)),
    }
}

/// `cons`: a list with a new first element.
pub fn cons(vals: Vec<Value>) -> (r: FuncResult)
    requires
        arity_accepts_n(Builtin::Cons, vals@.len()),
    ensures
        result_view(r) == pure_result(Builtin::Cons, views(vals@)),
{
    proof { lemma_views(vals@); }
    match &vals[1] {
        Value::List(l) => {
            let mut out = crate::value::copy_values(l);
            let h = vals[0].deep_copy();
            let ghost old_out = out@;
            out.insert(0, h);
            proof {
                lemma_views(l@);
                lemma_views(old_out);
                lemma_views(out@);
                assert(views(out@) =~= seq![vals@[0]@] + views(l@));
            }
            Ok(Value::List(out))
        },
        other => Err(type_error_of(Type::List, other)),
    }
}

/// `join`: a list with a new last element.
pub fn join(vals: Vec<Value>) -> (r: FuncResult)
    requires
        arity_accepts_n(Builtin::Join, vals@.len()),
    ensures
        result_view(r) == pure_result(Builtin::Join, views(vals@)),
{
    proof { lemma_views(vals@); }
    match &vals[0] {
        Value::List(l) => {
            let mut out = crate::value::copy_values(l);
            let t = vals[1].deep_copy();
            let ghost old_out = out@;
            out.push(t);
            proof {
                lemma_views(l@);
                lemma_views(old_out);
                lemma_views(out@);
                assert(views(out@) =~= views(l@).push(vals@[1]@));
            }
            Ok(Value::List(out))
        },
        other => Err(type_error_of(Type::List, other)),
    }
}

/// `head`: the first element of a non-empty list.
pub fn head(vals: Vec<Value>) -> (r: FuncResult)
    requires
        arity_accepts_n(Builtin::Head, vals@.len()),
    ensures
        result_view(r) == pure_result(Builtin::Head, views(vals@)),
{
    proof { lemma_views(vals@); }
    match &vals[0] {
        Value::List(l) => {
            proof { lemma_views(l@); }
            if l.len() == 0 {
                Err(FuncError::GivenEmptyList)
            } else {
                Ok(l[0].deep_copy())
            }
        },
        other => Err(type_error_of(Type::List, other)),
    }
}

/// `tail`: a non-empty list without its first element.
pub fn tail(vals: Vec<Value>) -> (r: FuncResult)
    requires
        arity_accepts_n(Builtin::Tail, vals@.len()),
    ensures
        result_view(r) == pure_result(Builtin::Tail, views(vals@)),
{
    proof { lemma_views(vals@); }
    match &vals[0] {
        Value::List(l) => {
            proof { lemma_views(l@); }
            if l.len() == 0 {
                Err(FuncError::GivenEmptyList)
            } else {
                let mut out = crate::value::copy_values(l);
                let ghost old_out = out@;
                out.remove(0);
                proof {
                    lemma_views(old_out);
                    lemma_views(out@);
                    assert(views(out@) =~= views(l@).drop_first());
                }
                Ok(Value::List(out))
            }
        },
        other => Err(type_error_of(Type::List, other)),
    }
}

/// Whether a built-in computes from its arguments alone.
pub open spec fn is_pure(b: Builtin) -> bool {
    !(b.spec_is_special() || b is Eval || b is MapOver || b is Fold || b is Filter || b is Print
        || b is Input)
}

/// Runs a built-in that computes from its arguments alone.
pub fn apply_pure(b: Builtin, vals: Vec<Value>) -> (r: FuncResult)
    requires
        is_pure(b),
        arity_accepts_n(b, vals@.len()),
    ensures
        result_view(r) == pure_result(b, views(vals@)),
{
    match b {
        Builtin::TypeOf => type_of(vals),
        Builtin::Id => id(vals),
        Builtin::And => and(vals),
        Builtin::Or => or(vals),
        Builtin::Not => not(vals),
        Builtin::Add => crate::default_env::add(vals),
        Builtin::Sub => crate::default_env::sub(vals),
        Builtin::Mul => crate::default_env::mul(vals),
        Builtin::Div => div(vals),
        Builtin::Eq => eq(vals),
        Builtin::GreaterThan => greater_than(vals),
        Builtin::LessThan => less_than(vals),
        Builtin::Exit => exit(vals),
        Builtin::Str => str_fn(vals),
        Builtin::List => list(vals),
        Builtin::Range => range(vals),
        Builtin::Len => len(vals),
        Builtin::IsEmpty => is_empty(vals),
        Builtin::Cons => cons(vals),
        Builtin::Join => join(vals),
        Builtin::Head => head(vals),
        Builtin::Tail => tail(vals),
        _ => Ok(Value::Nil),
    }
}

} // verus!
