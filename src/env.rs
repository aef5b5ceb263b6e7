//! One scope: a table from names to values, each name bound at most once.
use crate::default_env::{arity_of, builtin_arity};
use crate::value::{Builtin, Func, FuncV, SVal, Type, Value};
use vstd::prelude::*;

verus! {

/// The mathematical form of a scope: its bindings, each name once.
pub type EnvV = Seq<(Seq<char>, SVal)>;

/// Whether no name is bound twice.
pub open spec fn keys_unique(e: EnvV) -> bool {
    forall|i: int, j: int| 0 <= i < e.len() && 0 <= j < e.len() && i != j ==> #[trigger] e[i].0 != #[trigger] e[j].0
}

/// Whether a name is bound.
pub open spec fn binds(e: EnvV, k: Seq<char>) -> bool {
    exists|i: int| 0 <= i < e.len() && #[trigger] e[i].0 == k
}

/// The position at which a bound name stands.
pub open spec fn slot(e: EnvV, k: Seq<char>) -> int {
    choose|i: int| 0 <= i < e.len() && #[trigger] e[i].0 == k
}

/// The value bound to a name, if any.
pub open spec fn env_lookup(e: EnvV, k: Seq<char>) -> Option<SVal> {
    if binds(e, k) {
        Some(e[slot(e, k)].1)
    } else {
        None
    }
}

/// The table after binding a name: an existing binding is overwritten in
/// place, a new one is added.
pub open spec fn env_set(e: EnvV, k: Seq<char>, v: SVal) -> EnvV {
    if binds(e, k) {
        e.update(slot(e, k), (k, v))
    } else {
        e.push((k, v))
    }
}

/// A scope of the interpreter.
#[derive(Debug)]
pub struct Env {
    pub bindings: Vec<(String, Value)>,
}

impl View for Env {
    type V = EnvV;

    open spec fn view(&self) -> EnvV {
        self.bindings@.map_values(|p: (String, Value)| (p.0@, p.1@))
    }
}

/// Binding a name keeps names unique, binds it, and leaves every other name alone.
pub proof fn lemma_env_set(e: EnvV, k: Seq<char>, v: SVal)
    requires
        keys_unique(e),
    ensures
        keys_unique(env_set(e, k, v)),
        env_lookup(env_set(e, k, v), k) == Some(v),
        forall|k2: Seq<char>| k2 != k ==> env_lookup(env_set(e, k, v), k2) == #[trigger] env_lookup(e, k2),
{
    let n = env_set(e, k, v);
    if binds(e, k) {
        let i = slot(e, k);
        assert(n[i].0 == k);
        assert forall|k2: Seq<char>| k2 != k implies env_lookup(n, k2) == #[trigger] env_lookup(e, k2) by {
            if binds(e, k2) {
                let j = slot(e, k2);
                assert(n[j].0 == k2);
            }
            if binds(n, k2) {
                let j = slot(n, k2);
                assert(e[j].0 == k2);
            }
        }
    } else {
        assert(n[e.len() as int].0 == k);
        assert forall|k2: Seq<char>| k2 != k implies env_lookup(n, k2) == #[trigger] env_lookup(e, k2) by {
            if binds(e, k2) {
                let j = slot(e, k2);
                assert(n[j].0 == k2);
            }
            if binds(n, k2) {
                let j = slot(n, k2);
                assert(e[j].0 == k2);
            }
        }
    }
}

/// Anything that can be bound in a scope or handed to the interpreter.
pub trait ToLisp: Sized {
    /// The value that `to_lisp` makes.
    spec fn lisp_view(&self) -> SVal;

    fn to_lisp(self) -> (r: Value)
        ensures
            r@ == self.lisp_view(),
    ;
}

impl Env {
    /// The well-formedness of a scope: no name bound twice.
    pub open spec fn wf(&self) -> bool {
        keys_unique(self@)
    }

    /// An empty scope.
    pub fn new() -> (r: Env)
        ensures
            r@ == Seq::<(Seq<char>, SVal)>::empty(),
            r.wf(),
    {
        let r = Env { bindings: Vec::new() };
        assert(r@ =~= Seq::<(Seq<char>, SVal)>::empty());
        r
    }

    /// Where a name is bound, if it is.
    fn position(&self, name: &String) -> (r: Option<usize>)
        requires
            self.wf(),
        ensures
            match r {
                Some(i) => i < self@.len() && self@[i as int].0 == name@ && binds(self@, name@)
                    && slot(self@, name@) == i,
                None => !binds(self@, name@),
            },
    {
        let mut i: usize = 0;
        while i < self.bindings.len()
            invariant
                i <= self@.len(),
                self@.len() == self.bindings@.len(),
                keys_unique(self@),
                forall|j: int| 0 <= j < i ==> #[trigger] self@[j].0 != name@,
            decreases self.bindings@.len() - i,
        {
            if self.bindings[i].0 == *name {
                assert(self@[i as int].0 == name@);
                proof {
                    assert(binds(self@, name@));
                    let j = slot(self@, name@);
                    assert(0 <= j < self@.len() && self@[j].0 == name@);
                    if j != i as int {
                        assert(self@[j].0 != self@[i as int].0);
                    }
                }
                return Some(i);
            }
            i = i + 1;
        }
        None
    }

    /// A copy of the value bound to a name.
    pub fn get(&self, name: &str) -> (r: Option<Value>)
        requires
            self.wf(),
        ensures
            match r {
                Some(v) => env_lookup(self@, name@) == Some(v@),
                None => env_lookup(self@, name@) is None,
            },
    {
        match self.position(&name.to_string()) {
            Some(i) => Some(self.bindings[i].1.deep_copy()),
            None => None,
        }
    }

    /// Binds a name, overwriting an earlier binding of it.
    pub fn set<T: ToLisp>(&mut self, name: &str, value: T)
        requires
            old(self).wf(),
        ensures
            final(self)@ == env_set(old(self)@, name@, value.lisp_view()),
            final(self).wf(),
    {
        let ghost v = value.lisp_view();
        let val = value.to_lisp();
        let key = name.to_string();
        proof {
            lemma_env_set(self@, name@, v);
        }
        match self.position(&key) {
            Some(i) => {
                self.bindings.set(i, (key, val));
                assert(self@ =~= env_set(old(self)@, name@, v));
            },
            None => {
                self.bindings.push((key, val));
                assert(self@ =~= env_set(old(self)@, name@, v));
            },
        }
    }
}


impl ToLisp for Value {
    open spec fn lisp_view(&self) -> SVal {
        self@
    }

    fn to_lisp(self) -> (r: Value) {
        self
    }
}

impl ToLisp for bool {
    open spec fn lisp_view(&self) -> SVal {
        SVal::Bool(*self)
    }

    fn to_lisp(self) -> (r: Value) {
        Value::Bool(self)
    }
}

impl ToLisp for String {
    open spec fn lisp_view(&self) -> SVal {
        SVal::Str(self@)
    }

    fn to_lisp(self) -> (r: Value) {
        Value::String(self)
    }
}

impl ToLisp for crate::value::Func {
    open spec fn lisp_view(&self) -> SVal {
        SVal::HardFunc(self@)
    }

    fn to_lisp(self) -> (r: Value) {
        Value::HardFunc(self)
    }
}

impl ToLisp for crate::value::Type {
    open spec fn lisp_view(&self) -> SVal {
        SVal::Type(*self)
    }

    fn to_lisp(self) -> (r: Value) {
        Value::Type(self)
    }
}

impl ToLisp for crate::value::Foreign {
    open spec fn lisp_view(&self) -> SVal {
        SVal::Foreign(*self)
    }

    fn to_lisp(self) -> (r: Value) {
        Value::Foreign(self)
    }
}

impl ToLisp for () {
    open spec fn lisp_view(&self) -> SVal {
        SVal::Nil
    }

    fn to_lisp(self) -> (r: Value) {
        Value::Nil
    }
}


/// A table after binding, in order, the entries from position `i` on.
pub open spec fn set_all(e: EnvV, es: Seq<(Seq<char>, SVal)>, i: int) -> EnvV
    decreases es.len() - i,
{
    if i < 0 || i >= es.len() {
        e
    } else {
        set_all(env_set(e, es[i].0, es[i].1), es, i + 1)
    }
}

/// The value of a built-in with the arity the standard library gives it.
pub open spec fn builtin_sval(b: Builtin) -> SVal {
    SVal::HardFunc(FuncV { func: b, args: builtin_arity(b) })
}

fn builtin_value(b: Builtin) -> (r: Value)
    ensures
        r@ == builtin_sval(b),
{
    Value::HardFunc(Func { func: b, args: arity_of(b) })
}

/// The global bindings: literal constants, type names and the standard library.
pub open spec fn std_entries() -> Seq<(Seq<char>, SVal)> {
    seq![
        ("true"@, SVal::Bool(true)),
        ("false"@, SVal::Bool(false)),
        ("nil"@, SVal::Nil),
        ("Number"@, SVal::Type(Type::Number)),
        ("Bool"@, SVal::Type(Type::Bool)),
        ("String"@, SVal::Type(Type::String)),
        ("Symbol"@, SVal::Type(Type::Symbol)),
        ("List"@, SVal::Type(Type::List)),
        ("Nil"@, SVal::Type(Type::Nil)),
        ("ForeignFunc"@, SVal::Type(Type::HardFunc)),
        ("Lambda"@, SVal::Type(Type::Lambda)),
        ("type"@, builtin_sval(Builtin::TypeOf)),
        ("eval"@, builtin_sval(Builtin::Eval)),
        ("id"@, builtin_sval(Builtin::Id)),
        ("quote"@, builtin_sval(Builtin::Quote)),
        ("if"@, builtin_sval(Builtin::If)),
        ("def"@, builtin_sval(Builtin::Define)),
        ("define"@, builtin_sval(Builtin::Define)),
        ("let"@, builtin_sval(Builtin::Let)),
        ("\\"@, builtin_sval(Builtin::Lambda)),
        ("lambda"@, builtin_sval(Builtin::Lambda)),
        ("seq"@, builtin_sval(Builtin::Sequence)),
        ("and"@, builtin_sval(Builtin::And)),
        ("or"@, builtin_sval(Builtin::Or)),
        ("not"@, builtin_sval(Builtin::Not)),
        ("+"@, builtin_sval(Builtin::Add)),
        ("-"@, builtin_sval(Builtin::Sub)),
        ("*"@, builtin_sval(Builtin::Mul)),
        ("/"@, builtin_sval(Builtin::Div)),
        ("="@, builtin_sval(Builtin::Eq)),
        (">"@, builtin_sval(Builtin::GreaterThan)),
        ("<"@, builtin_sval(Builtin::LessThan)),
        ("print"@, builtin_sval(Builtin::Print)),
        ("input"@, builtin_sval(Builtin::Input)),
        ("exit"@, builtin_sval(Builtin::Exit)),
        ("str"@, builtin_sval(Builtin::Str)),
        ("list"@, builtin_sval(Builtin::List)),
        ("range"@, builtin_sval(Builtin::Range)),
        ("len"@, builtin_sval(Builtin::Len)),
        ("empty?"@, builtin_sval(Builtin::IsEmpty)),
        ("cons"@, builtin_sval(Builtin::Cons)),
        ("join"@, builtin_sval(Builtin::Join)),
        ("head"@, builtin_sval(Builtin::Head)),
        ("tail"@, builtin_sval(Builtin::Tail)),
        ("map"@, builtin_sval(Builtin::MapOver)),
        ("fold"@, builtin_sval(Builtin::Fold)),
        ("filter"@, builtin_sval(Builtin::Filter))
    ]
}

/// The global scope that an interpreter starts with.
pub open spec fn std_table() -> EnvV {
    set_all(Seq::empty(), std_entries(), 0)
}

impl Env {
    /// The global scope: literal constants, type names and the standard library.
    pub fn std_lib() -> (r: Env)
        ensures
            r@ == std_table(),
            r.wf(),
    {
        let entries: Vec<(&str, Value)> = vec![
            ("true", Value::Bool(true)),
            ("false", Value::Bool(false)),
            ("nil", Value::Nil),
            ("Number", Value::Type(Type::Number)),
            ("Bool", Value::Type(Type::Bool)),
            ("String", Value::Type(Type::String)),
            ("Symbol", Value::Type(Type::Symbol)),
            ("List", Value::Type(Type::List)),
            ("Nil", Value::Type(Type::Nil)),
            ("ForeignFunc", Value::Type(Type::HardFunc)),
            ("Lambda", Value::Type(Type::Lambda)),
            ("type", builtin_value(Builtin::TypeOf)),
            ("eval", builtin_value(Builtin::Eval)),
            ("id", builtin_value(Builtin::Id)),
            ("quote", builtin_value(Builtin::Quote)),
            ("if", builtin_value(Builtin::If)),
            ("def", builtin_value(Builtin::Define)),
            ("define", builtin_value(Builtin::Define)),
            ("let", builtin_value(Builtin::Let)),
            ("\\", builtin_value(Builtin::Lambda)),
            ("lambda", builtin_value(Builtin::Lambda)),
            ("seq", builtin_value(Builtin::Sequence)),
            ("and", builtin_value(Builtin::And)),
            ("or", builtin_value(Builtin::Or)),
            ("not", builtin_value(Builtin::Not)),
            ("+", builtin_value(Builtin::Add)),
            ("-", builtin_value(Builtin::Sub)),
            ("*", builtin_value(Builtin::Mul)),
            ("/", builtin_value(Builtin::Div)),
            ("=", builtin_value(Builtin::Eq)),
            (">", builtin_value(Builtin::GreaterThan)),
            ("<", builtin_value(Builtin::LessThan)),
            ("print", builtin_value(Builtin::Print)),
            ("input", builtin_value(Builtin::Input)),
            ("exit", builtin_value(Builtin::Exit)),
            ("str", builtin_value(Builtin::Str)),
            ("list", builtin_value(Builtin::List)),
            ("range", builtin_value(Builtin::Range)),
            ("len", builtin_value(Builtin::Len)),
            ("empty?", builtin_value(Builtin::IsEmpty)),
            ("cons", builtin_value(Builtin::Cons)),
            ("join", builtin_value(Builtin::Join)),
            ("head", builtin_value(Builtin::Head)),
            ("tail", builtin_value(Builtin::Tail)),
            ("map", builtin_value(Builtin::MapOver)),
            ("fold", builtin_value(Builtin::Fold)),
            ("filter", builtin_value(Builtin::Filter)),
        ];
        let ghost es = entries@.map_values(|p: (&str, Value)| (p.0@, p.1@));
        assert(es =~= std_entries());
        let mut env = Env::new();
        let mut i: usize = 0;
        while i < entries.len()
            invariant
                i <= entries@.len(),
                env.wf(),
                es == entries@.map_values(|p: (&str, Value)| (p.0@, p.1@)),
                set_all(Seq::empty(), es, 0) == set_all(env@, es, i as int),
            decreases entries@.len() - i,
        {
            let v = entries[i].1.deep_copy();
            env.set(entries[i].0, v);
            i = i + 1;
        }
        env
    }
}
} // verus!
