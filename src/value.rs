//! The value model: one tagged union for parsed syntax and runtime data, the
//! type descriptors used for introspection, and the coercions to host types.
use crate::eval::{ErrV, FuncError};
use crate::number::{plain, plain_text, single_text, single_to_text};
use crate::parse::{atom_of, parse_atom};
use crate::text::{chars_of, decimal, push_chars, push_decimal, push_str, string_of};
use vstd::prelude::*;

verus! {

/// The built-in functions of the standard library. A built-in is identified
/// by this key, so two built-in values are equal exactly when their keys and
/// arity specifications are.
#[derive(Clone, Copy, Debug, PartialEq, Eq, Structural)]
pub enum Builtin {
    TypeOf,
    Eval,
    Id,
    Quote,
    If,
    Define,
    Let,
    Lambda,
    Sequence,
    And,
    Or,
    Not,
    Add,
    Sub,
    Mul,
    Div,
    Eq,
    GreaterThan,
    LessThan,
    Print,
    Input,
    Exit,
    Str,
    List,
    Range,
    Len,
    IsEmpty,
    Cons,
    Join,
    Head,
    Tail,
    MapOver,
    Fold,
    Filter,
}

impl Builtin {
    /// Special forms receive their argument forms unevaluated and decide
    /// themselves what to evaluate.
    pub open spec fn spec_is_special(self) -> bool {
        match self {
            Builtin::Quote | Builtin::If | Builtin::Define | Builtin::Let | Builtin::Lambda
            | Builtin::Sequence => true,
            _ => false,
        }
    }

    #[verifier::when_used_as_spec(spec_is_special)]
    pub fn is_special(self) -> (r: bool)
        ensures
            r == self.spec_is_special(),
    {
        match self {
            Builtin::Quote | Builtin::If | Builtin::Define | Builtin::Let | Builtin::Lambda
            | Builtin::Sequence => true,
            _ => false,
        }
    }
}

/// How many evaluated arguments a callable accepts.
#[derive(Clone, Debug, Eq)]
pub enum Args {
    /// Any number.
    Variant,
    /// Exactly this many.
    Fixed(usize),
    /// One of these counts.
    Multiple(Vec<usize>),
    /// This many or more.
    Atleast(usize),
}

/// The mathematical form of an arity specification.
pub enum ArgsV {
    Variant,
    Fixed(usize),
    Multiple(Seq<usize>),
    Atleast(usize),
}

impl View for Args {
    type V = ArgsV;

    open spec fn view(&self) -> ArgsV {
        match self {
            Args::Variant => ArgsV::Variant,
            Args::Fixed(n) => ArgsV::Fixed(*n),
            Args::Multiple(v) => ArgsV::Multiple(v@),
            Args::Atleast(n) => ArgsV::Atleast(*n),
        }
    }
}

/// Whether a count occurs in a list of counts.
pub open spec fn listed(ks: Seq<usize>, n: nat) -> bool {
    exists|i: int| 0 <= i < ks.len() && ks[i] == n
}

/// Whether `n` arguments meet an arity specification.
pub open spec fn arity_accepts(a: ArgsV, n: nat) -> bool {
    match a {
        ArgsV::Variant => true,
        ArgsV::Fixed(k) => n == k,
        ArgsV::Multiple(ks) => listed(ks, n),
        ArgsV::Atleast(k) => n >= k,
    }
}

impl Args {
    /// Checks a count of arguments against this specification.
    pub fn accepts(&self, n: usize) -> (r: bool)
        ensures
            r == arity_accepts(self@, n as nat),
    {
        match self {
            Args::Variant => true,
            Args::Fixed(k) => n == *k,
            Args::Multiple(ks) => {
                let mut i: usize = 0;
                while i < ks.len()
                    invariant
                        i <= ks@.len(),
                        self@ == ArgsV::Multiple(ks@),
                        forall|j: int| 0 <= j < i ==> ks@[j] != n,
                    decreases ks@.len() - i,
                {
                    if ks[i] == n {
                        assert(ks@[i as int] == n);
                        assert(listed(ks@, n as nat));
                        return true;
                    }
                    i = i + 1;
                }
                false
            },
            Args::Atleast(k) => n >= *k,
        }
    }

    /// A copy with the same view.
    pub fn copy(&self) -> (r: Args)
        ensures
            r@ == self@,
    {
        match self {
            Args::Variant => Args::Variant,
            Args::Fixed(n) => Args::Fixed(*n),
            Args::Multiple(v) => Args::Multiple(v.clone()),
            Args::Atleast(n) => Args::Atleast(*n),
        }
    }

    /// Equality of arity specifications.
    pub fn same(&self, o: &Args) -> (r: bool)
        ensures
            r == (self@ == o@),
    {
        match (self, o) {
            (Args::Variant, Args::Variant) => true,
            (Args::Fixed(a), Args::Fixed(b)) => *a == *b,
            (Args::Atleast(a), Args::Atleast(b)) => *a == *b,
            (Args::Multiple(a), Args::Multiple(b)) => {
                if a.len() != b.len() {
                    return false;
                }
                let mut i: usize = 0;
                while i < a.len()
                    invariant
                        i <= a@.len(),
                        a@.len() == b@.len(),
                        self@ == ArgsV::Multiple(a@),
                        o@ == ArgsV::Multiple(b@),
                        forall|j: int| 0 <= j < i ==> a@[j] == b@[j],
                    decreases a@.len() - i,
                {
                    if a[i] != b[i] {
                        assert(a@[i as int] != b@[i as int]);
                        return false;
                    }
                    i = i + 1;
                }
                assert(a@ =~= b@);
                true
            },
            _ => false,
        }
    }
}

/// A type descriptor, mirroring the variants of `Value`.
#[derive(Debug)]
pub enum Type {
    Number,
    Bool,
    Symbol,
    String,
    List,
    Nil,
    HardFunc,
    Lambda,
    Type,
    Quote(Box<Type>),
    /// A foreign value, by the identity that its host type declares.
    Foreign(u64),
}

impl Type {
    /// A copy equal to this descriptor.
    pub fn copy(&self) -> (r: Type)
        ensures
            r == *self,
        decreases self,
    {
        match self {
            Type::Number => Type::Number,
            Type::Bool => Type::Bool,
            Type::Symbol => Type::Symbol,
            Type::String => Type::String,
            Type::List => Type::List,
            Type::Nil => Type::Nil,
            Type::HardFunc => Type::HardFunc,
            Type::Lambda => Type::Lambda,
            Type::Type => Type::Type,
            Type::Quote(t) => Type::Quote(Box::new((**t).copy())),
            Type::Foreign(k) => Type::Foreign(*k),
        }
    }

    /// Equality of type descriptors.
    pub fn same(&self, o: &Type) -> (r: bool)
        ensures
            r == (*self == *o),
        decreases self,
    {
        match (self, o) {
            (Type::Number, Type::Number) => true,
            (Type::Bool, Type::Bool) => true,
            (Type::Symbol, Type::Symbol) => true,
            (Type::String, Type::String) => true,
            (Type::List, Type::List) => true,
            (Type::Nil, Type::Nil) => true,
            (Type::HardFunc, Type::HardFunc) => true,
            (Type::Lambda, Type::Lambda) => true,
            (Type::Type, Type::Type) => true,
            (Type::Quote(a), Type::Quote(b)) => (**a).same(&**b),
            (Type::Foreign(a), Type::Foreign(b)) => *a == *b,
            _ => false,
        }
    }
}

impl Clone for Type {
    fn clone(&self) -> (r: Type)
        ensures
            r == *self,
    {
        self.copy()
    }
}

impl PartialEq for Args {
    fn eq(&self, o: &Args) -> (r: bool) {
        self.same(o)
    }
}

impl vstd::std_specs::cmp::PartialEqSpecImpl for Args {
    open spec fn obeys_eq_spec() -> bool {
        true
    }

    open spec fn eq_spec(&self, o: &Args) -> bool {
        self@ == o@
    }
}

impl PartialEq for Type {
    fn eq(&self, o: &Type) -> (r: bool) {
        self.same(o)
    }
}

impl vstd::std_specs::cmp::PartialEqSpecImpl for Type {
    open spec fn obeys_eq_spec() -> bool {
        true
    }

    open spec fn eq_spec(&self, o: &Type) -> bool {
        *self == *o
    }
}

impl PartialEq for Func {
    /// Two built-in callables are equal when their keys and arities are.
    fn eq(&self, o: &Func) -> (r: bool) {
        self.func == o.func && self.args.same(&o.args)
    }
}

impl vstd::std_specs::cmp::PartialEqSpecImpl for Func {
    open spec fn obeys_eq_spec() -> bool {
        true
    }

    open spec fn eq_spec(&self, o: &Func) -> bool {
        self@ == o@
    }
}

/// A built-in callable: its registry key and its arity specification.
#[derive(Clone, Debug)]
pub struct Func {
    pub func: Builtin,
    pub args: Args,
}

/// The mathematical form of a built-in callable.
pub struct FuncV {
    pub func: Builtin,
    pub args: ArgsV,
}

impl View for Func {
    type V = FuncV;

    open spec fn view(&self) -> FuncV {
        FuncV { func: self.func, args: self.args@ }
    }
}

/// Makes a built-in callable value from a registry key and an arity.
pub fn func(key: Builtin, args: Args) -> (r: Func)
    ensures
        r@ == (FuncV { func: key, args: args@ }),
{
    Func { func: key, args }
}

/// A host object handed to the interpreter: the identity of its host type and
/// the host's handle for the object. The interpreter never looks inside it.
#[derive(Clone, Copy, Debug, PartialEq, Eq, Structural)]
pub struct Foreign {
    pub kind: u64,
    pub handle: u64,
}

/// A host type that can cross into the language declares a stable identity.
pub trait ForeignType {
    fn type_identity() -> u64;
}

/// A value of the language: syntax and data alike.
#[derive(Debug)]
pub enum Value {
    /// The bit pattern of a single-precision float.
    Number(u32),
    Bool(bool),
    Symbol(String),
    String(String),
    HardFunc(Func),
    Lambda { args: Vec<String>, body: Vec<Value> },
    List(Vec<Value>),
    Nil,
    Quote(Box<Value>),
    Type(Type),
    Foreign(Foreign),
}

/// The mathematical form of a value, with text as character sequences.
pub enum SVal {
    Number(u32),
    Bool(bool),
    Symbol(Seq<char>),
    Str(Seq<char>),
    HardFunc(FuncV),
    Lambda(Seq<Seq<char>>, Seq<SVal>),
    List(Seq<SVal>),
    Nil,
    Quote(Box<SVal>),
    Type(Type),
    Foreign(Foreign),
}

/// The views of a sequence of values.
pub open spec fn views(s: Seq<Value>) -> Seq<SVal>
    decreases s,
{
    if s.len() == 0 {
        Seq::empty()
    } else {
        views(s.drop_last()).push(value_view(s.last()))
    }
}

/// The character sequences of a sequence of strings.
pub open spec fn texts(s: Seq<String>) -> Seq<Seq<char>> {
    s.map_values(|x: String| x@)
}

/// The mathematical form of a value.
pub open spec fn value_view(v: Value) -> SVal
    decreases v,
{
    match v {
        Value::Number(n) => SVal::Number(n),
        Value::Bool(b) => SVal::Bool(b),
        Value::Symbol(s) => SVal::Symbol(s@),
        Value::String(s) => SVal::Str(s@),
        Value::HardFunc(f) => SVal::HardFunc(f@),
        Value::Lambda { args, body } => SVal::Lambda(texts(args@), views(body@)),
        Value::List(items) => SVal::List(views(items@)),
        Value::Nil => SVal::Nil,
        Value::Quote(b) => SVal::Quote(Box::new(value_view(*b))),
        Value::Type(t) => SVal::Type(t),
        Value::Foreign(f) => SVal::Foreign(f),
    }
}

impl View for Value {
    type V = SVal;

    open spec fn view(&self) -> SVal {
        value_view(*self)
    }
}


/// The views of a sequence agree with the view of each element.
pub proof fn lemma_views(s: Seq<Value>)
    ensures
        views(s).len() == s.len(),
        forall|i: int| 0 <= i < s.len() ==> #[trigger] views(s)[i] == s[i]@,
    decreases s.len(),
{
    if s.len() > 0 {
        lemma_views(s.drop_last());
        assert forall|i: int| 0 <= i < s.len() implies #[trigger] views(s)[i] == s[i]@ by {
            if i < s.len() - 1 {
                assert(s.drop_last()[i] == s[i]);
            }
        }
    }
}

/// Two sequences of values whose elements have equal views have equal views.
pub proof fn lemma_views_ext(s: Seq<Value>, t: Seq<Value>)
    requires
        s.len() == t.len(),
        forall|i: int| 0 <= i < s.len() ==> #[trigger] s[i]@ == t[i]@,
    ensures
        views(s) == views(t),
{
    lemma_views(s);
    lemma_views(t);
    assert(views(s) =~= views(t));
}

/// Copies a vector of values, keeping every view.
pub fn copy_values(v: &Vec<Value>) -> (r: Vec<Value>)
    ensures
        views(r@) == views(v@),
    decreases v,
{
    let mut r: Vec<Value> = Vec::new();
    let mut i: usize = 0;
    while i < v.len()
        invariant
            i <= v@.len(),
            r@.len() == i,
            forall|j: int| 0 <= j < i ==> #[trigger] r@[j]@ == v@[j]@,
        decreases v@.len() - i,
    {
        proof {
            vstd::std_specs::vec::axiom_vec_index_decreases(*v, i as int);
        }
        let c = v[i].deep_copy();
        r.push(c);
        i = i + 1;
    }
    proof {
        lemma_views_ext(r@, v@);
    }
    r
}

/// Copies a vector of strings, keeping their characters.
pub fn copy_strings(v: &Vec<String>) -> (r: Vec<String>)
    ensures
        texts(r@) == texts(v@),
{
    let mut r: Vec<String> = Vec::new();
    let mut i: usize = 0;
    while i < v.len()
        invariant
            i <= v@.len(),
            r@.len() == i,
            forall|j: int| 0 <= j < i ==> #[trigger] r@[j]@ == v@[j]@,
        decreases v@.len() - i,
    {
        r.push(v[i].clone());
        i = i + 1;
    }
    assert(texts(r@) =~= texts(v@));
    r
}

/// The type descriptor of a value.
pub open spec fn typ_of(v: SVal) -> Type
    decreases v,
{
    match v {
        SVal::Number(_) => Type::Number,
        SVal::Bool(_) => Type::Bool,
        SVal::Symbol(_) => Type::Symbol,
        SVal::Str(_) => Type::String,
        SVal::HardFunc(_) => Type::HardFunc,
        SVal::Lambda(_, _) => Type::Lambda,
        SVal::List(_) => Type::List,
        SVal::Nil => Type::Nil,
        SVal::Quote(b) => Type::Quote(Box::new(typ_of(*b))),
        SVal::Type(_) => Type::Type,
        SVal::Foreign(f) => Type::Foreign(f.kind),
    }
}

/// The host object behind a foreign value of the host type with identity `kind`.
pub open spec fn downcast(v: SVal, kind: u64) -> Result<Foreign, ErrV> {
    match v {
        SVal::Foreign(f) => if f.kind == kind {
            Ok(f)
        } else {
            Err(type_error(Type::Foreign(kind), v))
        },
        _ => Err(type_error(Type::Foreign(kind), v)),
    }
}

/// The error that a projection onto one type reports for a value.
pub open spec fn type_error(t: Type, v: SVal) -> ErrV {
    ErrV::InvalidType(seq![t], v)
}

impl Value {
    /// A copy with the same view.
    pub fn deep_copy(&self) -> (r: Value)
        ensures
            r@ == self@,
        decreases self,
    {
        match self {
            Value::Number(n) => Value::Number(*n),
            Value::Bool(b) => Value::Bool(*b),
            Value::Symbol(s) => Value::Symbol(s.clone()),
            Value::String(s) => Value::String(s.clone()),
            Value::HardFunc(f) => Value::HardFunc(Func { func: f.func, args: f.args.copy() }),
            Value::Lambda { args, body } => Value::Lambda {
                args: copy_strings(args),
                body: copy_values(body),
            },
            Value::List(items) => Value::List(copy_values(items)),
            Value::Nil => Value::Nil,
            Value::Quote(b) => Value::Quote(Box::new((**b).deep_copy())),
            Value::Type(t) => Value::Type(t.copy()),
            Value::Foreign(f) => Value::Foreign(*f),
        }
    }

    /// The type descriptor of this value.
    pub fn typ(&self) -> (r: Type)
        ensures
            r == typ_of(self@),
        decreases self,
    {
        match self {
            Value::Number(_) => Type::Number,
            Value::Bool(_) => Type::Bool,
            Value::Symbol(_) => Type::Symbol,
            Value::String(_) => Type::String,
            Value::HardFunc(_) => Type::HardFunc,
            Value::Lambda { .. } => Type::Lambda,
            Value::List(_) => Type::List,
            Value::Nil => Type::Nil,
            Value::Quote(b) => Type::Quote(Box::new((**b).typ())),
            Value::Type(_) => Type::Type,
            Value::Foreign(f) => Type::Foreign(f.kind),
        }
    }

    /// The name of a symbol; any other value is a type error.
    pub fn as_sym(self) -> (r: Result<String, FuncError>)
        ensures
            match self@ {
                SVal::Symbol(s) => r is Ok && r->Ok_0@ == s,
                _ => r is Err && r->Err_0@ == type_error(Type::Symbol, self@),
            },
    {
        match self {
            Value::Symbol(sym) => {
                assert(self@ == SVal::Symbol(sym@));
                Ok(sym)
            },
            _ => {
                let e = vec![Type::Symbol];
                assert(e@ == seq![Type::Symbol]);
                Err(FuncError::InvalidType { expected: e, got: self })
            },
        }
    }

    /// The elements of a list; any other value is a type error.
    pub fn as_list(self) -> (r: Result<Vec<Value>, FuncError>)
        ensures
            match self@ {
                SVal::List(items) => r is Ok && views(r->Ok_0@) == items,
                _ => r is Err && r->Err_0@ == type_error(Type::List, self@),
            },
    {
        match self {
            Value::List(list) => {
                assert(self@ == SVal::List(views(list@)));
                Ok(list)
            },
            _ => {
                let e = vec![Type::List];
                assert(e@ == seq![Type::List]);
                Err(FuncError::InvalidType { expected: e, got: self })
            },
        }
    }

    /// The host object behind a foreign value whose host type has the identity
    /// `kind`; any other value, or a foreign value of another host type, is a
    /// type error that names the requested identity.
    pub fn as_foreign(&self, kind: u64) -> (r: Result<Foreign, FuncError>)
        ensures
            match downcast(self@, kind) {
                Ok(f) => r == Ok::<Foreign, FuncError>(f),
                Err(e) => r is Err && r->Err_0@ == e,
            },
    {
        match self {
            Value::Foreign(f) => {
                assert(self@ == SVal::Foreign(*f));
                if f.kind == kind {
                    return Ok(*f);
                }
            },
            _ => {},
        }
        let e = vec![Type::Foreign(kind)];
        assert(e@ == seq![Type::Foreign(kind)]);
        Err(FuncError::InvalidType { expected: e, got: self.deep_copy() })
    }
}

impl Clone for Value {
    fn clone(&self) -> (r: Value)
        ensures
            r@ == self@,
    {
        self.deep_copy()
    }
}

/// How a character of a string is written inside a string literal.
pub open spec fn escape_char(c: char) -> Seq<char> {
    if c == '\n' {
        seq!['\\', 'n']
    } else if c == '\t' {
        seq!['\\', 't']
    } else if c == '\r' {
        seq!['\\', 'r']
    } else if c == '"' {
        seq!['\\', '"']
    } else if c == '\\' {
        seq!['\\', '\\']
    } else {
        seq![c]
    }
}

/// The body of a string literal for a string.
pub open spec fn escape(s: Seq<char>) -> Seq<char>
    decreases s.len(),
{
    if s.len() == 0 {
        Seq::empty()
    } else {
        escape(s.drop_last()) + escape_char(s.last())
    }
}

/// Items written one after another, separated by `sep`.
pub open spec fn joined(items: Seq<Seq<char>>, sep: Seq<char>) -> Seq<char>
    decreases items.len(),
{
    if items.len() == 0 {
        Seq::empty()
    } else if items.len() == 1 {
        items[0]
    } else {
        joined(items.drop_last(), sep) + sep + items.last()
    }
}

/// The written form of a type descriptor.
pub open spec fn show_type(t: Type) -> Seq<char>
    decreases t,
{
    match t {
        Type::Number => "Number"@,
        Type::Bool => "Bool"@,
        Type::Symbol => "Symbol"@,
        Type::String => "String"@,
        Type::List => "List"@,
        Type::Nil => "Nil"@,
        Type::HardFunc => "HardFunc"@,
        Type::Lambda => "Lambda"@,
        Type::Type => "Type"@,
        Type::Quote(b) => "Quote("@ + show_type(*b) + ")"@,
        Type::Foreign(k) => "Foreign("@ + decimal(k as nat) + ")"@,
    }
}

/// The decimal forms of a list of counts.
pub open spec fn count_texts(ks: Seq<usize>) -> Seq<Seq<char>> {
    ks.map_values(|k: usize| decimal(k as nat))
}

/// The written form of an arity specification.
pub open spec fn show_args(a: ArgsV) -> Seq<char> {
    match a {
        ArgsV::Variant => "Variant"@,
        ArgsV::Fixed(n) => "Fixed("@ + decimal(n as nat) + ")"@,
        ArgsV::Multiple(ks) => "Multiple(["@ + joined(count_texts(ks), ", "@) + "])"@,
        ArgsV::Atleast(n) => "Atleast("@ + decimal(n as nat) + ")"@,
    }
}

/// The written form of a number: the plain decimal text of the fewest
/// significant digits, from 1 to 8, that the reader reads back as the same
/// bit pattern, else that of 9 digits.
pub open spec fn number_text(b: u32) -> Seq<char> {
    number_text_from(b, 1)
}

/// The written form of a number, trying `p` significant digits and more.
pub open spec fn number_text_from(b: u32, p: nat) -> Seq<char>
    decreases 9 - p,
{
    let t = plain(single_text(b, p));
    if p >= 9 {
        t
    } else if atom_of(t) == Ok::<SVal, crate::parse::ParseError>(SVal::Number(b)) {
        t
    } else {
        number_text_from(b, p + 1)
    }
}

/// The written form of a number.
fn number_string(b: u32) -> (r: Vec<char>)
    ensures
        r@ == number_text(b),
{
    let mut p: usize = 1;
    while p < 9
        invariant
            1 <= p <= 9,
            number_text(b) == number_text_from(b, p as nat),
        decreases 9 - p,
    {
        let t = chars_of(single_to_text(b, p).as_str());
        let c = plain_text(&t);
        match parse_atom(string_of(&c)) {
            Ok(Value::Number(x)) => {
                if x == b {
                    return c;
                }
            },
            _ => {},
        }
        p = p + 1;
    }
    let t = chars_of(single_to_text(b, 9).as_str());
    plain_text(&t)
}

/// The written (debug) form of a value: the form the reader reads back for
/// numbers, strings, symbols and lists of them.
pub open spec fn show(v: SVal) -> Seq<char>
    decreases v, 1nat,
{
    match v {
        SVal::Number(n) => number_text(n),
        SVal::Bool(b) => if b { "true"@ } else { "false"@ },
        SVal::Symbol(s) => s,
        SVal::Str(s) => "\""@ + escape(s) + "\""@,
        SVal::HardFunc(f) => "HardFunc("@ + show_args(f.args) + ")"@,
        SVal::Lambda(ps, body) => "λ ("@ + joined(ps, " "@) + ") => "@ + show_items(body),
        SVal::List(items) => "("@ + show_items(items) + ")"@,
        SVal::Nil => "nil"@,
        SVal::Quote(b) => "'"@ + show(*b),
        SVal::Type(t) => show_type(t),
        SVal::Foreign(f) => "Foreign("@ + decimal(f.kind as nat) + ")"@,
    }
}

/// The written forms of values, separated by spaces.
pub open spec fn show_items(s: Seq<SVal>) -> Seq<char>
    decreases s, 0nat,
{
    if s.len() == 0 {
        Seq::empty()
    } else if s.len() == 1 {
        show(s[0])
    } else {
        show_items(s.drop_last()) + " "@ + show(s.last())
    }
}

fn write_escaped(out: &mut Vec<char>, s: &String)
    ensures
        final(out)@ == old(out)@ + escape(s@),
{
    let c = chars_of(s.as_str());
    let mut i: usize = 0;
    while i < c.len()
        invariant
            i <= c@.len(),
            c@ == s@,
            out@ == old(out)@ + escape(c@.subrange(0, i as int)),
        decreases c@.len() - i,
    {
        let ch = c[i];
        if ch == '\n' {
            out.push('\\');
            out.push('n');
        } else if ch == '\t' {
            out.push('\\');
            out.push('t');
        } else if ch == '\r' {
            out.push('\\');
            out.push('r');
        } else if ch == '"' {
            out.push('\\');
            out.push('"');
        } else if ch == '\\' {
            out.push('\\');
            out.push('\\');
        } else {
            out.push(ch);
        }
        assert(c@.subrange(0, i + 1).drop_last() =~= c@.subrange(0, i as int));
        i = i + 1;
    }
    assert(c@.subrange(0, c@.len() as int) =~= c@);
}

pub(crate) fn write_type_text(out: &mut Vec<char>, t: &Type)
    ensures
        final(out)@ == old(out)@ + show_type(*t),
    decreases t,
{
    match t {
        Type::Number => push_str(out, "Number"),
        Type::Bool => push_str(out, "Bool"),
        Type::Symbol => push_str(out, "Symbol"),
        Type::String => push_str(out, "String"),
        Type::List => push_str(out, "List"),
        Type::Nil => push_str(out, "Nil"),
        Type::HardFunc => push_str(out, "HardFunc"),
        Type::Lambda => push_str(out, "Lambda"),
        Type::Type => push_str(out, "Type"),
        Type::Quote(b) => {
            push_str(out, "Quote(");
            write_type_text(out, &**b);
            push_str(out, ")");
            assert(out@ =~= old(out)@ + show_type(*t));
        },
        Type::Foreign(k) => {
            push_str(out, "Foreign(");
            push_decimal(out, *k);
            push_str(out, ")");
            assert(out@ =~= old(out)@ + show_type(*t));
        },
    }
}

pub(crate) fn write_args_text(out: &mut Vec<char>, a: &Args)
    ensures
        final(out)@ == old(out)@ + show_args(a@),
{
    match a {
        Args::Variant => push_str(out, "Variant"),
        Args::Fixed(n) => {
            push_str(out, "Fixed(");
            push_decimal(out, *n as u64);
            push_str(out, ")");
            assert(out@ =~= old(out)@ + show_args(a@));
        },
        Args::Atleast(n) => {
            push_str(out, "Atleast(");
            push_decimal(out, *n as u64);
            push_str(out, ")");
            assert(out@ =~= old(out)@ + show_args(a@));
        },
        Args::Multiple(ks) => {
            push_str(out, "Multiple([");
            let ghost start = out@;
            let mut i: usize = 0;
            while i < ks.len()
                invariant
                    i <= ks@.len(),
                    out@ == start + joined(count_texts(ks@.subrange(0, i as int)), ", "@),
                decreases ks@.len() - i,
            {
                let ghost before = out@;
                if i > 0 {
                    push_str(out, ", ");
                }
                push_decimal(out, ks[i] as u64);
                proof {
                    let t = count_texts(ks@.subrange(0, i + 1));
                    assert(t.drop_last() =~= count_texts(ks@.subrange(0, i as int)));
                    assert(t.last() == decimal(ks@[i as int] as nat));
                    if i == 0 {
                        assert(t.len() == 1);
                    }
                }
                i = i + 1;
                assert(out@ =~= start + joined(count_texts(ks@.subrange(0, i as int)), ", "@));
            }
            assert(ks@.subrange(0, ks@.len() as int) =~= ks@);
            push_str(out, "])");
            assert(out@ =~= old(out)@ + show_args(a@));
        },
    }
}

/// Appends the written form of a value.
pub fn write_value(out: &mut Vec<char>, v: &Value)
    ensures
        final(out)@ == old(out)@ + show(v@),
    decreases v, 1nat,
{
    match v {
        Value::Number(n) => {
            let t = number_string(*n);
            push_chars(out, &t);
        },
        Value::Bool(b) => {
            if *b {
                push_str(out, "true");
            } else {
                push_str(out, "false");
            }
        },
        Value::Symbol(s) => push_str(out, s.as_str()),
        Value::String(s) => {
            push_str(out, "\"");
            write_escaped(out, s);
            push_str(out, "\"");
            assert(out@ =~= old(out)@ + show(v@));
        },
        Value::HardFunc(f) => {
            push_str(out, "HardFunc(");
            write_args_text(out, &f.args);
            push_str(out, ")");
            assert(out@ =~= old(out)@ + show(v@));
        },
        Value::Lambda { args, body } => {
            push_str(out, "λ (");
            let ghost start = out@;
            let mut i: usize = 0;
            while i < args.len()
                invariant
                    i <= args@.len(),
                    out@ == start + joined(texts(args@).subrange(0, i as int), " "@),
                decreases args@.len() - i,
            {
                if i > 0 {
                    push_str(out, " ");
                }
                push_str(out, args[i].as_str());
                proof {
                    let t = texts(args@).subrange(0, i + 1);
                    assert(t.drop_last() =~= texts(args@).subrange(0, i as int));
                }
                i = i + 1;
            }
            assert(texts(args@).subrange(0, args@.len() as int) =~= texts(args@));
            push_str(out, ") => ");
            write_items(out, body);
            assert(out@ =~= old(out)@ + show(v@));
        },
        Value::List(items) => {
            push_str(out, "(");
            write_items(out, items);
            push_str(out, ")");
            assert(out@ =~= old(out)@ + show(v@));
        },
        Value::Nil => push_str(out, "nil"),
        Value::Quote(b) => {
            push_str(out, "'");
            write_value(out, &**b);
            assert(out@ =~= old(out)@ + show(v@));
        },
        Value::Type(t) => write_type_text(out, t),
        Value::Foreign(f) => {
            push_str(out, "Foreign(");
            push_decimal(out, f.kind);
            push_str(out, ")");
            assert(out@ =~= old(out)@ + show(v@));
        },
    }
}

/// Appends the written forms of values, separated by spaces.
pub fn write_items(out: &mut Vec<char>, items: &Vec<Value>)
    ensures
        final(out)@ == old(out)@ + show_items(views(items@)),
    decreases items, 0nat,
{
    proof {
        lemma_views(items@);
    }
    let ghost start = out@;
    let mut i: usize = 0;
    while i < items.len()
        invariant
            i <= items@.len(),
            views(items@).len() == items@.len(),
            forall|j: int| 0 <= j < items@.len() ==> #[trigger] views(items@)[j] == items@[j]@,
            out@ == start + show_items(views(items@).subrange(0, i as int)),
        decreases items@.len() - i,
    {
        if i > 0 {
            push_str(out, " ");
        }
        proof {
            vstd::std_specs::vec::axiom_vec_index_decreases(*items, i as int);
        }
        write_value(out, &items[i]);
        proof {
            let t = views(items@).subrange(0, i + 1);
            assert(t.drop_last() =~= views(items@).subrange(0, i as int));
            assert(t.last() == items@[i as int]@);
            if i == 0 {
                assert(t.len() == 1);
            }
        }
        i = i + 1;
        assert(out@ =~= start + show_items(views(items@).subrange(0, i as int)));
    }
    assert(views(items@).subrange(0, items@.len() as int) =~= views(items@));
}

impl Value {
    /// The written (debug) form of this value.
    pub fn to_debug_string(&self) -> (r: String)
        ensures
            r@ == show(self@),
    {
        let mut out: Vec<char> = Vec::new();
        write_value(&mut out, self);
        assert(out@ =~= show(self@));
        string_of(&out)
    }
}

/// A host type that a value of the language converts to.
pub trait FromLisp: Sized {
    /// Whether a value converts.
    spec fn accepts(v: SVal) -> bool;

    /// The type that a value must have to convert.
    spec fn expected() -> Type;

    /// Whether `r` is what a value converts to.
    spec fn converts(v: SVal, r: Self) -> bool;

    /// Converts a value; a value of another type is a type error.
    fn from_lisp(v: Value) -> (r: Result<Self, FuncError>)
        ensures
            match r {
                Ok(x) => Self::accepts(v@) && Self::converts(v@, x),
                Err(e) => !Self::accepts(v@) && e@ == type_error(Self::expected(), v@),
            },
    ;
}

impl FromLisp for bool {
    open spec fn accepts(v: SVal) -> bool {
        v is Bool
    }

    open spec fn expected() -> Type {
        Type::Bool
    }

    open spec fn converts(v: SVal, r: bool) -> bool {
        v == SVal::Bool(r)
    }

    fn from_lisp(v: Value) -> (r: Result<bool, FuncError>) {
        match v {
            Value::Bool(b) => Ok(b),
            _ => Err(projection_error(Type::Bool, v)),
        }
    }
}

impl FromLisp for String {
    open spec fn accepts(v: SVal) -> bool {
        v is Str
    }

    open spec fn expected() -> Type {
        Type::String
    }

    open spec fn converts(v: SVal, r: String) -> bool {
        v == SVal::Str(r@)
    }

    fn from_lisp(v: Value) -> (r: Result<String, FuncError>) {
        match v {
            Value::String(s) => Ok(s),
            _ => Err(projection_error(Type::String, v)),
        }
    }
}

impl FromLisp for Type {
    open spec fn accepts(v: SVal) -> bool {
        v is Type
    }

    open spec fn expected() -> Type {
        Type::Type
    }

    open spec fn converts(v: SVal, r: Type) -> bool {
        v == SVal::Type(r)
    }

    fn from_lisp(v: Value) -> (r: Result<Type, FuncError>) {
        match v {
            Value::Type(t) => Ok(t),
            _ => Err(projection_error(Type::Type, v)),
        }
    }
}

impl FromLisp for Func {
    open spec fn accepts(v: SVal) -> bool {
        v is HardFunc
    }

    open spec fn expected() -> Type {
        Type::HardFunc
    }

    open spec fn converts(v: SVal, r: Func) -> bool {
        v == SVal::HardFunc(r@)
    }

    fn from_lisp(v: Value) -> (r: Result<Func, FuncError>) {
        match v {
            Value::HardFunc(f) => Ok(f),
            _ => Err(projection_error(Type::HardFunc, v)),
        }
    }
}

impl FromLisp for () {
    open spec fn accepts(v: SVal) -> bool {
        v is Nil
    }

    open spec fn expected() -> Type {
        Type::Nil
    }

    open spec fn converts(v: SVal, r: ()) -> bool {
        v is Nil
    }

    fn from_lisp(v: Value) -> (r: Result<(), FuncError>) {
        match v {
            Value::Nil => Ok(()),
            _ => Err(projection_error(Type::Nil, v)),
        }
    }
}

impl FromLisp for Value {
    open spec fn accepts(v: SVal) -> bool {
        true
    }

    open spec fn expected() -> Type {
        Type::Nil
    }

    open spec fn converts(v: SVal, r: Value) -> bool {
        v == r@
    }

    fn from_lisp(v: Value) -> (r: Result<Value, FuncError>) {
        Ok(v)
    }
}

impl Value {
    /// The bit pattern of a number; any other value is a type error.
    pub fn as_number(self) -> (r: Result<u32, FuncError>)
        ensures
            match self@ {
                SVal::Number(n) => r == Ok::<u32, FuncError>(n),
                _ => r is Err && r->Err_0@ == type_error(Type::Number, self@),
            },
    {
        match self {
            Value::Number(n) => Ok(n),
            _ => Err(projection_error(Type::Number, self)),
        }
    }
}

/// The type error of a projection onto one type.
fn projection_error(t: Type, v: Value) -> (r: FuncError)
    ensures
        r@ == type_error(t, v@),
{
    let e = vec![t];
    assert(e@ == seq![t]);
    FuncError::InvalidType { expected: e, got: v }
}
} // verus!
