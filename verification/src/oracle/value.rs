//! ORACLE values and environments.
//!
//! Lists are vectors rather than cons pairs. That costs improper lists, which
//! nothing here needs, and buys a representation with no cycles and O(1)
//! length. Scopes live in one arena and refer to their parent by index, so
//! closures can share them without reference counting.

use vstd::prelude::*;

verus! {

use crate::text::{chars_of, string_of, to_string, push_str, push_dec, dec_str};
use crate::fs::{lex_lt, path_less, same_text, lemma_lex_irreflexive, lemma_lex_total, lemma_lex_transitive, lemma_lex_asymmetric};

/// The procedures every interpreter starts with.
#[derive(Clone, Copy, Debug, PartialEq, Eq, Structural)]
pub enum Builtin {
    Add, Sub, Mul, Div, Mod, Min, Max, Abs,
    NumEq, NumNe, Lt, Gt, Le, Ge, Not,
    List, Car, Cdr, Cons, Append, Length, Nth, Reverse, Range, MapEach, Filter, Fold,
    Str, StrLen, Substr, Upper, Lower, Split, Chr, Ord,
    Print, Type, IsNil, IsList, IsInt, IsStr, IsFn, Env,
}

/// A procedure written in ORACLE.
pub struct Lambda {
    pub name: String,
    pub params: Vec<String>,
    /// Name after `&rest`, if the lambda takes a variable argument list.
    pub rest: Option<String>,
    pub body: Vec<Value>,
    /// The scope it closes over.
    pub env: usize,
}

pub enum Value {
    Nil,
    Bool(bool),
    Int(i64),
    Str(String),
    Symbol(String),
    List(Vec<Value>),
    Builtin(Builtin),
    Lambda(Box<Lambda>),
}

/// A value as plain mathematics.
pub enum Datum {
    Nil,
    Bool(bool),
    Int(int),
    Str(Seq<char>),
    Symbol(Seq<char>),
    List(Seq<Datum>),
    Builtin(Builtin),
    Lambda(Seq<char>, Seq<Seq<char>>, Option<Seq<char>>, Seq<Datum>, nat),
}

pub open spec fn datum_of(v: Value) -> Datum
    decreases v,
{
    match v {
        Value::Nil => Datum::Nil,
        Value::Bool(b) => Datum::Bool(b),
        Value::Int(i) => Datum::Int(i as int),
        Value::Str(s) => Datum::Str(s@),
        Value::Symbol(s) => Datum::Symbol(s@),
        Value::List(items) => Datum::List(data_of(items@)),
        Value::Builtin(b) => Datum::Builtin(b),
        Value::Lambda(l) => Datum::Lambda(
            l.name@,
            l.params@.map_values(|p: String| p@),
            match l.rest { Some(r) => Some(r@), None => None },
            data_of(l.body@),
            l.env as nat,
        ),
    }
}

pub open spec fn data_of(s: Seq<Value>) -> Seq<Datum>
    decreases s,
{
    if s.len() == 0 {
        Seq::empty()
    } else {
        data_of(s.drop_last()).push(datum_of(s.last()))
    }
}

impl Value {
    pub open spec fn view(&self) -> Datum {
        datum_of(*self)
    }
}

pub proof fn lemma_data_of(s: Seq<Value>)
    ensures
        data_of(s).len() == s.len(),
        forall|i: int| 0 <= i < s.len() ==> #[trigger] data_of(s)[i] == datum_of(s[i]),
    decreases s.len(),
{
    if s.len() > 0 {
        lemma_data_of(s.drop_last());
    }
}

pub proof fn lemma_data_of_push(s: Seq<Value>, v: Value)
    ensures
        data_of(s.push(v)) == data_of(s).push(datum_of(v)),
{
    assert(s.push(v).drop_last() =~= s);
}

impl Builtin {
    /// The name a builtin is bound to.
    pub open spec fn name_spec(self) -> Seq<char> {
        match self {
            Builtin::Add => "+"@,
            Builtin::Sub => "-"@,
            Builtin::Mul => "*"@,
            Builtin::Div => "/"@,
            Builtin::Mod => "mod"@,
            Builtin::Min => "min"@,
            Builtin::Max => "max"@,
            Builtin::Abs => "abs"@,
            Builtin::NumEq => "="@,
            Builtin::NumNe => "/="@,
            Builtin::Lt => "<"@,
            Builtin::Gt => ">"@,
            Builtin::Le => "<="@,
            Builtin::Ge => ">="@,
            Builtin::Not => "not"@,
            Builtin::List => "list"@,
            Builtin::Car => "car"@,
            Builtin::Cdr => "cdr"@,
            Builtin::Cons => "cons"@,
            Builtin::Append => "append"@,
            Builtin::Length => "length"@,
            Builtin::Nth => "nth"@,
            Builtin::Reverse => "reverse"@,
            Builtin::Range => "range"@,
            Builtin::MapEach => "map"@,
            Builtin::Filter => "filter"@,
            Builtin::Fold => "fold"@,
            Builtin::Str => "str"@,
            Builtin::StrLen => "str-len"@,
            Builtin::Substr => "substr"@,
            Builtin::Upper => "upper"@,
            Builtin::Lower => "lower"@,
            Builtin::Split => "split"@,
            Builtin::Chr => "chr"@,
            Builtin::Ord => "ord"@,
            Builtin::Print => "print"@,
            Builtin::Type => "type"@,
            Builtin::IsNil => "nil?"@,
            Builtin::IsList => "list?"@,
            Builtin::IsInt => "int?"@,
            Builtin::IsStr => "str?"@,
            Builtin::IsFn => "fn?"@,
            Builtin::Env => "env"@,
        }
    }

    pub fn name(&self) -> (r: &'static str)
        ensures
            r@ == self.name_spec(),
    {
        match self {
            Builtin::Add => "+",
            Builtin::Sub => "-",
            Builtin::Mul => "*",
            Builtin::Div => "/",
            Builtin::Mod => "mod",
            Builtin::Min => "min",
            Builtin::Max => "max",
            Builtin::Abs => "abs",
            Builtin::NumEq => "=",
            Builtin::NumNe => "/=",
            Builtin::Lt => "<",
            Builtin::Gt => ">",
            Builtin::Le => "<=",
            Builtin::Ge => ">=",
            Builtin::Not => "not",
            Builtin::List => "list",
            Builtin::Car => "car",
            Builtin::Cdr => "cdr",
            Builtin::Cons => "cons",
            Builtin::Append => "append",
            Builtin::Length => "length",
            Builtin::Nth => "nth",
            Builtin::Reverse => "reverse",
            Builtin::Range => "range",
            Builtin::MapEach => "map",
            Builtin::Filter => "filter",
            Builtin::Fold => "fold",
            Builtin::Str => "str",
            Builtin::StrLen => "str-len",
            Builtin::Substr => "substr",
            Builtin::Upper => "upper",
            Builtin::Lower => "lower",
            Builtin::Split => "split",
            Builtin::Chr => "chr",
            Builtin::Ord => "ord",
            Builtin::Print => "print",
            Builtin::Type => "type",
            Builtin::IsNil => "nil?",
            Builtin::IsList => "list?",
            Builtin::IsInt => "int?",
            Builtin::IsStr => "str?",
            Builtin::IsFn => "fn?",
            Builtin::Env => "env",
        }
    }
}

/// Every builtin, in the order they are installed.
pub open spec fn builtin_seq() -> Seq<Builtin> {
    seq![Builtin::Add, Builtin::Sub, Builtin::Mul, Builtin::Div, Builtin::Mod, Builtin::Min, Builtin::Max, Builtin::Abs, Builtin::NumEq, Builtin::NumNe, Builtin::Lt, Builtin::Gt, Builtin::Le, Builtin::Ge, Builtin::Not, Builtin::List, Builtin::Car, Builtin::Cdr, Builtin::Cons, Builtin::Append, Builtin::Length, Builtin::Nth, Builtin::Reverse, Builtin::Range, Builtin::MapEach, Builtin::Filter, Builtin::Fold, Builtin::Str, Builtin::StrLen, Builtin::Substr, Builtin::Upper, Builtin::Lower, Builtin::Split, Builtin::Chr, Builtin::Ord, Builtin::Print, Builtin::Type, Builtin::IsNil, Builtin::IsList, Builtin::IsInt, Builtin::IsStr, Builtin::IsFn, Builtin::Env]
}

/// Every builtin, in the order they are installed.
pub fn builtins() -> (r: Vec<Builtin>)
    ensures
        r@ == builtin_seq(),
{
    let mut r: Vec<Builtin> = Vec::new();
    r.push(Builtin::Add);
    r.push(Builtin::Sub);
    r.push(Builtin::Mul);
    r.push(Builtin::Div);
    r.push(Builtin::Mod);
    r.push(Builtin::Min);
    r.push(Builtin::Max);
    r.push(Builtin::Abs);
    r.push(Builtin::NumEq);
    r.push(Builtin::NumNe);
    r.push(Builtin::Lt);
    r.push(Builtin::Gt);
    r.push(Builtin::Le);
    r.push(Builtin::Ge);
    r.push(Builtin::Not);
    r.push(Builtin::List);
    r.push(Builtin::Car);
    r.push(Builtin::Cdr);
    r.push(Builtin::Cons);
    r.push(Builtin::Append);
    r.push(Builtin::Length);
    r.push(Builtin::Nth);
    r.push(Builtin::Reverse);
    r.push(Builtin::Range);
    r.push(Builtin::MapEach);
    r.push(Builtin::Filter);
    r.push(Builtin::Fold);
    r.push(Builtin::Str);
    r.push(Builtin::StrLen);
    r.push(Builtin::Substr);
    r.push(Builtin::Upper);
    r.push(Builtin::Lower);
    r.push(Builtin::Split);
    r.push(Builtin::Chr);
    r.push(Builtin::Ord);
    r.push(Builtin::Print);
    r.push(Builtin::Type);
    r.push(Builtin::IsNil);
    r.push(Builtin::IsList);
    r.push(Builtin::IsInt);
    r.push(Builtin::IsStr);
    r.push(Builtin::IsFn);
    r.push(Builtin::Env);
    proof {
        assert(r@ =~= seq![Builtin::Add, Builtin::Sub, Builtin::Mul, Builtin::Div, Builtin::Mod, Builtin::Min, Builtin::Max, Builtin::Abs, Builtin::NumEq, Builtin::NumNe, Builtin::Lt, Builtin::Gt, Builtin::Le, Builtin::Ge, Builtin::Not, Builtin::List, Builtin::Car, Builtin::Cdr, Builtin::Cons, Builtin::Append, Builtin::Length, Builtin::Nth, Builtin::Reverse, Builtin::Range, Builtin::MapEach, Builtin::Filter, Builtin::Fold, Builtin::Str, Builtin::StrLen, Builtin::Substr, Builtin::Upper, Builtin::Lower, Builtin::Split, Builtin::Chr, Builtin::Ord, Builtin::Print, Builtin::Type, Builtin::IsNil, Builtin::IsList, Builtin::IsInt, Builtin::IsStr, Builtin::IsFn, Builtin::Env]);
    }
    r
}

/// A copy of `v`, all the way down.
pub fn copy_value(v: &Value) -> (r: Value)
    ensures
        r.view() == v.view(),
    decreases v,
{
    match v {
        Value::Nil => Value::Nil,
        Value::Bool(b) => Value::Bool(*b),
        Value::Int(i) => Value::Int(*i),
        Value::Str(t) => Value::Str(t.clone()),
        Value::Symbol(t) => Value::Symbol(t.clone()),
        Value::List(items) => Value::List(copy_list(items)),
        Value::Builtin(b) => Value::Builtin(*b),
        Value::Lambda(l) => {
            let mut params: Vec<String> = Vec::new();
            let mut i: usize = 0;
            while i < l.params.len()
                invariant
                    i <= l.params@.len(),
                    params@.len() == i,
                    forall|j: int| 0 <= j < i ==> (#[trigger] params@[j])@ == l.params@[j]@,
                decreases l.params@.len() - i,
            {
                params.push(l.params[i].clone());
                i += 1;
            }
            let rest = match &l.rest {
                Some(r) => Some(r.clone()),
                None => None,
            };
            let body = copy_list(&l.body);
            let r = Value::Lambda(Box::new(Lambda { name: l.name.clone(), params, rest, body, env: l.env }));
            proof {
                assert(params@.map_values(|p: String| p@) =~= l.params@.map_values(|p: String| p@));
            }
            r
        },
    }
}

/// A copy of every value of `items`.
pub fn copy_list(items: &Vec<Value>) -> (r: Vec<Value>)
    ensures
        data_of(r@) == data_of(items@),
        r@.len() == items@.len(),
    decreases items,
{
    let mut out: Vec<Value> = Vec::new();
    let mut i: usize = 0;
    while i < items.len()
        invariant
            i <= items@.len(),
            data_of(out@) == data_of(items@.take(i as int)),
            out@.len() == i,
        decreases items@.len() - i,
    {
        proof {
            assert(decreases_to!(items => items@));
            assert(decreases_to!(items@ => items@[i as int]));
        }
        let c = copy_value(&items[i]);
        let ghost before = out@;
        out.push(c);
        proof {
            assert(out@.drop_last() =~= before);
            assert(items@.take(i as int + 1).drop_last() =~= items@.take(i as int));
        }
        i += 1;
    }
    proof {
        assert(items@.take(items@.len() as int) =~= items@);
    }
    out
}

/// The name of a value's type.
pub open spec fn type_text(d: Datum) -> Seq<char> {
    match d {
        Datum::Nil => "nil"@,
        Datum::Bool(_) => "bool"@,
        Datum::Int(_) => "int"@,
        Datum::Str(_) => "string"@,
        Datum::Symbol(_) => "symbol"@,
        Datum::List(_) => "list"@,
        Datum::Builtin(_) => "builtin"@,
        Datum::Lambda(..) => "lambda"@,
    }
}

/// Everything except `nil` and `false` is true, as in Scheme.
pub open spec fn truthy(d: Datum) -> bool {
    !(d is Nil || d == Datum::Bool(false))
}

/// A string literal body with `"`, `\` and newline escaped.
pub open spec fn escaped(s: Seq<char>) -> Seq<char>
    decreases s.len(),
{
    if s.len() == 0 {
        Seq::empty()
    } else {
        let c = s.last();
        escaped(s.drop_last()) + if c == '"' {
            "\\\""@
        } else if c == '\\' {
            "\\\\"@
        } else if c == '\n' {
            "\\n"@
        } else {
            seq![c]
        }
    }
}

/// How a value reads back in as source.
pub open spec fn render(d: Datum) -> Seq<char>
    decreases d,
{
    match d {
        Datum::Nil => "nil"@,
        Datum::Bool(b) => if b { "true"@ } else { "false"@ },
        Datum::Int(i) => if i < 0 { "-"@ + dec_str((-i) as nat) } else { dec_str(i as nat) },
        Datum::Str(s) => "\""@ + escaped(s) + "\""@,
        Datum::Symbol(s) => s,
        Datum::List(items) => "("@ + render_items(items) + ")"@,
        Datum::Builtin(b) => "#<builtin "@ + b.name_spec() + ">"@,
        Datum::Lambda(name, _, _, _, _) => "#<lambda "@ + name + ">"@,
    }
}

/// The items rendered and separated by single spaces.
pub open spec fn render_items(s: Seq<Datum>) -> Seq<char>
    decreases s,
{
    if s.len() == 0 {
        Seq::empty()
    } else if s.len() == 1 {
        render(s[0])
    } else {
        render_items(s.drop_last()) + " "@ + render(s.last())
    }
}

/// How the REPL echoes a value: strings bare, everything else as source.
pub open spec fn display_text(d: Datum) -> Seq<char> {
    match d {
        Datum::Str(s) => s,
        _ => render(d),
    }
}

impl Value {
    pub fn symbol(name: &str) -> (v: Value)
        ensures
            v.view() == Datum::Symbol(name@),
    {
        Value::Symbol(to_string(name))
    }

    pub fn string(text: &str) -> (v: Value)
        ensures
            v.view() == Datum::Str(text@),
    {
        Value::Str(to_string(text))
    }

    pub fn list(items: Vec<Value>) -> (v: Value)
        ensures
            v.view() == Datum::List(data_of(items@)),
    {
        Value::List(items)
    }

    /// Everything except `nil` and `false` is true, as in Scheme.
    pub fn is_truthy(&self) -> (r: bool)
        ensures
            r == truthy(self.view()),
    {
        match self {
            Value::Nil => false,
            Value::Bool(b) => *b,
            _ => true,
        }
    }

    pub fn kind_name(&self) -> (r: &'static str)
        ensures
            r@ == type_text(self.view()),
    {
        match self {
            Value::Nil => "nil",
            Value::Bool(_) => "bool",
            Value::Int(_) => "int",
            Value::Str(_) => "string",
            Value::Symbol(_) => "symbol",
            Value::List(_) => "list",
            Value::Builtin(_) => "builtin",
            Value::Lambda(_) => "lambda",
        }
    }

    pub fn as_int(&self) -> (r: Result<i64, String>)
        ensures
            match self.view() {
                Datum::Int(i) => r == Ok::<i64, String>(i as i64),
                d => r matches Err(e) && e@ == "expected an int, got "@ + type_text(d),
            },
    {
        match self {
            Value::Int(value) => Ok(*value),
            _ => {
                let mut out: Vec<char> = Vec::new();
                push_str(&mut out, "expected an int, got ");
                push_str(&mut out, self.kind_name());
                Err(string_of(out.as_slice()))
            },
        }
    }

    pub fn as_str(&self) -> (r: Result<&str, String>)
        ensures
            match self.view() {
                Datum::Str(t) => r matches Ok(s) && s@ == t,
                Datum::Symbol(t) => r matches Ok(s) && s@ == t,
                d => r matches Err(e) && e@ == "expected a string, got "@ + type_text(d),
            },
    {
        match self {
            Value::Str(text) => Ok(text.as_str()),
            Value::Symbol(name) => Ok(name.as_str()),
            _ => {
                let mut out: Vec<char> = Vec::new();
                push_str(&mut out, "expected a string, got ");
                push_str(&mut out, self.kind_name());
                Err(string_of(out.as_slice()))
            },
        }
    }

    pub fn as_list(&self) -> (r: Result<&[Value], String>)
        ensures
            match self.view() {
                Datum::List(items) => r matches Ok(s) && data_of(s@) == items,
                Datum::Nil => r matches Ok(s) && s@.len() == 0,
                d => r matches Err(e) && e@ == "expected a list, got "@ + type_text(d),
            },
    {
        match self {
            Value::List(items) => Ok(items.as_slice()),
            Value::Nil => Ok(&[]),
            _ => {
                let mut out: Vec<char> = Vec::new();
                push_str(&mut out, "expected a list, got ");
                push_str(&mut out, self.kind_name());
                Err(string_of(out.as_slice()))
            },
        }
    }

    /// How a value reads back in as source.
    pub fn write_form(&self) -> (r: String)
        ensures
            r@ == render(self.view()),
    {
        let mut out: Vec<char> = Vec::new();
        render_into(self, &mut out);
        proof {
            assert(out@ =~= render(self.view()));
        }
        string_of(out.as_slice())
    }

    /// How the REPL echoes a value.
    pub fn display(&self) -> (r: String)
        ensures
            r@ == display_text(self.view()),
    {
        match self {
            Value::Str(text) => text.clone(),
            _ => self.write_form(),
        }
    }
}

fn render_into(v: &Value, out: &mut Vec<char>)
    ensures
        final(out)@ == old(out)@ + render(v.view()),
    decreases v,
{
    match v {
        Value::Nil => push_str(out, "nil"),
        Value::Bool(b) => if *b { push_str(out, "true") } else { push_str(out, "false") },
        Value::Int(i) => {
            if *i < 0 {
                push_str(out, "-");
                let magnitude: u64 = if *i == i64::MIN { 0x8000_0000_0000_0000 } else { (-*i) as u64 };
                push_dec(out, magnitude);
            } else {
                push_dec(out, *i as u64);
            }
            proof {
                assert(final(out)@ =~= old(out)@ + render(v.view()));
            }
        },
        Value::Str(text) => {
            let ghost start = out@;
            out.push('"');
            let chars = chars_of(text.as_str());
            let mut k: usize = 0;
            proof {
                assert(chars@.take(0) =~= Seq::<char>::empty());
                assert(out@ =~= start + "\""@ + escaped(chars@.take(0))) by {
                    reveal_strlit("\"");
                }
            }
            while k < chars.len()
                invariant
                    k <= chars@.len(),
                    out@ == start + "\""@ + escaped(chars@.take(k as int)),
                decreases chars@.len() - k,
            {
                let c = chars[k];
                let ghost before = out@;
                if c == '"' {
                    push_str(out, "\\\"");
                } else if c == '\\' {
                    push_str(out, "\\\\");
                } else if c == '\n' {
                    push_str(out, "\\n");
                } else {
                    out.push(c);
                }
                proof {
                    assert(chars@.take(k as int + 1).drop_last() =~= chars@.take(k as int));
                    assert(chars@.take(k as int + 1).last() == c);
                }
                k += 1;
                proof {
                    assert(out@ =~= start + "\""@ + escaped(chars@.take(k as int)));
                }
            }
            push_str(out, "\"");
            proof {
                assert(chars@.take(chars@.len() as int) =~= text@);
                assert(final(out)@ =~= old(out)@ + render(v.view()));
            }
        },
        Value::Symbol(name) => push_str(out, name.as_str()),
        Value::List(items) => {
            push_str(out, "(");
            render_list(items, out);
            push_str(out, ")");
            proof {
                assert(final(out)@ =~= old(out)@ + render(v.view()));
            }
        },
        Value::Builtin(b) => {
            push_str(out, "#<builtin ");
            push_str(out, b.name());
            push_str(out, ">");
            proof {
                assert(final(out)@ =~= old(out)@ + render(v.view()));
            }
        },
        Value::Lambda(l) => {
            push_str(out, "#<lambda ");
            push_str(out, l.name.as_str());
            push_str(out, ">");
            proof {
                assert(final(out)@ =~= old(out)@ + render(v.view()));
            }
        },
    }
}

fn render_list(items: &Vec<Value>, out: &mut Vec<char>)
    ensures
        final(out)@ == old(out)@ + render_items(data_of(items@)),
    decreases items,
{
    let ghost start = out@;
    let mut k: usize = 0;
    proof {
        lemma_data_of(items@);
        assert(data_of(items@).take(0) =~= Seq::<Datum>::empty());
        assert(out@ =~= start + render_items(data_of(items@).take(0)));
    }
    while k < items.len()
        invariant
            k <= items@.len(),
            data_of(items@).len() == items@.len(),
            forall|j: int| 0 <= j < items@.len() ==> #[trigger] data_of(items@)[j] == datum_of(items@[j]),
            out@ == start + render_items(data_of(items@).take(k as int)),
        decreases items@.len() - k,
    {
        proof {
            assert(decreases_to!(items => items@));
            assert(decreases_to!(items@ => items@[k as int]));
        }
        if k > 0 {
            push_str(out, " ");
        }
        render_into(&items[k], out);
        proof {
            let d = data_of(items@);
            assert(d.take(k as int + 1).drop_last() =~= d.take(k as int));
            assert(d.take(k as int + 1).last() == datum_of(items@[k as int]));
            if k == 0 {
                assert(d.take(1) =~= seq![d[0]]);
            }
        }
        k += 1;
        proof {
            assert(out@ =~= start + render_items(data_of(items@).take(k as int)));
        }
    }
    proof {
        assert(data_of(items@).take(items@.len() as int) =~= data_of(items@));
    }
}

// --- environments ---

/// One scope: its bindings, in definition order, and its parent.
pub struct Scope {
    names: Vec<String>,
    values: Vec<Value>,
    parent: Option<usize>,
}

/// A scope as plain values.
pub struct ScopeView {
    pub keys: Seq<Seq<char>>,
    pub vals: Seq<Datum>,
    pub parent: Option<nat>,
}

impl ScopeView {
    /// Name to value.
    pub open spec fn bindings(self) -> Map<Seq<char>, Datum> {
        Map::new(
            |k: Seq<char>| exists|j: int| 0 <= j < self.keys.len() && self.keys[j] == k,
            |k: Seq<char>| self.vals[choose|j: int| 0 <= j < self.keys.len() && self.keys[j] == k],
        )
    }
}

/// The value `name` has seen from scope `i`: its own binding, or the
/// nearest enclosing one.
pub open spec fn lookup(sc: Seq<ScopeView>, i: int, name: Seq<char>) -> Option<Datum>
    decreases i,
{
    if i < 0 || i >= sc.len() {
        None
    } else if sc[i].bindings().dom().contains(name) {
        Some(sc[i].bindings()[name])
    } else {
        match sc[i].parent {
            Some(p) => if p < i { lookup(sc, p as int, name) } else { None },
            None => None,
        }
    }
}

/// The scope that binds `name` as seen from scope `i`.
pub open spec fn binder(sc: Seq<ScopeView>, i: int, name: Seq<char>) -> Option<int>
    decreases i,
{
    if i < 0 || i >= sc.len() {
        None
    } else if sc[i].bindings().dom().contains(name) {
        Some(i)
    } else {
        match sc[i].parent {
            Some(p) => if p < i { binder(sc, p as int, name) } else { None },
            None => None,
        }
    }
}

/// Every name visible from scope `i`.
pub open spec fn visible(sc: Seq<ScopeView>, i: int) -> Set<Seq<char>>
    decreases i,
{
    if i < 0 || i >= sc.len() {
        Set::empty()
    } else {
        let own = sc[i].bindings().dom();
        match sc[i].parent {
            Some(p) => if p < i { own.union(visible(sc, p as int)) } else { own },
            None => own,
        }
    }
}

/// The arena of every scope an interpreter has made; scope 0 is the root.
pub struct Env {
    scopes: Vec<Scope>,
}

pub closed spec fn scope_view(s: Scope) -> ScopeView {
    ScopeView {
        keys: s.names@.map_values(|n: String| n@),
        vals: data_of(s.values@),
        parent: match s.parent { Some(p) => Some(p as nat), None => None },
    }
}

impl Env {
    pub closed spec fn view(&self) -> Seq<ScopeView> {
        self.scopes@.map_values(|s: Scope| scope_view(s))
    }

    pub closed spec fn wf(&self) -> bool {
        &&& self.scopes@.len() >= 1
        &&& forall|i: int| 0 <= i < self.scopes@.len() ==> {
            let s = #[trigger] self.scopes@[i];
            &&& s.names@.len() == s.values@.len()
            &&& (s.parent matches Some(p) ==> p < i)
            &&& forall|a: int, b: int| 0 <= a < b < s.names@.len() ==> s.names@[a]@ != s.names@[b]@
        }
    }

    pub proof fn lemma_wf(&self)
        requires
            self.wf(),
        ensures
            self.view().len() >= 1,
            forall|i: int| 0 <= i < self.view().len() ==> ((#[trigger] self.view()[i]).parent matches Some(p) ==> p < i),
    {
    }

    /// How many scopes there are.
    pub fn len(&self) -> (n: usize)
        ensures
            n == self.view().len(),
    {
        self.scopes.len()
    }

    /// A fresh arena holding only the empty root scope.
    pub fn root() -> (e: Env)
        ensures
            e.wf(),
            e.view().len() == 1,
            e.view()[0].keys.len() == 0,
            e.view()[0].parent is None,
    {
        let mut scopes: Vec<Scope> = Vec::new();
        scopes.push(Scope { names: Vec::new(), values: Vec::new(), parent: None });
        let e = Env { scopes };
        proof {
            assert(e.view()[0].keys =~= Seq::<Seq<char>>::empty());
        }
        e
    }

    /// A new empty scope inside `parent`; returns its index.
    pub fn child(&mut self, parent: usize) -> (i: usize)
        requires
            old(self).wf(),
            parent < old(self).view().len(),
        ensures
            final(self).wf(),
            i == old(self).view().len(),
            final(self).view() == old(self).view().push(ScopeView {
                keys: Seq::empty(), vals: Seq::empty(), parent: Some(parent as nat) }),
    {
        let i = self.scopes.len();
        self.scopes.push(Scope { names: Vec::new(), values: Vec::new(), parent: Some(parent) });
        proof {
            let sv = ScopeView { keys: Seq::<Seq<char>>::empty(), vals: Seq::<Datum>::empty(), parent: Some(parent as nat) };
            assert(scope_view(self.scopes@[i as int]).keys =~= sv.keys);
            assert(scope_view(self.scopes@[i as int]).vals =~= sv.vals);
            assert(self.view() =~= old(self).view().push(sv));
        }
        i
    }
}

/// No name twice among `keys`.
pub open spec fn unique(keys: Seq<Seq<char>>) -> bool {
    forall|a: int, b: int| 0 <= a < b < keys.len() ==> keys[a] != keys[b]
}

proof fn lemma_bind_at(sv: ScopeView, j: int)
    requires
        unique(sv.keys),
        sv.keys.len() == sv.vals.len(),
        0 <= j < sv.keys.len(),
    ensures
        sv.bindings().dom().contains(sv.keys[j]),
        sv.bindings()[sv.keys[j]] == sv.vals[j],
{
    let k = sv.keys[j];
    assert(exists|i: int| 0 <= i < sv.keys.len() && sv.keys[i] == k);
    let c = choose|i: int| 0 <= i < sv.keys.len() && sv.keys[i] == k;
    if c != j {
        if c < j {
            assert(sv.keys[c] != sv.keys[j]);
        } else {
            assert(sv.keys[j] != sv.keys[c]);
        }
    }
}

proof fn lemma_bind_replace(sv: ScopeView, j: int, v: Datum)
    requires
        unique(sv.keys),
        sv.keys.len() == sv.vals.len(),
        0 <= j < sv.keys.len(),
    ensures
        (ScopeView { keys: sv.keys, vals: sv.vals.update(j, v), parent: sv.parent }).bindings()
            == sv.bindings().insert(sv.keys[j], v),
{
    let t = ScopeView { keys: sv.keys, vals: sv.vals.update(j, v), parent: sv.parent };
    let m = sv.bindings().insert(sv.keys[j], v);
    assert forall|k: Seq<char>| t.bindings().dom().contains(k) implies #[trigger] t.bindings()[k] == m[k] by {
        let i = choose|i: int| 0 <= i < t.keys.len() && t.keys[i] == k;
        lemma_bind_at(t, i);
        if i != j {
            lemma_bind_at(sv, i);
        }
    }
    assert forall|k: Seq<char>| #[trigger] t.bindings().dom().contains(k) <==> m.dom().contains(k) by {
        if k == sv.keys[j] {
            lemma_bind_at(t, j);
        }
    }
    assert(t.bindings() =~= m);
}

proof fn lemma_bind_push(sv: ScopeView, k: Seq<char>, v: Datum)
    requires
        unique(sv.keys),
        sv.keys.len() == sv.vals.len(),
        !sv.bindings().dom().contains(k),
    ensures
        unique(sv.keys.push(k)),
        (ScopeView { keys: sv.keys.push(k), vals: sv.vals.push(v), parent: sv.parent }).bindings()
            == sv.bindings().insert(k, v),
{
    let t = ScopeView { keys: sv.keys.push(k), vals: sv.vals.push(v), parent: sv.parent };
    assert forall|a: int, b: int| 0 <= a < b < t.keys.len() implies t.keys[a] != t.keys[b] by {
        if b == sv.keys.len() {
            assert(sv.keys[a] != k);
        }
    }
    let m = sv.bindings().insert(k, v);
    assert forall|q: Seq<char>| t.bindings().dom().contains(q) implies #[trigger] t.bindings()[q] == m[q] by {
        let i = choose|i: int| 0 <= i < t.keys.len() && t.keys[i] == q;
        lemma_bind_at(t, i);
        if i < sv.keys.len() {
            lemma_bind_at(sv, i);
        }
    }
    assert forall|q: Seq<char>| #[trigger] t.bindings().dom().contains(q) <==> m.dom().contains(q) by {
        if q == k {
            lemma_bind_at(t, sv.keys.len() as int);
        }
        if sv.bindings().dom().contains(q) {
            let i = choose|i: int| 0 <= i < sv.keys.len() && sv.keys[i] == q;
            assert(t.keys[i] == q);
        }
    }
    assert(t.bindings() =~= m);
}

/// Where `name` sits among `names`, if it is there.
fn position_of(names: &Vec<String>, name: &str) -> (r: Option<usize>)
    ensures
        match r {
            Some(j) => j < names@.len() && names@[j as int]@ == name@,
            None => forall|j: int| 0 <= j < names@.len() ==> (#[trigger] names@[j])@ != name@,
        },
{
    let mut j: usize = 0;
    while j < names.len()
        invariant
            j <= names@.len(),
            forall|i: int| 0 <= i < j ==> (#[trigger] names@[i])@ != name@,
        decreases names@.len() - j,
    {
        if same_text(names[j].as_str(), name) {
            return Some(j);
        }
        j += 1;
    }
    None
}

impl Env {
    proof fn lemma_scope(&self, i: int)
        requires
            self.wf(),
            0 <= i < self.scopes@.len(),
        ensures
            self.view()[i] == scope_view(self.scopes@[i]),
            unique(self.view()[i].keys),
            self.view()[i].keys.len() == self.view()[i].vals.len(),
            self.view()[i].keys.len() == self.scopes@[i].names@.len(),
            forall|j: int| 0 <= j < self.view()[i].keys.len() ==> #[trigger] self.view()[i].keys[j] == self.scopes@[i].names@[j]@,
            forall|j: int| 0 <= j < self.view()[i].keys.len() ==> #[trigger] self.view()[i].vals[j] == datum_of(self.scopes@[i].values@[j]),
    {
        lemma_data_of(self.scopes@[i].values@);
    }

    /// Bind `name` in scope `scope`, replacing any binding it already has there.
    pub fn define(&mut self, scope: usize, name: &str, value: Value)
        requires
            old(self).wf(),
            scope < old(self).view().len(),
        ensures
            final(self).wf(),
            final(self).view().len() == old(self).view().len(),
            forall|i: int| 0 <= i < old(self).view().len() && i != scope ==> #[trigger] final(self).view()[i] == old(self).view()[i],
            final(self).view()[scope as int].parent == old(self).view()[scope as int].parent,
            final(self).view()[scope as int].bindings() == old(self).view()[scope as int].bindings().insert(name@, value.view()),
    {
        proof {
            self.lemma_scope(scope as int);
        }
        let ghost old_view = self.view();
        let ghost sv = self.view()[scope as int];
        let mut sc = self.scopes.remove(scope);
        let ghost vd = value.view();
        match position_of(&sc.names, name) {
            Some(j) => {
                sc.values.set(j, value);
                proof {
                    lemma_bind_replace(sv, j as int, vd);
                    lemma_data_of(sc.values@);
                    assert(scope_view(sc).vals =~= sv.vals.update(j as int, vd));
                    assert(scope_view(sc).keys =~= sv.keys);
                }
            },
            None => {
                sc.names.push(to_string(name));
                sc.values.push(value);
                proof {
                    assert(!sv.bindings().dom().contains(name@)) by {
                        if sv.bindings().dom().contains(name@) {
                            let i = choose|i: int| 0 <= i < sv.keys.len() && sv.keys[i] == name@;
                            assert(sv.keys[i] == old(self).scopes@[scope as int].names@[i]@);
                        }
                    }
                    lemma_bind_push(sv, name@, vd);
                    lemma_data_of(sc.values@);
                    assert(scope_view(sc).vals =~= sv.vals.push(vd));
                    assert(scope_view(sc).keys =~= sv.keys.push(name@));
                }
            },
        }
        self.scopes.insert(scope, sc);
        proof {
            assert forall|i: int| 0 <= i < old_view.len() && i != scope implies #[trigger] self.view()[i] == old_view[i] by {
                assert(self.scopes@[i] == old(self).scopes@[i]);
            }
            assert forall|i: int| 0 <= i < self.scopes@.len() implies {
                let s = #[trigger] self.scopes@[i];
                &&& s.names@.len() == s.values@.len()
                &&& (s.parent matches Some(p) ==> p < i)
                &&& forall|a: int, b: int| 0 <= a < b < s.names@.len() ==> s.names@[a]@ != s.names@[b]@
            } by {
                if i == scope {
                    let kk = scope_view(sc).keys;
                    assert forall|a: int, b: int| 0 <= a < b < sc.names@.len() implies sc.names@[a]@ != sc.names@[b]@ by {
                        assert(kk[a] == sc.names@[a]@);
                        assert(kk[b] == sc.names@[b]@);
                    }
                } else {
                    assert(self.scopes@[i] == old(self).scopes@[i]);
                }
            }
        }
    }
}

impl Env {
    /// The value `name` has as seen from scope `scope`.
    pub fn get(&self, scope: usize, name: &str) -> (r: Option<Value>)
        requires
            self.wf(),
            scope < self.view().len(),
        ensures
            match lookup(self.view(), scope as int, name@) {
                Some(d) => r matches Some(v) && v.view() == d,
                None => r is None,
            },
    {
        let mut cur = scope;
        loop
            invariant
                self.wf(),
                cur < self.view().len(),
                lookup(self.view(), cur as int, name@) == lookup(self.view(), scope as int, name@),
            decreases cur,
        {
            proof {
                self.lemma_scope(cur as int);
            }
            let sc = &self.scopes[cur];
            match position_of(&sc.names, name) {
                Some(j) => {
                    proof {
                        lemma_bind_at(self.view()[cur as int], j as int);
                    }
                    return Some(copy_value(&sc.values[j]));
                },
                None => {
                    proof {
                        let sv = self.view()[cur as int];
                        if sv.bindings().dom().contains(name@) {
                            let i = choose|i: int| 0 <= i < sv.keys.len() && sv.keys[i] == name@;
                            assert(sv.keys[i] == sc.names@[i]@);
                        }
                    }
                    match sc.parent {
                        Some(p) => {
                            cur = p;
                        },
                        None => {
                            return None;
                        },
                    }
                },
            }
        }
    }

    /// Assign to the nearest existing binding of `name`, walking outwards.
    /// Fails if `name` is unbound, which is what distinguishes `set!` from
    /// `define`.
    pub fn set(&mut self, scope: usize, name: &str, value: Value) -> (r: bool)
        requires
            old(self).wf(),
            scope < old(self).view().len(),
        ensures
            final(self).wf(),
            final(self).view().len() == old(self).view().len(),
            match binder(old(self).view(), scope as int, name@) {
                Some(j) => {
                    &&& r
                    &&& forall|i: int| 0 <= i < old(self).view().len() && i != j ==> #[trigger] final(self).view()[i] == old(self).view()[i]
                    &&& final(self).view()[j].parent == old(self).view()[j].parent
                    &&& final(self).view()[j].bindings() == old(self).view()[j].bindings().insert(name@, value.view())
                },
                None => !r && final(self).view() == old(self).view(),
            },
    {
        let mut cur = scope;
        loop
            invariant
                self.wf(),
                *self == *old(self),
                cur < self.view().len(),
                binder(self.view(), cur as int, name@) == binder(self.view(), scope as int, name@),
            decreases cur,
        {
            proof {
                self.lemma_scope(cur as int);
            }
            let found = position_of(&self.scopes[cur].names, name);
            match found {
                Some(j) => {
                    proof {
                        lemma_bind_at(self.view()[cur as int], j as int);
                    }
                    self.define(cur, name, value);
                    return true;
                },
                None => {
                    proof {
                        let sv = self.view()[cur as int];
                        if sv.bindings().dom().contains(name@) {
                            let i = choose|i: int| 0 <= i < sv.keys.len() && sv.keys[i] == name@;
                            assert(sv.keys[i] == self.scopes@[cur as int].names@[i]@);
                        }
                    }
                    match self.scopes[cur].parent {
                        Some(p) => {
                            cur = p;
                        },
                        None => {
                            return false;
                        },
                    }
                },
            }
        }
    }
}

/// Strictly increasing by code point order.
pub open spec fn sorted_names(s: Seq<Seq<char>>) -> bool {
    forall|a: int, b: int| 0 <= a < b < s.len() ==> lex_lt(s[a], s[b])
}

proof fn lemma_push_to_set(s: Seq<Seq<char>>, x: Seq<char>)
    ensures
        s.push(x).to_set() == s.to_set().insert(x),
{
    let t = s.push(x);
    assert forall|y: Seq<char>| #[trigger] t.to_set().contains(y) <==> s.to_set().insert(x).contains(y) by {
        if t.to_set().contains(y) {
            let i = choose|i: int| 0 <= i < t.len() && t[i] == y;
            if i < s.len() {
                assert(s[i] == y);
            }
        }
        if s.to_set().contains(y) {
            let i = choose|i: int| 0 <= i < s.len() && s[i] == y;
            assert(t[i] == y);
        }
        if y == x {
            assert(t[s.len() as int] == y);
        }
    }
    assert(t.to_set() =~= s.to_set().insert(x));
}

/// Add `name` to the sorted list unless it is already there.
fn insert_name(list: &mut Vec<String>, name: &String)
    requires
        sorted_names(old(list)@.map_values(|n: String| n@)),
    ensures
        sorted_names(final(list)@.map_values(|n: String| n@)),
        final(list)@.map_values(|n: String| n@).to_set() == old(list)@.map_values(|n: String| n@).to_set().insert(name@),
{
    let ghost s = list@.map_values(|n: String| n@);
    let n = list.len();
    let mut p: usize = 0;
    while p < n && path_less(list[p].as_str(), name.as_str())
        invariant
            n == list@.len(),
            s == list@.map_values(|n: String| n@),
            p <= n,
            forall|i: int| 0 <= i < p ==> lex_lt(#[trigger] s[i], name@),
        decreases n - p,
    {
        p += 1;
    }
    if p < n && same_text(list[p].as_str(), name.as_str()) {
        proof {
            assert(s.to_set().insert(name@) =~= s.to_set()) by {
                assert(s[p as int] == name@);
            }
        }
        return;
    }
    proof {
        if p < n {
            assert(s[p as int] == list@[p as int]@);
            lemma_lex_total(name@, s[p as int]);
        }
    }
    list.insert(p, name.clone());
    proof {
        let t = list@.map_values(|n: String| n@);
        assert(t =~= s.insert(p as int, name@));
        assert forall|a: int, b: int| 0 <= a < b < t.len() implies lex_lt(t[a], t[b]) by {
            if a < p && b == p {
            } else if a < p && b > p {
                assert(t[b] == s[b - 1]);
                if b - 1 > p {
                    assert(lex_lt(s[p as int], s[b - 1]));
                    lemma_lex_transitive(name@, s[p as int], s[b - 1]);
                }
                lemma_lex_transitive(s[a], name@, s[b - 1]);
            } else if a == p {
                assert(t[b] == s[b - 1]);
                if b - 1 > p {
                    assert(lex_lt(s[p as int], s[b - 1]));
                    lemma_lex_transitive(name@, s[p as int], s[b - 1]);
                }
            } else if b < p {
                assert(t[a] == s[a] && t[b] == s[b]);
            } else {
                assert(t[a] == s[a - 1] && t[b] == s[b - 1]);
            }
        }
        assert forall|x: Seq<char>| #[trigger] t.to_set().contains(x) <==> s.to_set().insert(name@).contains(x) by {
            if t.to_set().contains(x) {
                let i = choose|i: int| 0 <= i < t.len() && t[i] == x;
                if i < p {
                    assert(s[i] == x);
                } else if i > p {
                    assert(s[i - 1] == x);
                }
            }
            if s.to_set().contains(x) {
                let i = choose|i: int| 0 <= i < s.len() && s[i] == x;
                if i < p {
                    assert(t[i] == x);
                } else {
                    assert(t[i + 1] == x);
                }
            }
            if x == name@ {
                assert(t[p as int] == x);
            }
        }
        assert(t.to_set() =~= s.to_set().insert(name@));
    }
}

impl Env {
    /// Every name visible from scope `scope`, sorted, each once.
    pub fn names(&self, scope: usize) -> (r: Vec<String>)
        requires
            self.wf(),
            scope < self.view().len(),
        ensures
            sorted_names(r@.map_values(|n: String| n@)),
            r@.map_values(|n: String| n@).to_set() == visible(self.view(), scope as int),
    {
        let mut out: Vec<String> = Vec::new();
        let mut cur = scope;
        proof {
            assert(out@.map_values(|n: String| n@).to_set() =~= Set::<Seq<char>>::empty());
        }
        loop
            invariant
                self.wf(),
                cur < self.view().len(),
                sorted_names(out@.map_values(|n: String| n@)),
                out@.map_values(|n: String| n@).to_set().union(visible(self.view(), cur as int)) == visible(self.view(), scope as int),
            decreases cur,
        {
            proof {
                self.lemma_scope(cur as int);
            }
            let sc = &self.scopes[cur];
            let ghost sv = self.view()[cur as int];
            let ghost before = out@.map_values(|n: String| n@).to_set();
            let mut j: usize = 0;
            while j < sc.names.len()
                invariant
                    self.wf(),
                    cur < self.view().len(),
                    sv == self.view()[cur as int],
                    *sc == self.scopes@[cur as int],
                    sv.keys.len() == sc.names@.len(),
                    forall|i: int| 0 <= i < sv.keys.len() ==> #[trigger] sv.keys[i] == sc.names@[i]@,
                    j <= sc.names@.len(),
                    sorted_names(out@.map_values(|n: String| n@)),
                    out@.map_values(|n: String| n@).to_set() == before.union(sv.keys.take(j as int).to_set()),
                decreases sc.names@.len() - j,
            {
                let ghost prev = out@.map_values(|n: String| n@).to_set();
                insert_name(&mut out, &sc.names[j]);
                proof {
                    lemma_push_to_set(sv.keys.take(j as int), sv.keys[j as int]);
                    assert(sv.keys.take(j as int + 1) =~= sv.keys.take(j as int).push(sv.keys[j as int]));
                    assert(out@.map_values(|n: String| n@).to_set() =~= before.union(sv.keys.take(j as int + 1).to_set()));
                }
                j += 1;
            }
            proof {
                assert(sv.keys.take(sv.keys.len() as int) =~= sv.keys);
                assert(sv.keys.to_set() =~= sv.bindings().dom()) by {
                    assert forall|x: Seq<char>| sv.keys.to_set().contains(x) <==> #[trigger] sv.bindings().dom().contains(x) by {
                        if sv.keys.to_set().contains(x) {
                            let i = choose|i: int| 0 <= i < sv.keys.len() && sv.keys[i] == x;
                            assert(sv.bindings().dom().contains(x));
                        }
                    }
                }
            }
            match sc.parent {
                Some(p) => {
                    proof {
                        assert(out@.map_values(|n: String| n@).to_set().union(visible(self.view(), p as int))
                            =~= before.union(visible(self.view(), cur as int)));
                    }
                    cur = p;
                },
                None => {
                    proof {
                        assert(out@.map_values(|n: String| n@).to_set() =~= before.union(visible(self.view(), cur as int)));
                        assert(out@.map_values(|n: String| n@).to_set() =~= visible(self.view(), scope as int));
                    }
                    return out;
                },
            }
        }
    }
}

} // verus!
