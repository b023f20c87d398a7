//! The evaluator.
//!
//! Tail position in `if`, `begin`, `cond`, `let` and lambda bodies is
//! handled by looping rather than recursing, so tail-recursive ORACLE code
//! runs in constant stack. Non-tail recursion stops at 256 frames, `while`
//! at five million iterations, and any chain of evaluation steps at ten
//! million, so no program can lock the desktop up.

use vstd::prelude::*;

verus! {

use crate::text::{dec_str, push_dec, push_str, string_of};
use crate::fs::same_text;
use super::value::{Builtin, Datum, Env, Lambda, Value, builtins, builtin_seq, copy_value, data_of, datum_of, lemma_data_of, lookup, truthy, type_text, visible};
use super::builtins::{apply_pure, is_pure, pure_spec, result_of, arity_error};
use super::reader::{Reader, read_all_forms};

/// Guard against runaway non-tail recursion.
pub const MAX_DEPTH: u32 = 256;
/// Guard against `(while true ...)` locking up the desktop thread.
pub const MAX_ITERATIONS: u64 = 5_000_000;
/// The longest chain of evaluation steps one top-level form may take.
pub const MAX_STEPS: u64 = 10_000_000;

pub struct Interpreter {
    /// Every scope; the global one is scope 0.
    pub global: Env,
    /// How many evaluations are under way, one inside the next.
    pub depth: u32,
    /// Everything the program printed during this evaluation.
    pub output: Vec<String>,
    /// Every evaluation finished so far, in the order it finished: the
    /// form, the scope, and what it gave.
    pub evaluated: Ghost<Seq<Evaluation>>,
}

/// One finished evaluation: the form, its scope, and its result.
pub type Evaluation = (Datum, nat, Result<Datum, Seq<char>>);

pub open spec fn texts(v: Seq<String>) -> Seq<Seq<char>> {
    v.map_values(|s: String| s@)
}

/// The complaint for a name with no binding.
pub open spec fn unbound_text(name: Seq<char>) -> Seq<char> {
    "unbound name: "@ + name
}

pub open spec fn too_deep_text() -> Seq<char> {
    "recursion too deep (ORACLE gave up at 256 frames)"@
}

pub open spec fn too_long_text() -> Seq<char> {
    "evaluation ran too long; ORACLE stopped it"@
}

/// Forms that evaluate to themselves: everything but symbols and
/// non-empty lists.
pub open spec fn self_evaluating(d: Datum) -> bool {
    match d {
        Datum::Symbol(_) => false,
        Datum::List(items) => items.len() == 0,
        _ => true,
    }
}

/// What evaluating `form` in `scope` gives, for the forms whose value does
/// not depend on running code: self-evaluating forms, names, and `quote`.
pub open spec fn simple_result(env: Seq<super::value::ScopeView>, form: Datum, scope: nat) -> Option<Result<Datum, Seq<char>>> {
    match form {
        Datum::Symbol(name) => Some(match lookup(env, scope as int, name) {
            Some(d) => Ok(d),
            None => Err(unbound_text(name)),
        }),
        Datum::List(items) => if items.len() == 0 {
            Some(Ok(form))
        } else if items[0] == Datum::Symbol("quote"@) {
            Some(if items.len() > 1 { Ok(items[1]) } else { Err("quote needs one argument"@) })
        } else {
            None
        },
        _ => Some(Ok(form)),
    }
}

/// The parameter names and the `&rest` name that a parameter list of
/// names declares, and whether `&rest` has been seen.
pub open spec fn params_of(decl: Seq<Datum>) -> (Seq<Seq<char>>, Option<Seq<char>>, bool)
    decreases decl.len(),
{
    if decl.len() == 0 {
        (Seq::empty(), None, false)
    } else {
        let before = params_of(decl.drop_last());
        let s = match decl.last() { Datum::Symbol(s) => s, _ => Seq::empty() };
        if s == "&rest"@ {
            (before.0, before.1, true)
        } else if before.2 {
            (before.0, Some(s), true)
        } else {
            (before.0.push(s), before.1, false)
        }
    }
}

/// Every item is a name.
pub open spec fn all_names(decl: Seq<Datum>) -> bool {
    forall|i: int| 0 <= i < decl.len() ==> decl[i] is Symbol
}

/// What `(lambda (params...) body...)` gives, with the parameter list at
/// `items[at]`, closing over `scope`.
pub open spec fn lambda_of(items: Seq<Datum>, at: int, scope: nat, name: Seq<char>) -> Result<Datum, Seq<char>> {
    if at >= items.len() {
        Err("lambda needs a parameter list"@)
    } else {
        let declared: Result<Seq<Datum>, Seq<char>> = match items[at] {
            Datum::List(d) => Ok(d),
            Datum::Nil => Ok(Seq::empty()),
            d => Err("expected a list, got "@ + type_text(d)),
        };
        match declared {
            Err(e) => Err(e),
            Ok(decl) => if all_names(decl) {
                Ok(Datum::Lambda(name, params_of(decl).0, params_of(decl).1, items.subrange(at + 1, items.len() as int), scope))
            } else {
                Err("lambda parameters must be names"@)
            },
        }
    }
}

/// `after` is `before` with `name` bound to `d` in scope `scope`, and
/// nothing else changed.
pub open spec fn bound_in(before: Seq<super::value::ScopeView>, after: Seq<super::value::ScopeView>, scope: int, name: Seq<char>, d: Datum) -> bool {
    &&& after.len() == before.len()
    &&& forall|i: int| 0 <= i < before.len() && i != scope ==> #[trigger] after[i] == before[i]
    &&& after[scope].parent == before[scope].parent
    &&& after[scope].bindings() == before[scope].bindings().insert(name, d)
}

/// What `(define (name params...) body...)` binds: the name and the
/// procedure, or the complaint.
pub open spec fn function_define(items: Seq<Datum>, scope: nat) -> Result<(Seq<char>, Datum), Seq<char>> {
    match items[1] {
        Datum::List(sig) => if sig.len() == 0 || !(sig[0] is Symbol) {
            Err("define: expected a function name"@)
        } else {
            let name = sig[0]->Symbol_0;
            match lambda_of(seq![Datum::Nil, Datum::List(sig.skip(1))] + items.skip(2), 1, scope, name) {
                Ok(d) => Ok((name, d)),
                Err(e) => Err(e),
            }
        },
        _ => Err(Seq::empty()),
    }
}

/// Each parameter bound to its argument, in order, a later binding of a
/// name replacing an earlier one.
pub open spec fn arguments_map(params: Seq<Seq<char>>, args: Seq<Datum>, k: int) -> Map<Seq<char>, Datum>
    decreases k,
{
    if k <= 0 { Map::empty() } else { arguments_map(params, args, k - 1).insert(params[k - 1], args[k - 1]) }
}

/// The bindings of a call's own scope: the parameters, then the `&rest`
/// name bound to the arguments left over.
pub open spec fn frame_of(params: Seq<Seq<char>>, rest: Option<Seq<char>>, args: Seq<Datum>) -> Map<Seq<char>, Datum> {
    let m = arguments_map(params, args, params.len() as int);
    match rest {
        Some(r) => m.insert(r, Datum::List(args.skip(params.len() as int))),
        None => m,
    }
}

/// The complaint for a call with the wrong number of arguments.
pub open spec fn arity_text(name: Seq<char>, expected: nat, got: nat) -> Seq<char> {
    name + " expects "@ + dec_str(expected) + " argument(s), got "@ + dec_str(got)
}

/// The items of a list argument; `nil` is the empty list.
pub open spec fn list_items(d: Datum) -> Seq<Datum> {
    match d {
        Datum::List(items) => items,
        _ => Seq::empty(),
    }
}

/// The form a chosen `cond` clause leaves to evaluate in tail position:
/// its one item, or its body wrapped in `begin`.
pub open spec fn cond_tail(clause: Datum, f: Datum) -> bool {
    clause matches Datum::List(c) && c.len() >= 1 && f == (if c.len() == 1 {
        c[0]
    } else {
        Datum::List(seq![Datum::Symbol("begin"@)] + c.skip(1))
    })
}

/// `(fold f init xs)` for a builtin `f` that computes on its arguments
/// alone: `f` applied to the running value and each item in turn, left to
/// right, the first complaint ending it.
pub open spec fn fold_pure(f: Builtin, init: Datum, xs: Seq<Datum>) -> Result<Datum, Seq<char>>
    decreases xs.len(),
{
    if xs.len() == 0 {
        Ok(init)
    } else {
        match fold_pure(f, init, xs.drop_last()) {
            Ok(acc) => pure_spec(f, seq![acc, xs.last()]),
            Err(e) => Err(e),
        }
    }
}

/// `(map f xs)` for such a builtin: `f` of each item, in order, the first
/// complaint ending it.
pub open spec fn map_pure(f: Builtin, xs: Seq<Datum>) -> Result<Seq<Datum>, Seq<char>>
    decreases xs.len(),
{
    if xs.len() == 0 {
        Ok(Seq::empty())
    } else {
        match map_pure(f, xs.drop_last()) {
            Ok(ys) => match pure_spec(f, seq![xs.last()]) {
                Ok(y) => Ok(ys.push(y)),
                Err(e) => Err(e),
            },
            Err(e) => Err(e),
        }
    }
}

/// `(filter f xs)` for such a builtin: the items for which `f` gives a
/// true value, in order, the first complaint ending it.
pub open spec fn filter_pure(f: Builtin, xs: Seq<Datum>) -> Result<Seq<Datum>, Seq<char>>
    decreases xs.len(),
{
    if xs.len() == 0 {
        Ok(Seq::empty())
    } else {
        match filter_pure(f, xs.drop_last()) {
            Ok(ys) => match pure_spec(f, seq![xs.last()]) {
                Ok(y) => Ok(if truthy(y) { ys.push(xs.last()) } else { ys }),
                Err(e) => Err(e),
            },
            Err(e) => Err(e),
        }
    }
}

/// What `map`, `filter` or `fold` gives over `list` when the procedure is
/// such a builtin `f`; `a` are the arguments.
pub open spec fn higher_pure(b: Builtin, f: Builtin, a: Seq<Datum>, list: Seq<Datum>) -> Result<Datum, Seq<char>> {
    if b == Builtin::Fold {
        fold_pure(f, a[1], list)
    } else if b == Builtin::MapEach {
        match map_pure(f, list) {
            Ok(ys) => Ok(Datum::List(ys)),
            Err(e) => Err(e),
        }
    } else {
        match filter_pure(f, list) {
            Ok(ys) => Ok(Datum::List(ys)),
            Err(e) => Err(e),
        }
    }
}

proof fn lemma_fold_err(f: Builtin, init: Datum, xs: Seq<Datum>, k: int, e: Seq<char>)
    requires
        0 <= k <= xs.len(),
        fold_pure(f, init, xs.take(k)) == Err::<Datum, Seq<char>>(e),
    ensures
        fold_pure(f, init, xs) == Err::<Datum, Seq<char>>(e),
    decreases xs.len() - k,
{
    if k == xs.len() {
        assert(xs.take(k) =~= xs);
    } else {
        assert(xs.take(k + 1).drop_last() =~= xs.take(k));
        lemma_fold_err(f, init, xs, k + 1, e);
    }
}

proof fn lemma_map_err(f: Builtin, xs: Seq<Datum>, k: int, e: Seq<char>)
    requires
        0 <= k <= xs.len(),
        map_pure(f, xs.take(k)) == Err::<Seq<Datum>, Seq<char>>(e),
    ensures
        map_pure(f, xs) == Err::<Seq<Datum>, Seq<char>>(e),
    decreases xs.len() - k,
{
    if k == xs.len() {
        assert(xs.take(k) =~= xs);
    } else {
        assert(xs.take(k + 1).drop_last() =~= xs.take(k));
        lemma_map_err(f, xs, k + 1, e);
    }
}

proof fn lemma_filter_err(f: Builtin, xs: Seq<Datum>, k: int, e: Seq<char>)
    requires
        0 <= k <= xs.len(),
        filter_pure(f, xs.take(k)) == Err::<Seq<Datum>, Seq<char>>(e),
    ensures
        filter_pure(f, xs) == Err::<Seq<Datum>, Seq<char>>(e),
    decreases xs.len() - k,
{
    if k == xs.len() {
        assert(xs.take(k) =~= xs);
    } else {
        assert(xs.take(k + 1).drop_last() =~= xs.take(k));
        lemma_filter_err(f, xs, k + 1, e);
    }
}

/// The clause is an `else` clause.
pub open spec fn is_else(clause: Datum) -> bool {
    clause matches Datum::List(c) && c.len() > 0 && c[0] == Datum::Symbol("else"@)
}

/// The test at the head of a clause.
pub open spec fn clause_test(clause: Datum) -> Datum {
    match clause {
        Datum::List(c) => if c.len() > 0 { c[0] } else { Datum::Nil },
        _ => Datum::Nil,
    }
}

/// Among the evaluations finished at or after `from`, `test` was evaluated
/// in `scope` and gave a value whose truth is `truth`.
pub open spec fn tested(log: Seq<Evaluation>, from: int, test: Datum, scope: nat, truth: bool) -> bool {
    exists|k: int| 0 <= from <= k < log.len() && #[trigger] log[k] == (test, scope, log[k].2)
        && (log[k].2 matches Ok(v) && truthy(v) == truth)
}

/// Clause `i` of a `cond` is the one it takes: every clause before it is
/// no `else` and its test came out false, and this one is an `else` or its
/// test came out true.
pub open spec fn cond_chose(items: Seq<Datum>, i: int, log: Seq<Evaluation>, from: int, scope: nat) -> bool {
    &&& 1 <= i < items.len()
    &&& (is_else(items[i]) || tested(log, from, clause_test(items[i]), scope, true))
    &&& forall|j: int| 1 <= j < i ==> !is_else(#[trigger] items[j]) && tested(log, from, clause_test(items[j]), scope, false)
}

proof fn lemma_tested_grows(a: Seq<Evaluation>, b: Seq<Evaluation>, from: int, test: Datum, scope: nat, truth: bool)
    requires
        a.is_prefix_of(b),
        tested(a, from, test, scope, truth),
    ensures
        tested(b, from, test, scope, truth),
{
    let k = choose|k: int| 0 <= from <= k < a.len() && #[trigger] a[k] == (test, scope, a[k].2)
        && (a[k].2 matches Ok(v) && truthy(v) == truth);
    assert(0 <= from <= k < a.len());
    assert(a.len() <= b.len());
    assert(a == b.subrange(0, a.len() as int));
    assert(b.subrange(0, a.len() as int)[k] == b[k]);
    assert(a[k] == b[k]);
    assert(b[k] == (test, scope, b[k].2));
}

fn text(s: &str) -> (e: String)
    ensures
        e@ == s@,
{
    crate::text::to_string(s)
}

fn prefixed(head: &str, tail: &str) -> (e: String)
    ensures
        e@ == head@ + tail@,
{
    let mut out: Vec<char> = Vec::new();
    push_str(&mut out, head);
    push_str(&mut out, tail);
    string_of(out.as_slice())
}

fn is_name(v: &Value, name: &str) -> (r: bool)
    ensures
        r == (v.view() == Datum::Symbol(name@)),
{
    match v {
        Value::Symbol(s) => same_text(s.as_str(), name),
        _ => false,
    }
}

/// A two-item list `(quote v)`.
fn quoted(v: Value) -> (q: Value)
    ensures
        q.view() == Datum::List(seq![Datum::Symbol("quote"@), v.view()]),
{
    let mut items: Vec<Value> = Vec::new();
    let s = Value::symbol("quote");
    let ghost e0 = items@;
    items.push(s);
    let ghost e1 = items@;
    items.push(v);
    proof {
        super::value::lemma_data_of_push(e0, s);
        super::value::lemma_data_of_push(e1, v);
        assert(data_of(e0) =~= Seq::<Datum>::empty());
        assert(data_of(items@) =~= seq![Datum::Symbol("quote"@), v.view()]);
    }
    Value::List(items)
}

/// A copy of `items[from..]`.
fn tail_copy(items: &[Value], from: usize) -> (r: Vec<Value>)
    requires
        from <= items@.len(),
    ensures
        data_of(r@) == data_of(items@).subrange(from as int, items@.len() as int),
{
    proof {
        lemma_data_of(items@);
    }
    let mut out: Vec<Value> = Vec::new();
    let mut i: usize = from;
    proof {
        assert(data_of(out@) =~= data_of(items@).subrange(from as int, from as int));
    }
    while i < items.len()
        invariant
            from <= i <= items@.len(),
            data_of(items@).len() == items@.len(),
            forall|j: int| 0 <= j < items@.len() ==> #[trigger] data_of(items@)[j] == datum_of(items@[j]),
            data_of(out@) == data_of(items@).subrange(from as int, i as int),
        decreases items@.len() - i,
    {
        let c = copy_value(&items[i]);
        let ghost before = out@;
        out.push(c);
        proof {
            super::value::lemma_data_of_push(before, c);
            assert(data_of(out@) =~= data_of(items@).subrange(from as int, i + 1));
        }
        i += 1;
    }
    out
}

impl Interpreter {
    pub open spec fn scopes(&self) -> nat {
        self.global.view().len()
    }

    /// The bindings every interpreter starts with: each builtin under its
    /// own name.
    pub open spec fn installed(&self) -> bool {
        let g = self.global.view()[0].bindings();
        &&& forall|j: int| 0 <= j < builtin_seq().len() ==> #[trigger] g.dom().contains(builtin_seq()[j].name_spec())
        &&& forall|k: Seq<char>| #[trigger] g.dom().contains(k) ==> (g[k] matches Datum::Builtin(b) && b.name_spec() == k)
    }

    /// A fresh interpreter: the global scope holds every builtin.
    pub fn new() -> (i: Interpreter)
        ensures
            i.global.wf(),
            i.scopes() == 1,
            i.global.view()[0].parent is None,
            i.installed(),
            i.output@.len() == 0,
            i.depth == 0,
    {
        let mut global = Env::root();
        let list = builtins();
        let mut k: usize = 0;
        proof {
            assert(global.view()[0].bindings() =~= Map::<Seq<char>, Datum>::empty());
        }
        while k < list.len()
            invariant
                k <= list@.len(),
                global.wf(),
                global.view().len() == 1,
                global.view()[0].parent is None,
                forall|j: int| 0 <= j < k ==> #[trigger] global.view()[0].bindings().dom().contains(list@[j].name_spec()),
                forall|key: Seq<char>| #[trigger] global.view()[0].bindings().dom().contains(key) ==>
                    (global.view()[0].bindings()[key] matches Datum::Builtin(b) && b.name_spec() == key),
            decreases list@.len() - k,
        {
            let b = list[k];
            global.define(0, b.name(), Value::Builtin(b));
            k += 1;
        }
        Interpreter { global, depth: 0, output: Vec::new(), evaluated: Ghost(Seq::empty()) }
    }

    /// Record a printed line.
    pub fn print(&mut self, line: String)
        ensures
            final(self).output@ == old(self).output@.push(line),
            final(self).global == old(self).global,
            final(self).depth == old(self).depth,
    {
        self.output.push(line);
    }

    /// Everything printed since the last call, oldest first; the record
    /// starts over.
    pub fn take_output(&mut self) -> (r: Vec<String>)
        ensures
            r@ == old(self).output@,
            final(self).output@.len() == 0,
            final(self).global == old(self).global,
            final(self).depth == old(self).depth,
    {
        let mut taken: Vec<String> = Vec::new();
        std::mem::swap(&mut taken, &mut self.output);
        taken
    }

    /// Read and evaluate every form in `source` in the global scope,
    /// returning the last value; nothing read gives `nil`. Text that does
    /// not read is refused with the reader's complaint, before anything runs.
    pub fn run(&mut self, source: &str) -> (r: Result<Value, String>)
        requires
            old(self).global.wf(),
            old(self).depth == 0,
        ensures
            final(self).global.wf(),
            final(self).depth == 0,
            final(self).scopes() >= old(self).scopes(),
            texts(old(self).output@).is_prefix_of(texts(final(self).output@)),
            old(self).evaluated@.is_prefix_of(final(self).evaluated@),
            read_all_forms(vstd::utf8::encode_utf8(source@), 0) matches Err(e) ==>
                (r matches Err(m) && m@ == e && final(self).global == old(self).global),
            read_all_forms(vstd::utf8::encode_utf8(source@), 0) == Ok::<Seq<Datum>, Seq<char>>(Seq::empty()) ==>
                (r matches Ok(v) && v.view() == Datum::Nil),
    {
        let mut reader = Reader::new(source);
        let forms = match reader.read_all() {
            Ok(forms) => forms,
            Err(e) => {
                return Err(e);
            },
        };
        proof {
            lemma_data_of(forms@);
        }
        let mut last = Value::Nil;
        let mut i: usize = 0;
        while i < forms.len()
            invariant
                i <= forms@.len(),
                self.global.wf(),
                self.depth == 0,
                self.scopes() >= old(self).scopes(),
                texts(old(self).output@).is_prefix_of(texts(self.output@)),
                old(self).evaluated@.is_prefix_of(self.evaluated@),
                forms@.len() == 0 ==> last.view() == Datum::Nil,
                read_all_forms(vstd::utf8::encode_utf8(source@), 0) == Ok::<Seq<Datum>, Seq<char>>(data_of(forms@)),
            decreases forms@.len() - i,
        {
            proof {
                self.global.lemma_wf();
            }
            last = match self.eval(&forms[i], 0, MAX_STEPS) {
                Ok(v) => v,
                Err(e) => {
                    return Err(e);
                },
            };
            i += 1;
        }
        Ok(last)
    }

    /// Evaluate `form` in `scope`, allowing at most `fuel` steps in any
    /// chain of evaluation.
    pub fn eval(&mut self, form: &Value, scope: usize, fuel: u64) -> (r: Result<Value, String>)
        requires
            old(self).global.wf(),
            scope < old(self).scopes(),
        ensures
            final(self).global.wf(),
            final(self).depth == old(self).depth,
            final(self).scopes() >= old(self).scopes(),
            texts(old(self).output@).is_prefix_of(texts(final(self).output@)),
            old(self).evaluated@.is_prefix_of(final(self).evaluated@),
            old(self).depth >= MAX_DEPTH ==> (r matches Err(e) && e@ == too_deep_text()),
            old(self).depth < MAX_DEPTH && fuel > 0 ==> (simple_result(old(self).global.view(), form.view(), scope as nat) matches Some(s) ==> result_of(r) == s),
            final(self).evaluated@.len() > old(self).evaluated@.len(),
            final(self).evaluated@.last() == (form.view(), scope as nat, result_of(r)),
        decreases fuel, 3u64,
    {
        let result = if self.depth >= MAX_DEPTH {
            Err(text("recursion too deep (ORACLE gave up at 256 frames)"))
        } else {
            self.depth = self.depth + 1;
            let r = self.eval_inner(form, scope, fuel);
            self.depth = self.depth - 1;
            r
        };
        let ghost before = self.evaluated@;
        self.evaluated = Ghost(self.evaluated@.push((form.view(), scope as nat, result_of(result))));
        proof {
            assert(before.is_prefix_of(self.evaluated@)) by {
                assert(self.evaluated@.subrange(0, before.len() as int) =~= before);
            }
        }
        result
    }

    fn eval_inner(&mut self, start: &Value, origin: usize, fuel: u64) -> (r: Result<Value, String>)
        requires
            old(self).global.wf(),
            origin < old(self).scopes(),
        ensures
            final(self).global.wf(),
            final(self).depth == old(self).depth,
            final(self).scopes() >= old(self).scopes(),
            texts(old(self).output@).is_prefix_of(texts(final(self).output@)),
            old(self).evaluated@.is_prefix_of(final(self).evaluated@),
            fuel > 0 ==> (simple_result(old(self).global.view(), start.view(), origin as nat) matches Some(s) ==> result_of(r) == s),
        decreases fuel, 2u64,
    {
        let mut form = copy_value(start);
        let mut scope = origin;
        let mut budget = fuel;
        let ghost first = true;
        loop
            invariant
                self.global.wf(),
                self.depth == old(self).depth,
                scope < self.scopes(),
                self.scopes() >= old(self).scopes(),
                budget <= fuel,
                texts(old(self).output@).is_prefix_of(texts(self.output@)),
                old(self).evaluated@.is_prefix_of(self.evaluated@),
                first ==> budget == fuel && form.view() == start.view() && scope == origin
                    && self.global == old(self).global,
                !first ==> simple_result(old(self).global.view(), start.view(), origin as nat) is None,
            decreases budget,
        {
            if budget == 0 {
                return Err(text("evaluation ran too long; ORACLE stopped it"));
            }
            budget = budget - 1;
            let step = self.step(&form, scope, budget);
            match step {
                Step::Done(r) => {
                    return r;
                },
                Step::Tail(next, next_scope) => {
                    form = next;
                    scope = next_scope;
                    proof {
                        first = false;
                    }
                },
            }
        }
    }
}

/// One step of evaluation: a finished result, or the form to evaluate
/// next in tail position, and its scope.
pub enum Step {
    Done(Result<Value, String>),
    Tail(Value, usize),
}

impl Interpreter {
    /// Evaluate `form` one step: everything but the form in tail position.
    fn step(&mut self, form: &Value, scope: usize, fuel: u64) -> (s: Step)
        requires
            old(self).global.wf(),
            scope < old(self).scopes(),
        ensures
            final(self).global.wf(),
            final(self).depth == old(self).depth,
            final(self).scopes() >= old(self).scopes(),
            texts(old(self).output@).is_prefix_of(texts(final(self).output@)),
            old(self).evaluated@.is_prefix_of(final(self).evaluated@),
            s matches Step::Tail(_, sc) ==> sc < final(self).scopes(),
            simple_result(old(self).global.view(), form.view(), scope as nat) matches Some(res) ==>
                (s matches Step::Done(r) && result_of(r) == res && final(self).global == old(self).global),
        decreases fuel, 1u64,
    {
        match form {
            Value::Symbol(name) => {
                match self.global.get(scope, name.as_str()) {
                    Some(v) => Step::Done(Ok(v)),
                    None => Step::Done(Err(prefixed("unbound name: ", name.as_str()))),
                }
            },
            Value::List(items) => {
                proof {
                    lemma_data_of(items@);
                }
                if items.len() == 0 {
                    return Step::Done(Ok(Value::List(Vec::new())));
                }
                let head = &items[0];
                if is_name(head, "quote") {
                    if items.len() > 1 {
                        return Step::Done(Ok(copy_value(&items[1])));
                    }
                    return Step::Done(Err(text("quote needs one argument")));
                }
                proof {
                    reveal_strlit("quote");
                }
                self.special_or_apply(items.as_slice(), scope, fuel)
            },
            _ => Step::Done(Ok(copy_value(form))),
        }
    }

    fn special_or_apply(&mut self, items: &[Value], scope: usize, fuel: u64) -> (s: Step)
        requires
            old(self).global.wf(),
            scope < old(self).scopes(),
            items@.len() >= 1,
        ensures
            final(self).global.wf(),
            final(self).depth == old(self).depth,
            final(self).scopes() >= old(self).scopes(),
            texts(old(self).output@).is_prefix_of(texts(final(self).output@)),
            old(self).evaluated@.is_prefix_of(final(self).evaluated@),
            s matches Step::Tail(_, sc) ==> sc < final(self).scopes(),
            fuel == 0 ==> (s matches Step::Done(Err(e)) && e@ == too_long_text())
                && final(self).global == old(self).global && final(self).output == old(self).output,
        decreases fuel, 0u64,
    {
        let head = &items[0];
        let n = items.len();
        if fuel == 0 {
            return Step::Done(Err(text("evaluation ran too long; ORACLE stopped it")));
        }
        let sub = fuel - 1;
        if is_name(head, "if") {
            if n < 3 {
                return Step::Done(Err(text("if needs a condition and a then-branch")));
            }
            let test = match self.eval(&items[1], scope, sub) {
                Ok(v) => v,
                Err(e) => {
                    return Step::Done(Err(e));
                },
            };
            if test.is_truthy() {
                return Step::Tail(copy_value(&items[2]), scope);
            } else if n > 3 {
                return Step::Tail(copy_value(&items[3]), scope);
            } else {
                return Step::Done(Ok(Value::Nil));
            }
        }
        if is_name(head, "define") {
            return Step::Done(self.eval_define(items, scope, sub));
        }
        if is_name(head, "set!") {
            if n != 3 {
                return Step::Done(Err(text("set! needs a name and a value")));
            }
            let name: String = match &items[1] {
                Value::Symbol(name) => name.clone(),
                other => {
                    return Step::Done(Err(prefixed("set! needs a name, got ", other.kind_name())));
                },
            };
            let value = match self.eval(&items[2], scope, sub) {
                Ok(v) => v,
                Err(e) => {
                    return Step::Done(Err(e));
                },
            };
            let kept = copy_value(&value);
            if self.global.set(scope, name.as_str(), value) {
                return Step::Done(Ok(kept));
            }
            let mut out: Vec<char> = Vec::new();
            push_str(&mut out, "set!: ");
            push_str(&mut out, name.as_str());
            push_str(&mut out, " is not bound");
            return Step::Done(Err(string_of(out.as_slice())));
        }
        if is_name(head, "lambda") || is_name(head, "fn") {
            return Step::Done(self.eval_lambda(items, 1, scope, "anonymous"));
        }
        if is_name(head, "let") {
            return self.eval_let(items, scope, sub);
        }
        if is_name(head, "begin") || is_name(head, "do") {
            if n == 1 {
                return Step::Done(Ok(Value::Nil));
            }
            let mut i: usize = 1;
            while i < n - 1
                invariant
                    1 <= i <= n - 1,
                    n == items@.len(),
                    self.global.wf(),
                    scope < self.scopes(),
                    self.depth == old(self).depth,
                    self.scopes() >= old(self).scopes(),
                    texts(old(self).output@).is_prefix_of(texts(self.output@)),
                    old(self).evaluated@.is_prefix_of(self.evaluated@),
                    sub + 1 == fuel,
                decreases n - i,
            {
                match self.eval(&items[i], scope, sub) {
                    Ok(_) => {},
                    Err(e) => {
                        return Step::Done(Err(e));
                    },
                }
                i += 1;
            }
            return Step::Tail(copy_value(&items[n - 1]), scope);
        }
        if is_name(head, "while") {
            return Step::Done(self.eval_while(items, scope, sub));
        }
        if is_name(head, "cond") {
            return self.eval_cond(items, scope, sub);
        }
        if is_name(head, "and") {
            let mut last = Value::Bool(true);
            let mut i: usize = 1;
            while i < n
                invariant
                    1 <= i <= n,
                    n == items@.len(),
                    self.global.wf(),
                    scope < self.scopes(),
                    self.depth == old(self).depth,
                    self.scopes() >= old(self).scopes(),
                    texts(old(self).output@).is_prefix_of(texts(self.output@)),
                    old(self).evaluated@.is_prefix_of(self.evaluated@),
                    sub + 1 == fuel,
                decreases n - i,
            {
                last = match self.eval(&items[i], scope, sub) {
                    Ok(v) => v,
                    Err(e) => {
                        return Step::Done(Err(e));
                    },
                };
                if !last.is_truthy() {
                    return Step::Done(Ok(last));
                }
                i += 1;
            }
            return Step::Done(Ok(last));
        }
        if is_name(head, "or") {
            let mut i: usize = 1;
            while i < n
                invariant
                    1 <= i <= n,
                    n == items@.len(),
                    self.global.wf(),
                    scope < self.scopes(),
                    self.depth == old(self).depth,
                    self.scopes() >= old(self).scopes(),
                    texts(old(self).output@).is_prefix_of(texts(self.output@)),
                    old(self).evaluated@.is_prefix_of(self.evaluated@),
                    sub + 1 == fuel,
                decreases n - i,
            {
                let value = match self.eval(&items[i], scope, sub) {
                    Ok(v) => v,
                    Err(e) => {
                        return Step::Done(Err(e));
                    },
                };
                if value.is_truthy() {
                    return Step::Done(Ok(value));
                }
                i += 1;
            }
            return Step::Done(Ok(Value::Bool(false)));
        }
        // Ordinary application.
        let callee = match self.eval(head, scope, sub) {
            Ok(v) => v,
            Err(e) => {
                return Step::Done(Err(e));
            },
        };
        let mut evaluated: Vec<Value> = Vec::new();
        let mut i: usize = 1;
        while i < n
            invariant
                1 <= i <= n,
                n == items@.len(),
                self.global.wf(),
                scope < self.scopes(),
                self.depth == old(self).depth,
                self.scopes() >= old(self).scopes(),
                texts(old(self).output@).is_prefix_of(texts(self.output@)),
                old(self).evaluated@.is_prefix_of(self.evaluated@),
                sub + 1 == fuel,
            decreases n - i,
        {
            let v = match self.eval(&items[i], scope, sub) {
                Ok(v) => v,
                Err(e) => {
                    return Step::Done(Err(e));
                },
            };
            evaluated.push(v);
            i += 1;
        }
        match callee {
            Value::Builtin(b) => Step::Done(self.apply_builtin(b, evaluated, sub)),
            Value::Lambda(lambda) => {
                let inner = match self.bind_arguments(&lambda, evaluated) {
                    Ok(s) => s,
                    Err(e) => {
                        return Step::Done(Err(e));
                    },
                };
                let m = lambda.body.len();
                if m == 0 {
                    return Step::Done(Ok(Value::Nil));
                }
                let mut k: usize = 0;
                while k < m - 1
                    invariant
                        k <= m - 1,
                        m == lambda.body@.len(),
                        self.global.wf(),
                        inner < self.scopes(),
                        self.depth == old(self).depth,
                        self.scopes() >= old(self).scopes(),
                        texts(old(self).output@).is_prefix_of(texts(self.output@)),
                        old(self).evaluated@.is_prefix_of(self.evaluated@),
                        sub + 1 == fuel,
                    decreases m - k,
                {
                    match self.eval(&lambda.body[k], inner, sub) {
                        Ok(_) => {},
                        Err(e) => {
                            return Step::Done(Err(e));
                        },
                    }
                    k += 1;
                }
                // Tail call: loop rather than recurse.
                Step::Tail(copy_value(&lambda.body[m - 1]), inner)
            },
            other => Step::Done(Err(prefixed(other.kind_name(), " is not callable"))),
        }
    }

    fn eval_define(&mut self, items: &[Value], scope: usize, fuel: u64) -> (r: Result<Value, String>)
        requires
            old(self).global.wf(),
            scope < old(self).scopes(),
            items@.len() >= 1,
        ensures
            final(self).global.wf(),
            final(self).depth == old(self).depth,
            final(self).scopes() >= old(self).scopes(),
            texts(old(self).output@).is_prefix_of(texts(final(self).output@)),
            old(self).evaluated@.is_prefix_of(final(self).evaluated@),
            items@.len() < 2 ==> result_of(r) == Err::<Datum, Seq<char>>("define needs a name"@)
                && final(self).global == old(self).global && final(self).output == old(self).output,
            items@.len() >= 2 ==> match items@[1].view() {
                Datum::Symbol(name) => {
                    &&& r is Ok ==> result_of(r) == Ok::<Datum, Seq<char>>(Datum::Symbol(name))
                        && final(self).global.view()[scope as int].bindings().dom().contains(name)
                    &&& items@.len() == 2 ==> result_of(r) == Ok::<Datum, Seq<char>>(Datum::Symbol(name))
                        && bound_in(old(self).global.view(), final(self).global.view(), scope as int, name, Datum::Nil)
                        && final(self).output == old(self).output
                },
                Datum::List(_) => final(self).output == old(self).output
                    && match function_define(data_of(items@), scope as nat) {
                        Ok((name, d)) => result_of(r) == Ok::<Datum, Seq<char>>(Datum::Symbol(name))
                            && bound_in(old(self).global.view(), final(self).global.view(), scope as int, name, d),
                        Err(e) => result_of(r) == Err::<Datum, Seq<char>>(e) && final(self).global == old(self).global,
                    },
                d => result_of(r) == Err::<Datum, Seq<char>>("define: cannot bind "@ + type_text(d))
                    && final(self).global == old(self).global && final(self).output == old(self).output,
            },
        decreases fuel, 4u64,
    {
        proof {
            lemma_data_of(items@);
        }
        if items.len() < 2 {
            return Err(text("define needs a name"));
        }
        match &items[1] {
            Value::Symbol(name) => {
                let value = if items.len() > 2 {
                    match self.eval(&items[2], scope, fuel) {
                        Ok(v) => v,
                        Err(e) => {
                            return Err(e);
                        },
                    }
                } else {
                    Value::Nil
                };
                let value = match value {
                    Value::Lambda(lambda) => {
                        let mut l = lambda;
                        l.name = name.clone();
                        Value::Lambda(l)
                    },
                    other => other,
                };
                self.global.define(scope, name.as_str(), value);
                Ok(Value::Symbol(name.clone()))
            },
            Value::List(signature) => {
                let ghost data = data_of(items@);
                let ghost sig = data_of(signature@);
                proof {
                    lemma_data_of(signature@);
                    assert(data[1] == Datum::List(sig));
                }
                if signature.len() == 0 {
                    return Err(text("define: expected a function name"));
                }
                let name: String = match &signature[0] {
                    Value::Symbol(name) => name.clone(),
                    _ => {
                        assert(!(sig[0] is Symbol));
                        return Err(text("define: expected a function name"));
                    },
                };
                let ghost want = seq![Datum::Nil, Datum::List(sig.skip(1))] + data.skip(2);
                let mut lambda_items: Vec<Value> = Vec::new();
                let ghost e0 = lambda_items@;
                let nil = Value::Nil;
                lambda_items.push(nil);
                let ghost e1 = lambda_items@;
                let params = Value::List(tail_copy(signature.as_slice(), 1));
                lambda_items.push(params);
                proof {
                    super::value::lemma_data_of_push(e0, nil);
                    super::value::lemma_data_of_push(e1, params);
                    assert(data_of(e0) =~= Seq::<Datum>::empty());
                    assert(sig.subrange(1, sig.len() as int) =~= sig.skip(1));
                    assert(data_of(lambda_items@) =~= want.take(2));
                }
                let mut i: usize = 2;
                while i < items.len()
                    invariant
                        2 <= i <= items@.len(),
                        data == data_of(items@),
                        data.len() == items@.len(),
                        forall|j: int| 0 <= j < items@.len() ==> #[trigger] data[j] == items@[j].view(),
                        want == seq![Datum::Nil, Datum::List(sig.skip(1))] + data.skip(2),
                        lambda_items@.len() == i,
                        data_of(lambda_items@) == want.take(i as int),
                    decreases items@.len() - i,
                {
                    let ghost b = lambda_items@;
                    let c = copy_value(&items[i]);
                    lambda_items.push(c);
                    proof {
                        super::value::lemma_data_of_push(b, c);
                        assert(want.take(i as int + 1) =~= want.take(i as int).push(data[i as int]));
                    }
                    i += 1;
                }
                proof {
                    assert(want.take(i as int) =~= want);
                    assert(sig[0] == Datum::Symbol(name@));
                }
                let value = match self.eval_lambda(lambda_items.as_slice(), 1, scope, name.as_str()) {
                    Ok(v) => v,
                    Err(e) => {
                        return Err(e);
                    },
                };
                self.global.define(scope, name.as_str(), value);
                Ok(Value::Symbol(name))
            },
            other => Err(prefixed("define: cannot bind ", other.kind_name())),
        }
    }

    /// `(lambda (params...) body...)`, with the parameter list at
    /// `items[at]`.
    fn eval_lambda(&self, items: &[Value], at: usize, scope: usize, name: &str) -> (r: Result<Value, String>)
        requires
            at <= items@.len(),
        ensures
            result_of(r) == lambda_of(data_of(items@), at as int, scope as nat, name@),
    {
        proof {
            lemma_data_of(items@);
        }
        if at >= items.len() {
            return Err(text("lambda needs a parameter list"));
        }
        let declared = match items[at].as_list() {
            Ok(d) => d,
            Err(e) => {
                return Err(e);
            },
        };
        let ghost decl = data_of(declared@);
        proof {
            lemma_data_of(declared@);
            assert(data_of(items@)[at as int] == items@[at as int].view());
            if items@[at as int].view() is Nil {
                assert(decl =~= Seq::<Datum>::empty());
            }
        }
        let ghost expected = lambda_of(data_of(items@), at as int, scope as nat, name@);
        let mut params: Vec<String> = Vec::new();
        let mut rest: Option<String> = None;
        let mut collecting_rest = false;
        let mut i: usize = 0;
        while i < declared.len()
            invariant
                i <= declared@.len() == decl.len(),
                decl == data_of(declared@),
                expected == lambda_of(data_of(items@), at as int, scope as nat, name@),
                !all_names(decl) ==> expected == Err::<Datum, Seq<char>>("lambda parameters must be names"@),
                forall|j: int| 0 <= j < declared@.len() ==> #[trigger] decl[j] == declared@[j].view(),
                all_names(decl.take(i as int)),
                params_of(decl.take(i as int)) == (params@.map_values(|p: String| p@),
                    match rest { Some(r) => Some(r@), None => None }, collecting_rest),
            decreases declared@.len() - i,
        {
            let ghost before = params@;
            let symbol: &String = match &declared[i] {
                Value::Symbol(s) => s,
                _ => {
                    proof {
                        assert(!(decl[i as int] is Symbol));
                        assert(!all_names(decl));
                    }
                    return Err(text("lambda parameters must be names"));
                },
            };
            proof {
                assert(decl.take(i as int + 1).drop_last() =~= decl.take(i as int));
                assert(decl.take(i as int + 1).last() == Datum::Symbol(symbol@));
            }
            if same_text(symbol.as_str(), "&rest") {
                collecting_rest = true;
            } else if collecting_rest {
                rest = Some(symbol.clone());
            } else {
                params.push(symbol.clone());
                proof {
                    assert(params@.map_values(|p: String| p@) =~= before.map_values(|p: String| p@).push(symbol@));
                }
            }
            i += 1;
        }
        proof {
            assert(decl.take(i as int) =~= decl);
        }
        let body = tail_copy(items, at + 1);
        Ok(Value::Lambda(Box::new(Lambda { name: text(name), params, rest, body, env: scope })))
    }

    /// `(let ((name value)...) body...)`: the scope it makes, and the last
    /// body form to evaluate there.
    fn eval_let(&mut self, items: &[Value], scope: usize, fuel: u64) -> (s: Step)
        requires
            old(self).global.wf(),
            scope < old(self).scopes(),
            items@.len() >= 1,
        ensures
            final(self).global.wf(),
            final(self).depth == old(self).depth,
            final(self).scopes() >= old(self).scopes(),
            texts(old(self).output@).is_prefix_of(texts(final(self).output@)),
            old(self).evaluated@.is_prefix_of(final(self).evaluated@),
            s matches Step::Tail(_, sc) ==> sc < final(self).scopes(),
            items@.len() < 2 ==> (s matches Step::Done(Err(e)) && e@ == "let needs a binding list"@)
                && final(self).global == old(self).global && final(self).output == old(self).output,
            s matches Step::Done(Ok(v)) ==> v.view() == Datum::Nil && items@.len() == 2,
            s matches Step::Tail(f, sc) ==> items@.len() >= 3 && f.view() == items@[items@.len() - 1].view()
                && sc == old(self).scopes(),
        decreases fuel, 4u64,
    {
        let n = items.len();
        if n < 2 {
            return Step::Done(Err(text("let needs a binding list")));
        }
        let inner = self.global.child(scope);
        let ghost fresh = inner;
        let bindings = match items[1].as_list() {
            Ok(b) => b,
            Err(e) => {
                return Step::Done(Err(e));
            },
        };
        let mut i: usize = 0;
        while i < bindings.len()
            invariant
                i <= bindings@.len(),
                n == items@.len(),
                n >= 2,
                self.global.wf(),
                inner < self.scopes(),
                inner == fresh,
                fresh == old(self).scopes(),
                self.depth == old(self).depth,
                self.scopes() >= old(self).scopes(),
                texts(old(self).output@).is_prefix_of(texts(self.output@)),
                old(self).evaluated@.is_prefix_of(self.evaluated@),
            decreases bindings@.len() - i,
        {
            let pair = match bindings[i].as_list() {
                Ok(p) => p,
                Err(e) => {
                    return Step::Done(Err(e));
                },
            };
            let name: &String = if pair.len() > 0 {
                match &pair[0] {
                    Value::Symbol(name) => name,
                    _ => {
                        return Step::Done(Err(text("let bindings look like (name value)")));
                    },
                }
            } else {
                return Step::Done(Err(text("let bindings look like (name value)")));
            };
            let value = if pair.len() > 1 {
                match self.eval(&pair[1], inner, fuel) {
                    Ok(v) => v,
                    Err(e) => {
                        return Step::Done(Err(e));
                    },
                }
            } else {
                Value::Nil
            };
            self.global.define(inner, name.as_str(), value);
            i += 1;
        }
        if n < 3 {
            return Step::Done(Ok(Value::Nil));
        }
        let mut k: usize = 2;
        while k < n - 1
            invariant
                2 <= k <= n - 1,
                n == items@.len(),
                self.global.wf(),
                inner < self.scopes(),
                inner == fresh,
                fresh == old(self).scopes(),
                self.depth == old(self).depth,
                self.scopes() >= old(self).scopes(),
                texts(old(self).output@).is_prefix_of(texts(self.output@)),
                old(self).evaluated@.is_prefix_of(self.evaluated@),
            decreases n - k,
        {
            match self.eval(&items[k], inner, fuel) {
                Ok(_) => {},
                Err(e) => {
                    return Step::Done(Err(e));
                },
            }
            k += 1;
        }
        Step::Tail(copy_value(&items[n - 1]), inner)
    }

    fn eval_while(&mut self, items: &[Value], scope: usize, fuel: u64) -> (r: Result<Value, String>)
        requires
            old(self).global.wf(),
            scope < old(self).scopes(),
            items@.len() >= 1,
        ensures
            final(self).global.wf(),
            final(self).depth == old(self).depth,
            final(self).scopes() >= old(self).scopes(),
            texts(old(self).output@).is_prefix_of(texts(final(self).output@)),
            old(self).evaluated@.is_prefix_of(final(self).evaluated@),
            items@.len() < 2 ==> result_of(r) == Err::<Datum, Seq<char>>("while needs a condition"@)
                && final(self).global == old(self).global && final(self).output == old(self).output,
            r matches Ok(v) ==> v.view() == Datum::Nil,
        decreases fuel, 4u64,
    {
        let n = items.len();
        if n < 2 {
            return Err(text("while needs a condition"));
        }
        let mut iterations: u64 = 0;
        loop
            invariant
                n == items@.len(),
                n >= 2,
                iterations <= MAX_ITERATIONS,
                self.global.wf(),
                scope < self.scopes(),
                self.depth == old(self).depth,
                self.scopes() >= old(self).scopes(),
                texts(old(self).output@).is_prefix_of(texts(self.output@)),
                old(self).evaluated@.is_prefix_of(self.evaluated@),
            decreases MAX_ITERATIONS - iterations,
        {
            let test = match self.eval(&items[1], scope, fuel) {
                Ok(v) => v,
                Err(e) => {
                    return Err(e);
                },
            };
            if !test.is_truthy() {
                return Ok(Value::Nil);
            }
            iterations = iterations + 1;
            if iterations > MAX_ITERATIONS {
                return Err(text("while ran too long; ORACLE stopped it"));
            }
            let mut k: usize = 2;
            while k < n
                invariant
                    2 <= k <= n,
                    n == items@.len(),
                    self.global.wf(),
                    scope < self.scopes(),
                    self.depth == old(self).depth,
                    self.scopes() >= old(self).scopes(),
                    texts(old(self).output@).is_prefix_of(texts(self.output@)),
                    old(self).evaluated@.is_prefix_of(self.evaluated@),
                decreases n - k,
            {
                match self.eval(&items[k], scope, fuel) {
                    Ok(_) => {},
                    Err(e) => {
                        return Err(e);
                    },
                }
                k += 1;
            }
        }
    }

    fn eval_cond(&mut self, items: &[Value], scope: usize, fuel: u64) -> (s: Step)
        requires
            old(self).global.wf(),
            scope < old(self).scopes(),
            items@.len() >= 1,
        ensures
            final(self).global.wf(),
            final(self).depth == old(self).depth,
            final(self).scopes() >= old(self).scopes(),
            texts(old(self).output@).is_prefix_of(texts(final(self).output@)),
            old(self).evaluated@.is_prefix_of(final(self).evaluated@),
            s matches Step::Tail(_, sc) ==> sc < final(self).scopes(),
            s matches Step::Done(Ok(v)) ==> v.view() == Datum::Nil
                && forall|j: int| 1 <= j < items@.len() ==> !is_else(#[trigger] data_of(items@)[j])
                    && tested(final(self).evaluated@, old(self).evaluated@.len() as int, clause_test(data_of(items@)[j]), scope as nat, false),
            s matches Step::Tail(f, sc) ==> sc == scope
                && exists|i: int| #[trigger] cond_tail(data_of(items@)[i], f.view())
                    && cond_chose(data_of(items@), i, final(self).evaluated@, old(self).evaluated@.len() as int, scope as nat),
            items@.len() == 1 ==> (s matches Step::Done(Ok(_))) && final(self).global == old(self).global
                && final(self).output == old(self).output,
        decreases fuel, 4u64,
    {
        let n = items.len();
        proof {
            lemma_data_of(items@);
        }
        let mut i: usize = 1;
        while i < n
            invariant
                1 <= i <= n,
                n == items@.len(),
                data_of(items@).len() == n,
                forall|j: int| 0 <= j < n ==> #[trigger] data_of(items@)[j] == items@[j].view(),
                i == 1 ==> self.global == old(self).global && self.output == old(self).output,
                self.global.wf(),
                scope < self.scopes(),
                self.depth == old(self).depth,
                self.scopes() >= old(self).scopes(),
                texts(old(self).output@).is_prefix_of(texts(self.output@)),
                old(self).evaluated@.is_prefix_of(self.evaluated@),
                forall|j: int| 1 <= j < i ==> !is_else(#[trigger] data_of(items@)[j])
                    && tested(self.evaluated@, old(self).evaluated@.len() as int, clause_test(data_of(items@)[j]), scope as nat, false),
            decreases n - i,
        {
            let clause = match items[i].as_list() {
                Ok(c) => c,
                Err(e) => {
                    return Step::Done(Err(e));
                },
            };
            let ghost c = data_of(clause@);
            proof {
                lemma_data_of(clause@);
            }
            if clause.len() == 0 {
                return Step::Done(Err(text("empty cond clause")));
            }
            proof {
                assert(data_of(items@)[i as int] == Datum::List(c));
            }
            let ghost from = old(self).evaluated@.len() as int;
            let ghost before_test = self.evaluated@;
            let is_else_clause = is_name(&clause[0], "else");
            let mut chosen = true;
            if !is_else_clause {
                let v = match self.eval(&clause[0], scope, fuel) {
                    Ok(v) => v,
                    Err(e) => {
                        return Step::Done(Err(e));
                    },
                };
                chosen = v.is_truthy();
                proof {
                    let log = self.evaluated@;
                    let k = log.len() - 1;
                    assert(log[k] == (clause_test(data_of(items@)[i as int]), scope as nat, log[k].2));
                    assert(log[k].2 == Ok::<Datum, Seq<char>>(v.view()));
                    assert(tested(log, from, clause_test(data_of(items@)[i as int]), scope as nat, chosen));
                }
            }
            proof {
                assert forall|j: int| 1 <= j < i implies !is_else(#[trigger] data_of(items@)[j])
                    && tested(self.evaluated@, from, clause_test(data_of(items@)[j]), scope as nat, false) by {
                    lemma_tested_grows(before_test, self.evaluated@, from, clause_test(data_of(items@)[j]), scope as nat, false);
                }
                assert(is_else(data_of(items@)[i as int]) == is_else_clause);
                if chosen {
                    assert(cond_chose(data_of(items@), i as int, self.evaluated@, from, scope as nat));
                }
            }
            if chosen {
                if clause.len() > 1 {
                    let mut body: Vec<Value> = Vec::new();
                    let ghost e0 = body@;
                    let begin = Value::symbol("begin");
                    body.push(begin);
                    proof {
                        super::value::lemma_data_of_push(e0, begin);
                        assert(data_of(e0) =~= Seq::<Datum>::empty());
                    }
                    let ghost want = seq![Datum::Symbol("begin"@)] + c.skip(1);
                    let mut k: usize = 1;
                    while k < clause.len()
                        invariant
                            1 <= k <= clause@.len(),
                            c == data_of(clause@),
                            c.len() == clause@.len(),
                            forall|j: int| 0 <= j < clause@.len() ==> #[trigger] c[j] == clause@[j].view(),
                            want == seq![Datum::Symbol("begin"@)] + c.skip(1),
                            data_of(body@) == want.take(k as int),
                        decreases clause@.len() - k,
                    {
                        let ghost b = body@;
                        let x = copy_value(&clause[k]);
                        body.push(x);
                        proof {
                            super::value::lemma_data_of_push(b, x);
                            assert(want.take(k as int + 1) =~= want.take(k as int).push(c[k as int]));
                        }
                        k += 1;
                    }
                    let f = Value::List(body);
                    proof {
                        assert(want.take(k as int) =~= want);
                        assert(cond_tail(data_of(items@)[i as int], f.view()));
                        assert(cond_chose(data_of(items@), i as int, self.evaluated@, from, scope as nat));
                    }
                    return Step::Tail(f, scope);
                } else {
                    let f = copy_value(&clause[0]);
                    proof {
                        assert(cond_tail(data_of(items@)[i as int], f.view()));
                    }
                    return Step::Tail(f, scope);
                }
            }
            i += 1;
        }
        Step::Done(Ok(Value::Nil))
    }

    fn bind_arguments(&mut self, lambda: &Lambda, arguments: Vec<Value>) -> (r: Result<usize, String>)
        requires
            old(self).global.wf(),
        ensures
            final(self).global.wf(),
            final(self).depth == old(self).depth,
            final(self).output == old(self).output,
            final(self).evaluated == old(self).evaluated,
            final(self).scopes() >= old(self).scopes(),
            r matches Ok(sc) ==> sc < final(self).scopes(),
            ({
                let params = lambda.params@.map_values(|p: String| p@);
                let rest = match lambda.rest { Some(n) => Some(n@), None => None::<Seq<char>> };
                let args = data_of(arguments@);
                let before = old(self).global.view();
                let after = final(self).global.view();
                if args.len() < params.len() || (rest is None && args.len() > params.len()) {
                    &&& r matches Err(e) && e@ == arity_text(lambda.name@, params.len(), args.len())
                    &&& final(self).global == old(self).global
                } else if lambda.env >= before.len() {
                    &&& r matches Err(e) && e@ == "the scope this procedure closed over is gone"@
                    &&& final(self).global == old(self).global
                } else {
                    &&& r == Ok::<usize, String>(before.len() as usize)
                    &&& after.len() == before.len() + 1
                    &&& forall|i: int| 0 <= i < before.len() ==> #[trigger] after[i] == before[i]
                    &&& after[before.len() as int].parent == Some(lambda.env as nat)
                    &&& after[before.len() as int].bindings() == frame_of(params, rest, args)
                }
            }),
    {
        let ghost params = lambda.params@.map_values(|p: String| p@);
        let ghost args = data_of(arguments@);
        let ghost before = self.global.view();
        proof {
            lemma_data_of(arguments@);
        }
        let expected = lambda.params.len();
        let got = arguments.len();
        if got < expected || (lambda.rest.is_none() && got > expected) {
            let mut out: Vec<char> = Vec::new();
            push_str(&mut out, lambda.name.as_str());
            push_str(&mut out, " expects ");
            push_dec(&mut out, expected as u64);
            push_str(&mut out, " argument(s), got ");
            push_dec(&mut out, got as u64);
            return Err(string_of(out.as_slice()));
        }
        if lambda.env >= self.global.len() {
            return Err(text("the scope this procedure closed over is gone"));
        }
        let scope = self.global.child(lambda.env);
        proof {
            let empty = self.global.view()[scope as int];
            assert(empty.bindings() =~= Map::<Seq<char>, Datum>::empty());
        }
        let mut arguments = arguments;
        let extra = arguments.split_off(expected);
        let mut i: usize = 0;
        while i < expected
            invariant
                i <= expected,
                expected == lambda.params@.len(),
                params == lambda.params@.map_values(|p: String| p@),
                arguments@.len() == expected,
                forall|j: int| 0 <= j < expected ==> #[trigger] args[j] == arguments@[j].view(),
                self.global.wf(),
                scope == before.len(),
                self.global.view().len() == before.len() + 1,
                forall|j: int| 0 <= j < before.len() ==> #[trigger] self.global.view()[j] == before[j],
                self.global.view()[scope as int].parent == Some(lambda.env as nat),
                self.global.view()[scope as int].bindings() == arguments_map(params, args, i as int),
                self.depth == old(self).depth,
                self.evaluated == old(self).evaluated,
                self.output == old(self).output,
                self.scopes() >= old(self).scopes(),
            decreases expected - i,
        {
            let v = copy_value(&arguments[i]);
            self.global.define(scope, lambda.params[i].as_str(), v);
            i += 1;
        }
        proof {
            assert(data_of(extra@) =~= args.skip(expected as int)) by {
                lemma_data_of(extra@);
            }
        }
        match &lambda.rest {
            Some(rest) => {
                self.global.define(scope, rest.as_str(), Value::List(extra));
            },
            None => {},
        }
        Ok(scope)
    }

    /// Apply a builtin to evaluated arguments.
    pub fn apply_builtin(&mut self, b: Builtin, args: Vec<Value>, fuel: u64) -> (r: Result<Value, String>)
        requires
            old(self).global.wf(),
        ensures
            final(self).global.wf(),
            final(self).depth == old(self).depth,
            final(self).scopes() >= old(self).scopes(),
            texts(old(self).output@).is_prefix_of(texts(final(self).output@)),
            old(self).evaluated@.is_prefix_of(final(self).evaluated@),
            is_pure(b) ==> result_of(r) == pure_spec(b, data_of(args@)) && final(self).global == old(self).global
                && final(self).output == old(self).output,
        decreases fuel, 5u64,
    {
        match b {
            Builtin::MapEach | Builtin::Filter | Builtin::Fold => self.apply_higher(b, args, fuel),
            Builtin::Print => {
                let mut line: Vec<char> = Vec::new();
                let mut i: usize = 0;
                while i < args.len()
                    invariant
                        i <= args@.len(),
                    decreases args@.len() - i,
                {
                    if i > 0 {
                        line.push(' ');
                    }
                    let shown = args[i].display();
                    let chars = crate::text::chars_of(shown.as_str());
                    let mut k: usize = 0;
                    while k < chars.len()
                        invariant
                            k <= chars@.len(),
                        decreases chars@.len() - k,
                    {
                        line.push(chars[k]);
                        k += 1;
                    }
                    i += 1;
                }
                let ghost before = self.output@;
                self.output.push(string_of(line.as_slice()));
                proof {
                    assert(texts(before).is_prefix_of(texts(self.output@))) by {
                        assert(texts(self.output@).take(texts(before).len() as int) =~= texts(before));
                    }
                }
                Ok(Value::Nil)
            },
            Builtin::Env => {
                proof {
                    self.global.lemma_wf();
                }
                let names = self.global.names(0);
                let mut items: Vec<Value> = Vec::new();
                let mut i: usize = 0;
                while i < names.len()
                    invariant
                        i <= names@.len(),
                    decreases names@.len() - i,
                {
                    items.push(Value::string(names[i].as_str()));
                    i += 1;
                }
                Ok(Value::List(items))
            },
            _ => apply_pure(b, args.as_slice()),
        }
    }

    /// `map`, `filter` and `fold`: builtins that call a procedure.
    fn apply_higher(&mut self, b: Builtin, args: Vec<Value>, fuel: u64) -> (r: Result<Value, String>)
        requires
            old(self).global.wf(),
        ensures
            final(self).global.wf(),
            final(self).depth == old(self).depth,
            final(self).scopes() >= old(self).scopes(),
            texts(old(self).output@).is_prefix_of(texts(final(self).output@)),
            old(self).evaluated@.is_prefix_of(final(self).evaluated@),
            ({
                let count: nat = if b == Builtin::Fold { 3 } else { 2 };
                let a = data_of(args@);
                let unchanged = final(self).global == old(self).global && final(self).output == old(self).output;
                if a.len() != count {
                    &&& r matches Err(e) && e@ == b.name_spec() + " expects "@ + dec_str(count) + " argument(s)"@
                    &&& unchanged
                } else if fuel == 0 {
                    &&& r matches Err(e) && e@ == too_long_text()
                    &&& unchanged
                } else {
                    let d = a[if b == Builtin::Fold { 2int } else { 1int }];
                    let list = list_items(d);
                    if d is List || d is Nil {
                        &&& list.len() == 0 ==> unchanged && result_of(r) == Ok::<Datum, Seq<char>>(
                            if b == Builtin::Fold { a[1] } else { Datum::List(Seq::empty()) })
                        &&& (b == Builtin::MapEach && r is Ok) ==> (r->Ok_0.view() matches Datum::List(o) && o.len() == list.len())
                        &&& (b == Builtin::Filter && r is Ok) ==> (r->Ok_0.view() matches Datum::List(o)
                            && o.len() <= list.len() && forall|j: int| 0 <= j < o.len() ==> list.contains(#[trigger] o[j]))
                        &&& (a[0] matches Datum::Builtin(f) && is_pure(f) && fuel > 1
                            && (b == Builtin::Fold || b == Builtin::MapEach || b == Builtin::Filter))
                            ==> result_of(r) == higher_pure(b, a[0]->Builtin_0, a, list) && unchanged
                    } else {
                        &&& result_of(r) == Err::<Datum, Seq<char>>("expected a list, got "@ + type_text(d))
                        &&& unchanged
                    }
                }
            }),
        decreases fuel, 4u64,
    {
        proof {
            lemma_data_of(args@);
        }
        let count: usize = if b == Builtin::Fold { 3 } else { 2 };
        if args.len() != count {
            let mut out: Vec<char> = Vec::new();
            push_str(&mut out, b.name());
            push_str(&mut out, " expects ");
            push_dec(&mut out, count as u64);
            push_str(&mut out, " argument(s)");
            return Err(string_of(out.as_slice()));
        }
        if fuel == 0 {
            return Err(text("evaluation ran too long; ORACLE stopped it"));
        }
        let list_at: usize = if b == Builtin::Fold { 2 } else { 1 };
        let slice = match args[list_at].as_list() {
            Ok(items) => items,
            Err(e) => {
                return Err(e);
            },
        };
        let items = tail_copy(slice, 0);
        let ghost list = data_of(items@);
        proof {
            lemma_data_of(items@);
            lemma_data_of(slice@);
            assert(data_of(slice@).subrange(0, slice@.len() as int) =~= data_of(slice@));
            if args@[list_at as int].view() is Nil {
                assert(list =~= Seq::<Datum>::empty());
            }
            assert(data_of(args@)[list_at as int] == args@[list_at as int].view());
            assert(list == list_items(data_of(args@)[list_at as int]));
        }
        let mut out: Vec<Value> = Vec::new();
        let mut accumulator = if b == Builtin::Fold { copy_value(&args[1]) } else { Value::Nil };
        let ghost a = data_of(args@);
        let ghost fb: Builtin = match a[0] { Datum::Builtin(f) => f, _ => Builtin::Add };
        let ghost pure_call: bool = a[0] is Builtin && is_pure(fb) && fuel > 1
            && (b == Builtin::Fold || b == Builtin::MapEach || b == Builtin::Filter);
        proof {
            assert(list.take(0) =~= Seq::<Datum>::empty());
            lemma_data_of(out@);
        }
        let mut i: usize = 0;
        while i < items.len()
            invariant
                i <= items@.len(),
                a == data_of(args@),
                fb == (match a[0] { Datum::Builtin(f) => f, _ => Builtin::Add }),
                pure_call == (a[0] is Builtin && is_pure(fb) && fuel > 1
                    && (b == Builtin::Fold || b == Builtin::MapEach || b == Builtin::Filter)),
                forall|j: int| 0 <= j < args@.len() ==> #[trigger] a[j] == args@[j].view(),
                pure_call ==> self.global == old(self).global && self.output == old(self).output,
                pure_call && b == Builtin::Fold ==> fold_pure(fb, a[1], list.take(i as int)) == Ok::<Datum, Seq<char>>(accumulator.view()),
                pure_call && b == Builtin::MapEach ==> map_pure(fb, list.take(i as int)) == Ok::<Seq<Datum>, Seq<char>>(data_of(out@)),
                pure_call && b == Builtin::Filter ==> filter_pure(fb, list.take(i as int)) == Ok::<Seq<Datum>, Seq<char>>(data_of(out@)),
                list == data_of(items@),
                list.len() == items@.len(),
                forall|j: int| 0 <= j < items@.len() ==> #[trigger] list[j] == items@[j].view(),
                list == list_items(data_of(args@)[if b == Builtin::Fold { 2int } else { 1int }]),
                data_of(args@)[if b == Builtin::Fold { 2int } else { 1int }] is List
                    || data_of(args@)[if b == Builtin::Fold { 2int } else { 1int }] is Nil,
                data_of(args@).len() == args@.len(),
                self.global.wf(),
                self.depth == old(self).depth,
                self.scopes() >= old(self).scopes(),
                texts(old(self).output@).is_prefix_of(texts(self.output@)),
                old(self).evaluated@.is_prefix_of(self.evaluated@),
                args@.len() == count,
                count == (if b == Builtin::Fold { 3usize } else { 2usize }),
                fuel > 0,
                i == 0 && b == Builtin::Fold ==> accumulator.view() == data_of(args@)[1],
                b == Builtin::MapEach ==> out@.len() == i,
                out@.len() <= i,
                forall|j: int| 0 <= j < out@.len() ==> (b == Builtin::Filter ==> list.contains(#[trigger] out@[j].view())),
                i == 0 ==> out@.len() == 0 && self.global == old(self).global && self.output == old(self).output,
            decreases items@.len() - i,
        {
            let mut call_args: Vec<Value> = Vec::new();
            let ghost c0 = call_args@;
            if b == Builtin::Fold {
                let acc = copy_value(&accumulator);
                call_args.push(acc);
                proof {
                    super::value::lemma_data_of_push(c0, acc);
                }
            }
            let ghost c1 = call_args@;
            let x = copy_value(&items[i]);
            call_args.push(x);
            let ghost sent = data_of(call_args@);
            proof {
                super::value::lemma_data_of_push(c1, x);
                assert(data_of(c0) =~= Seq::<Datum>::empty());
                if b == Builtin::Fold {
                    assert(sent =~= seq![accumulator.view(), list[i as int]]);
                } else {
                    assert(sent =~= seq![list[i as int]]);
                }
                assert(list.take(i as int + 1).drop_last() =~= list.take(i as int));
                assert(list.take(i as int + 1).last() == list[i as int]);
                assert(args@[0].view() == a[0]);
            }
            let ghost out_before = out@;
            let result = match self.call(&args[0], call_args, fuel - 1) {
                Ok(v) => v,
                Err(e) => {
                    proof {
                        if pure_call {
                            if b == Builtin::Fold {
                                lemma_fold_err(fb, a[1], list, i as int + 1, e@);
                            } else if b == Builtin::MapEach {
                                lemma_map_err(fb, list, i as int + 1, e@);
                            } else {
                                lemma_filter_err(fb, list, i as int + 1, e@);
                            }
                        }
                    }
                    return Err(e);
                },
            };
            if b == Builtin::MapEach {
                out.push(result);
                proof {
                    super::value::lemma_data_of_push(out_before, result);
                }
            } else if b == Builtin::Filter {
                if result.is_truthy() {
                    let c = copy_value(&items[i]);
                    out.push(c);
                    proof {
                        super::value::lemma_data_of_push(out_before, c);
                        assert(list[i as int] == c.view());
                    }
                }
            } else {
                accumulator = result;
            }
            i += 1;
        }
        proof {
            lemma_data_of(out@);
            assert(list.take(i as int) =~= list);
            if b == Builtin::Filter {
                assert forall|j: int| 0 <= j < data_of(out@).len() implies list.contains(#[trigger] data_of(out@)[j]) by {
                    assert(list.contains(out@[j].view()));
                }
            }
        }
        if b == Builtin::Fold {
            Ok(accumulator)
        } else {
            Ok(Value::List(out))
        }
    }

    /// Apply a callable value to arguments that are already evaluated.
    fn call(&mut self, callee: &Value, args: Vec<Value>, fuel: u64) -> (r: Result<Value, String>)
        requires
            old(self).global.wf(),
        ensures
            final(self).global.wf(),
            final(self).depth == old(self).depth,
            final(self).scopes() >= old(self).scopes(),
            texts(old(self).output@).is_prefix_of(texts(final(self).output@)),
            old(self).evaluated@.is_prefix_of(final(self).evaluated@),
            ({
                let unchanged = final(self).global == old(self).global && final(self).output == old(self).output;
                match callee.view() {
                    Datum::Builtin(b) => if fuel == 0 {
                        result_of(r) == Err::<Datum, Seq<char>>(too_long_text()) && unchanged
                    } else {
                        is_pure(b) ==> result_of(r) == pure_spec(b, data_of(args@)) && unchanged
                    },
                    Datum::Lambda(..) => fuel == 0 ==> result_of(r) == Err::<Datum, Seq<char>>(too_long_text()) && unchanged,
                    d => result_of(r) == Err::<Datum, Seq<char>>(type_text(d) + " is not callable"@) && unchanged,
                }
            }),
        decreases fuel, 4u64,
    {
        match callee {
            Value::Builtin(b) => {
                if fuel == 0 {
                    return Err(text("evaluation ran too long; ORACLE stopped it"));
                }
                self.apply_builtin(*b, args, fuel - 1)
            },
            Value::Lambda(_) => {
                // Rebuild an application with the arguments already
                // evaluated, quoting each so none is evaluated twice.
                let mut form: Vec<Value> = Vec::new();
                form.push(quoted(copy_value(callee)));
                let mut args = args;
                let mut i: usize = 0;
                let n = args.len();
                while i < n
                    invariant
                        i <= n,
                        n == args@.len(),
                    decreases n - i,
                {
                    form.push(quoted(copy_value(&args[i])));
                    i += 1;
                }
                if fuel == 0 {
                    return Err(text("evaluation ran too long; ORACLE stopped it"));
                }
                proof {
                    self.global.lemma_wf();
                }
                self.eval(&Value::List(form), 0, fuel - 1)
            },
            other => Err(prefixed(other.kind_name(), " is not callable")),
        }
    }
}

// ---------------------------------------------------------------------
// Laws of map, filter and fold over builtins.
// ---------------------------------------------------------------------

/// The sum of some integers.
pub open spec fn total_of(xs: Seq<i64>) -> int
    decreases xs.len(),
{
    if xs.len() == 0 { 0 } else { total_of(xs.drop_last()) + xs.last() }
}

/// Integers as ORACLE values.
pub open spec fn int_data(xs: Seq<i64>) -> Seq<Datum> {
    xs.map_values(|x: i64| Datum::Int(x as int))
}

/// `fold` hands `-` the running value first and the item second, so
/// `(fold - init xs)` is `init` minus the sum of `xs`, as long as no step
/// leaves the range of the integers.
pub proof fn law_fold_minus(init: i64, xs: Seq<i64>)
    requires
        forall|k: int| 0 <= k <= xs.len() ==> i64::MIN <= #[trigger] (init - total_of(xs.take(k))) <= i64::MAX,
    ensures
        fold_pure(Builtin::Sub, Datum::Int(init as int), int_data(xs)) == Ok::<Datum, Seq<char>>(Datum::Int(init - total_of(xs))),
    decreases xs.len(),
{
    if xs.len() == 0 {
        assert(int_data(xs) =~= Seq::<Datum>::empty());
    } else {
        let d = xs.drop_last();
        assert forall|k: int| 0 <= k <= d.len() implies i64::MIN <= #[trigger] (init - total_of(d.take(k))) <= i64::MAX by {
            assert(d.take(k) =~= xs.take(k));
        }
        law_fold_minus(init, d);
        assert(int_data(xs).drop_last() =~= int_data(d));
        assert(xs.take(xs.len() as int) =~= xs);
        let acc = init - total_of(d);
        assert(i64::MIN <= init - total_of(xs.take(xs.len() as int)) <= i64::MAX);
        let args = seq![Datum::Int(acc), Datum::Int(xs.last() as int)];
        assert(args.drop_last() =~= seq![Datum::Int(acc)]);
        assert(seq![Datum::Int(acc)].drop_last() =~= Seq::<Datum>::empty());
        assert(super::builtins::ints_of(Seq::<Datum>::empty()) == Ok::<Seq<i64>, Seq<char>>(Seq::empty()));
        assert(super::builtins::int_of(Datum::Int(acc)) == Ok::<i64, Seq<char>>(acc as i64));
        assert(super::builtins::ints_of(seq![Datum::Int(acc)]) == Ok::<Seq<i64>, Seq<char>>(seq![acc as i64])) by {
            assert(Seq::<i64>::empty().push(acc as i64) =~= seq![acc as i64]);
        }
        assert(super::builtins::ints_of(args) == Ok::<Seq<i64>, Seq<char>>(seq![acc as i64, xs.last()])) by {
            assert(seq![acc as i64].push(xs.last()) =~= seq![acc as i64, xs.last()]);
        }
        assert(seq![acc as i64, xs.last()].skip(1) =~= seq![xs.last()]);
        assert(seq![xs.last()].drop_last() =~= Seq::<i64>::empty());
        assert(xs.take(d.len() as int) =~= d);
        assert(i64::MIN <= init - total_of(xs.take(d.len() as int)) <= i64::MAX);
        assert(int_data(xs).last() == Datum::Int(xs.last() as int));
        assert(i64::MIN <= init - total_of(xs) <= i64::MAX);
        assert(i64::MIN <= acc - xs.last() <= i64::MAX);
        assert((acc as i64) as int == acc);
        assert(super::builtins::difference_of(acc as i64, Seq::<i64>::empty()) == acc as i64);
        assert(vstd::wrapping::i64_specs::wrapping_sub(acc as i64, xs.last()) == acc - xs.last());
        assert(super::builtins::difference_of(acc as i64, seq![xs.last()]) == acc - xs.last());
        assert(pure_spec(Builtin::Sub, args) == Ok::<Datum, Seq<char>>(Datum::Int(acc - xs.last())));
        assert(total_of(xs) == total_of(d) + xs.last());
    }
}

/// `map` gives one result per item, each what the builtin gives for that
/// item alone.
pub proof fn law_map_each(f: Builtin, xs: Seq<Datum>)
    ensures
        map_pure(f, xs) matches Ok(ys) ==> ys.len() == xs.len()
            && forall|i: int| 0 <= i < xs.len() ==> pure_spec(f, seq![xs[i]]) == Ok::<Datum, Seq<char>>(#[trigger] ys[i]),
        map_pure(f, xs) is Err ==> exists|i: int| 0 <= i < xs.len() && (#[trigger] pure_spec(f, seq![xs[i]])) is Err,
    decreases xs.len(),
{
    if xs.len() > 0 {
        let d = xs.drop_last();
        law_map_each(f, d);
        if let Ok(ys) = map_pure(f, xs) {
            let yd = ys.drop_last();
            assert forall|i: int| 0 <= i < xs.len() implies pure_spec(f, seq![xs[i]]) == Ok::<Datum, Seq<char>>(#[trigger] ys[i]) by {
                if i < d.len() {
                    assert(xs[i] == d[i]);
                    assert(ys[i] == map_pure(f, d)->Ok_0[i]);
                }
            }
        }
        if map_pure(f, xs) is Err {
            if map_pure(f, d) is Err {
                let i = choose|i: int| 0 <= i < d.len() && (#[trigger] pure_spec(f, seq![d[i]])) is Err;
                assert(xs[i] == d[i]);
            } else {
                assert(pure_spec(f, seq![xs[xs.len() - 1]]) is Err);
            }
        }
    }
}

/// `filter` keeps exactly the items for which the builtin gives a true
/// value: each item kept passes, each item that passes is kept.
pub proof fn law_filter_keeps(f: Builtin, xs: Seq<Datum>)
    ensures
        filter_pure(f, xs) matches Ok(ys) ==> ys.len() <= xs.len()
            && (forall|j: int| 0 <= j < ys.len() ==> xs.contains(#[trigger] ys[j])
                && (pure_spec(f, seq![ys[j]]) matches Ok(v) && truthy(v)))
            && (forall|i: int| 0 <= i < xs.len() && (#[trigger] pure_spec(f, seq![xs[i]]) matches Ok(v) && truthy(v))
                ==> ys.contains(xs[i])),
    decreases xs.len(),
{
    if xs.len() > 0 {
        let d = xs.drop_last();
        law_filter_keeps(f, d);
        if let Ok(ys) = filter_pure(f, xs) {
            let yd = filter_pure(f, d)->Ok_0;
            assert forall|j: int| 0 <= j < ys.len() implies xs.contains(#[trigger] ys[j])
                && (pure_spec(f, seq![ys[j]]) matches Ok(v) && truthy(v)) by {
                if j < yd.len() {
                    assert(ys[j] == yd[j]);
                    let k = choose|k: int| 0 <= k < d.len() && d[k] == yd[j];
                    assert(xs[k] == d[k]);
                } else {
                    assert(ys[j] == xs[xs.len() - 1]);
                }
            }
            assert forall|i: int| 0 <= i < xs.len() && (#[trigger] pure_spec(f, seq![xs[i]]) matches Ok(v) && truthy(v))
                implies ys.contains(xs[i]) by {
                if i < d.len() {
                    assert(xs[i] == d[i]);
                    assert(pure_spec(f, seq![d[i]]) matches Ok(v) && truthy(v));
                    let k = choose|k: int| 0 <= k < yd.len() && yd[k] == d[i];
                    assert(ys[k] == yd[k]);
                } else {
                    assert(ys[ys.len() - 1] == xs[i]);
                }
            }
        }
    }
}

// ---------------------------------------------------------------------
// Laws of cond.
// ---------------------------------------------------------------------

/// Every evaluation of one form in one scope, from `from` on, gave the same
/// result.
pub open spec fn consistent(log: Seq<Evaluation>, from: int) -> bool {
    forall|k1: int, k2: int| from <= k1 < log.len() && from <= k2 < log.len()
        && (#[trigger] log[k1]).0 == (#[trigger] log[k2]).0 && log[k1].1 == log[k2].1 ==> log[k1].2 == log[k2].2
}

/// `cond` takes the first clause that applies: when clause `i` is the one
/// taken, no clause before it could have been, for the tests of the clauses
/// before it came out false (and none of them is an `else`).
pub proof fn law_cond_takes_first(items: Seq<Datum>, log: Seq<Evaluation>, from: int, scope: nat, i: int, j: int)
    requires
        cond_chose(items, i, log, from, scope),
        consistent(log, from),
        1 <= j < i,
    ensures
        !cond_chose(items, j, log, from, scope),
        !is_else(items[j]),
{
    assert(!is_else(items[j]) && tested(log, from, clause_test(items[j]), scope, false));
    if tested(log, from, clause_test(items[j]), scope, true) {
        let t = clause_test(items[j]);
        let k1 = choose|k: int| 0 <= from <= k < log.len() && #[trigger] log[k] == (t, scope, log[k].2)
            && (log[k].2 matches Ok(v) && truthy(v) == false);
        let k2 = choose|k: int| 0 <= from <= k < log.len() && #[trigger] log[k] == (t, scope, log[k].2)
            && (log[k].2 matches Ok(v) && truthy(v) == true);
        assert(log[k1].2 == log[k2].2);
    }
}

} // verus!
