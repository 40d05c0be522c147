//! What the statements, functions and blocks of a program are lowered to.

use vstd::prelude::*;
use crate::ast::{element_as_type, ExprV, FunctionV, ParamV, ProgramV, SegmentV, StmtV, Type};
use crate::emit::{
    at, block, branch, call0, call1, call2, call_list, coerce_float, coerce_to_bigint, coerce_to_bignum,
    const_float, const_int, const_str, default_return, do0, do1, fragment, free_slot, give0, jump, load, run1,
    slot, store, unwrap, value_fmt, Out,
};
use crate::ir::{repr_of, Op, Repr, Rt, Value};
use crate::lower::{
    append, element_place, find_binding, free_temps, is_bigint, lower_call, lower_expr, lower_for, no_variable,
    precision_of, sig_place, variable, with_out, BindingV, Scope, Temp, Work,
};
use crate::numeral::shown;
use crate::typing::{sigs_of, SigV};

verus! {

/// What is the same for all statements of a function.
pub struct Frame {
    pub sigs: Seq<SigV>,
    pub return_type: Type,
    /// Whether the statements are those between `START` and `END`.
    pub in_entry: bool,
}

/// What lowering a statement changes.
pub struct State {
    pub out: Out,
    pub temps: Seq<Temp>,
    /// The variables that can be referred to, in the order of their declarations.
    pub bindings: Seq<BindingV>,
    /// For each open block, how many variables there were before it.
    pub scopes: Seq<nat>,
}

/// A state, or what went wrong.
pub type Next = Result<State, Seq<char>>;

/// What expressions can refer to.
pub open spec fn scope(f: Frame, s: State) -> Scope {
    Scope { sigs: f.sigs, bindings: s.bindings }
}

/// What expressions add to.
pub open spec fn work(s: State) -> Work {
    Work { out: s.out, temps: s.temps }
}

/// The state after some work.
pub open spec fn done(s: State, w: Work) -> State {
    State { out: w.out, temps: w.temps, bindings: s.bindings, scopes: s.scopes }
}

/// The state with other code.
pub open spec fn emitted(s: State, out: Out) -> State {
    State { out, temps: s.temps, bindings: s.bindings, scopes: s.scopes }
}

// ---------------------------------------------------------------------------
// Scopes
// ---------------------------------------------------------------------------

/// How many variables there were before the innermost open block.
pub open spec fn scope_start(s: State) -> int {
    if s.scopes.len() > 0 {
        s.scopes.last() as int
    } else {
        0
    }
}

/// The variable of this name and type that the innermost block has declared already.
pub open spec fn own_variable(s: State, name: Seq<char>, ty: Type) -> Option<int> {
    match find_binding(s.bindings, name, ty, false, s.bindings.len() as int) {
        Some(k) => if k >= scope_start(s) {
            Some(k)
        } else {
            None
        },
        None => None,
    }
}

/// A variable with a value of its own. Declaring one again in its block frees the value it had;
/// a variable of an outer block is hidden and keeps its value.
pub open spec fn declare(s: State, name: Seq<char>, ty: Type, v: Value) -> State {
    match own_variable(s, name, ty) {
        Some(k) => {
            let o = free_slot(s.out, s.bindings[k].place, ty);
            let (o, place) = slot(o, repr_of(ty), name);
            let o = store(o, place, v);
            let b = BindingV { name, ty, place, literal: false };
            State { out: o, temps: s.temps, bindings: s.bindings.update(k, b), scopes: s.scopes }
        },
        None => {
            let (o, place) = slot(s.out, repr_of(ty), name);
            let o = store(o, place, v);
            let b = BindingV { name, ty, place, literal: false };
            State { out: o, temps: s.temps, bindings: s.bindings.push(b), scopes: s.scopes }
        },
    }
}

/// Frees the values of the variables from number `from` up to number `n`, the last one first.
pub open spec fn free_bindings(o: Out, bs: Seq<BindingV>, from: int, n: int) -> Out
    decreases n - from,
{
    if n <= from || n <= 0 || n > bs.len() {
        o
    } else {
        free_bindings(free_slot(o, bs[n - 1].place, bs[n - 1].ty), bs, from, n - 1)
    }
}

/// Opens a block.
pub open spec fn push_scope(s: State) -> State {
    State { out: s.out, temps: s.temps, bindings: s.bindings, scopes: s.scopes.push(s.bindings.len()) }
}

/// Closes the innermost block. Its variables are gone, and their values are freed unless a
/// `return` has freed them already.
pub open spec fn pop_scope(s: State, free: bool) -> State {
    let start = scope_start(s);
    State {
        out: if free {
            free_bindings(s.out, s.bindings, start, s.bindings.len() as int)
        } else {
            s.out
        },
        temps: s.temps,
        bindings: if start <= s.bindings.len() {
            s.bindings.take(start)
        } else {
            s.bindings
        },
        scopes: if s.scopes.len() > 0 {
            s.scopes.drop_last()
        } else {
            s.scopes
        },
    }
}

/// The end of a statement: the temporaries are freed, unless a `return` has freed them already.
pub open spec fn finish(s: State) -> State {
    State {
        out: if s.out.ended {
            s.out
        } else {
            free_temps(s.out, s.temps, s.temps.len())
        },
        temps: Seq::empty(),
        bindings: s.bindings,
        scopes: s.scopes,
    }
}

// ---------------------------------------------------------------------------
// Literals in loops
// ---------------------------------------------------------------------------

/// A literal that stands beside a bignum or a bigint, without needless zeros, and the type that it has
/// there.
pub struct SiteV {
    pub text: Seq<char>,
    pub ty: Type,
}

/// The literal `text` beside the operand `other`.
pub open spec fn site(sigs: Seq<SigV>, text: Seq<char>, other: ExprV) -> Seq<SiteV> {
    match precision_of(sigs, other) {
        Some(p) => seq![SiteV { text: shown(text), ty: Type::BigNum(p) }],
        None => if is_bigint(sigs, other) {
            seq![SiteV { text: shown(text), ty: Type::BigInt }]
        } else {
            Seq::empty()
        },
    }
}

/// The literals beside bignums and bigints in an expression.
pub open spec fn sites(sigs: Seq<SigV>, e: ExprV) -> Seq<SiteV>
    decreases e, 0nat,
{
    match e {
        ExprV::Binary(l, op, r) => match (*l, *r) {
            (ExprV::Num(_), ExprV::Num(_)) => Seq::empty(),
            (ExprV::Num(text), other) => if op is Concat {
                sites(sigs, other)
            } else {
                site(sigs, text, other) + sites(sigs, other)
            },
            (other, ExprV::Num(text)) => if op is Concat {
                sites(sigs, other)
            } else {
                site(sigs, text, other) + sites(sigs, other)
            },
            (left, right) => sites(sigs, left) + sites(sigs, right),
        },
        ExprV::Unary(_, inner) => sites(sigs, *inner),
        ExprV::Call(_, args) => sites_of(sigs, args, args.len()),
        ExprV::ArrayLiteral(es) => sites_of(sigs, es, es.len()),
        ExprV::ArrayIndex(_, _, index) => sites(sigs, *index),
        ExprV::Length(array) => sites(sigs, *array),
        _ => Seq::empty(),
    }
}

/// The literals beside bignums and bigints in the first `n` expressions.
pub open spec fn sites_of(sigs: Seq<SigV>, es: Seq<ExprV>, n: nat) -> Seq<SiteV>
    decreases es, n,
{
    if n == 0 || n > es.len() {
        Seq::empty()
    } else {
        sites_of(sigs, es, (n - 1) as nat) + sites(sigs, es[n - 1])
    }
}

/// The literals beside bignums and bigints in the first `n` pieces of a `print`.
pub open spec fn segment_sites(sigs: Seq<SigV>, segments: Seq<SegmentV>, n: nat) -> Seq<SiteV>
    decreases n,
{
    if n == 0 || n > segments.len() {
        Seq::empty()
    } else {
        segment_sites(sigs, segments, (n - 1) as nat) + match segments[n - 1] {
            SegmentV::Str(_) => Seq::empty(),
            SegmentV::Expr(e) => sites(sigs, e),
        }
    }
}

/// The literals beside bignums and bigints in a statement. A loop inside it looks after its own.
pub open spec fn stmt_sites(sigs: Seq<SigV>, s: StmtV) -> Seq<SiteV>
    decreases s, 0nat,
{
    match s {
        StmtV::VarDecl(_, _, e) => sites(sigs, e),
        StmtV::Assign(_, _, e) => sites(sigs, e),
        StmtV::ExprStmt(e) => sites(sigs, e),
        StmtV::ArrayIndexAssign(_, _, index, value) => sites(sigs, index) + sites(sigs, value),
        StmtV::Append(array, value) => sites(sigs, array) + sites(sigs, value),
        StmtV::Return(Some(e)) => sites(sigs, e),
        StmtV::Print(segments, dest) => segment_sites(sigs, segments, segments.len()) + match dest {
            Some(e) => sites(sigs, e),
            None => Seq::empty(),
        },
        StmtV::Overwrite(segments, dest) => segment_sites(sigs, segments, segments.len()) + sites(sigs, dest),
        StmtV::If(cond, then_block, else_block) => sites(sigs, cond) + block_sites(sigs, then_block, then_block.len())
            + match else_block {
            Some(b) => block_sites(sigs, b, b.len()),
            None => Seq::empty(),
        },
        _ => Seq::empty(),
    }
}

/// The literals beside bignums and bigints in the first `n` statements of a block.
pub open spec fn block_sites(sigs: Seq<SigV>, b: Seq<StmtV>, n: nat) -> Seq<SiteV>
    decreases b, n,
{
    if n == 0 || n > b.len() {
        Seq::empty()
    } else {
        block_sites(sigs, b, (n - 1) as nat) + stmt_sites(sigs, b[n - 1])
    }
}

/// A literal as a number of type `ty`, which is `bignum` or `bigint`.
pub open spec fn make_literal(o: Out, text: Seq<char>, ty: Type) -> Result<(Out, Value), Seq<char>> {
    match ty {
        Type::BigNum(p) => {
            let (o, f) = const_float(o, text);
            coerce_to_bignum(o, f, p)
        },
        _ => {
            let (o, t) = const_str(o, text);
            coerce_to_bigint(o, t)
        },
    }
}

/// Makes the literal of a site before a loop, unless the loop has it already.
pub open spec fn hoist(s: State, site: SiteV) -> Next {
    match find_binding(s.bindings, site.text, site.ty, true, s.bindings.len() as int) {
        Some(k) => if k >= scope_start(s) {
            Ok(s)
        } else {
            hoist_new(s, site)
        },
        None => hoist_new(s, site),
    }
}

/// Makes the literal of a site.
pub open spec fn hoist_new(s: State, site: SiteV) -> Next {
    match make_literal(s.out, site.text, site.ty) {
        Err(m) => Err(m),
        Ok((o, v)) => {
            let (o, place) = slot(o, repr_of(site.ty), "hoisted_literal"@);
            let o = store(o, place, v);
            let b = BindingV { name: site.text, ty: site.ty, place, literal: true };
            Ok(State { out: o, temps: s.temps, bindings: s.bindings.push(b), scopes: s.scopes })
        },
    }
}

/// Makes the literals of the first `n` sites before a loop.
pub open spec fn hoist_all(s: State, list: Seq<SiteV>, n: nat) -> Next
    decreases n,
{
    if n == 0 || n > list.len() {
        Ok(s)
    } else {
        match hoist_all(s, list, (n - 1) as nat) {
            Err(m) => Err(m),
            Ok(s) => hoist(s, list[n - 1]),
        }
    }
}

// ---------------------------------------------------------------------------
// Printing
// ---------------------------------------------------------------------------

/// A text in which each `%` stands for itself in a format string.
pub open spec fn escaped(s: Seq<char>) -> Seq<char>
    decreases s.len(),
{
    if s.len() == 0 {
        Seq::empty()
    } else if s.last() == '%' {
        escaped(s.drop_last()).push('%').push('%')
    } else {
        escaped(s.drop_last()).push(s.last())
    }
}

/// The format string of a `print` so far, its operands, and the texts that are to be freed.
pub struct Printing {
    pub format: Seq<char>,
    pub args: Seq<Value>,
    pub frees: Seq<Value>,
}

/// The first `n` pieces of a `print`.
pub open spec fn print_pieces(sc: Scope, w: Work, segments: Seq<SegmentV>, n: nat) -> Result<
    (Work, Printing),
    Seq<char>,
>
    decreases n,
{
    if n == 0 || n > segments.len() {
        Ok((w, Printing { format: Seq::empty(), args: Seq::empty(), frees: Seq::empty() }))
    } else {
        match print_pieces(sc, w, segments, (n - 1) as nat) {
            Err(m) => Err(m),
            Ok((w, p)) => match segments[n - 1] {
                SegmentV::Str(t) => Ok(
                    (w, Printing { format: p.format + escaped(t), args: p.args, frees: p.frees }),
                ),
                SegmentV::Expr(e) => match lower_expr(sc, w, e) {
                    Err(m) => Err(m),
                    Ok((w, v)) => match value_fmt(w.out, v) {
                        Err(m) => Err(m),
                        Ok((o, a)) => Ok(
                            (
                                with_out(w, o),
                                Printing {
                                    format: p.format + fragment(v.repr),
                                    args: p.args.push(a),
                                    frees: if v.repr == Repr::Handle || v.repr == Repr::BigInt {
                                        p.frees.push(a)
                                    } else {
                                        p.frees
                                    },
                                },
                            ),
                        ),
                    },
                },
            },
        }
    }
}

/// The format string of a `print`, with the newline that it always ends in, its operands, and the
/// texts that are to be freed.
pub open spec fn print_segments(sc: Scope, w: Work, segments: Seq<SegmentV>) -> Result<(Work, Printing), Seq<char>> {
    match print_pieces(sc, w, segments, segments.len()) {
        Err(m) => Err(m),
        Ok((w, p)) => Ok((w, Printing { format: p.format.push('\n'), args: p.args, frees: p.frees })),
    }
}

/// Frees the first `n` texts.
pub open spec fn free_texts(o: Out, texts: Seq<Value>, n: nat) -> Out
    decreases n,
{
    if n == 0 || n > texts.len() {
        o
    } else {
        run1(free_texts(o, texts, (n - 1) as nat), Rt::Free, texts[n - 1])
    }
}

/// The value of an expression that has to be a path.
pub open spec fn lower_path(sc: Scope, w: Work, e: ExprV) -> Result<(Work, Value), Seq<char>> {
    match lower_expr(sc, w, e) {
        Err(m) => Err(m),
        Ok((w, v)) => if v.repr == Repr::Ptr {
            Ok((w, v))
        } else {
            Err("path expected"@)
        },
    }
}

/// Writes a format string and its operands to the file that `dest` names, in place of what it held.
pub open spec fn write_to_file(sc: Scope, w: Work, dest: ExprV, args: Seq<Value>) -> Result<Work, Seq<char>> {
    match lower_path(sc, w, dest) {
        Err(m) => Err(m),
        Ok((w, path)) => {
            let (o, mode) = const_str(w.out, "w"@);
            let (o, file) = call2(o, Rt::Fopen, path, mode);
            let (o, _) = call_list(o, Rt::Fprintf, seq![file] + args);
            let o = run1(o, Rt::Fclose, file);
            Ok(with_out(w, o))
        },
    }
}

/// `print`, to the screen or to a file.
pub open spec fn lower_print(sc: Scope, w: Work, segments: Seq<SegmentV>, dest: Option<ExprV>) -> Result<Work, Seq<char>> {
    match print_segments(sc, w, segments) {
        Err(m) => Err(m),
        Ok((w, p)) => {
            let (o, format) = const_str(w.out, p.format);
            let args = seq![format] + p.args;
            let written = match dest {
                None => {
                    let (o, _) = call_list(o, Rt::Printf, args);
                    Ok(with_out(w, o))
                },
                Some(e) => write_to_file(sc, with_out(w, o), e, args),
            };
            match written {
                Err(m) => Err(m),
                Ok(w) => Ok(with_out(w, free_texts(w.out, p.frees, p.frees.len()))),
            }
        },
    }
}

// ---------------------------------------------------------------------------
// Statements
// ---------------------------------------------------------------------------

/// The value that an `input` reads.
pub open spec fn read_input(sc: Scope, w: Work, ty: Type, source: Option<ExprV>) -> Result<(Work, Value), Seq<char>> {
    match (ty, source) {
        (Type::Str, None) => {
            let (o, v) = call0(w.out, Rt::ReadLine);
            Ok((with_out(w, o), v))
        },
        (Type::Str, Some(e)) => match lower_path(sc, w, e) {
            Err(m) => Err(m),
            Ok((w, path)) => {
                let (o, v) = call1(w.out, Rt::ReadFile, path);
                Ok((with_out(w, o), v))
            },
        },
        (Type::Num(width), None) => {
            let (o, n) = call0(w.out, Rt::ReadNum);
            let (o, v) = coerce_float(o, n, width);
            Ok((with_out(w, o), v))
        },
        (Type::Num(width), Some(e)) => match lower_path(sc, w, e) {
            Err(m) => Err(m),
            Ok((w, path)) => {
                let (o, t) = call1(w.out, Rt::ReadFile, path);
                let (o, n) = call1(o, Rt::ParseNum, t);
                let o = run1(o, Rt::Free, t);
                let (o, v) = coerce_float(o, n, width);
                Ok((with_out(w, o), v))
            },
        },
        _ => Err("input not supported for this type yet"@),
    }
}

/// An assignment to an element of an array. The value that the element had is freed.
pub open spec fn assign_element(sc: Scope, w: Work, name: Seq<char>, ty: Type, index: ExprV, value: ExprV) -> Result<
    Work,
    Seq<char>,
> {
    match ty {
        Type::Array(element) => match variable(sc.bindings, name, ty) {
            None => Err(no_variable(name, ty)),
            Some(k) => {
                let (o, a) = load(w.out, Repr::Handle, sc.bindings[k].place);
                let (o, h) = unwrap(o, a);
                match lower_expr(sc, with_out(w, o), index) {
                    Err(m) => Err(m),
                    Ok((w, i)) => match element_place(w.out, h, i) {
                        Err(m) => Err(m),
                        Ok((o, p)) => match lower_for(sc, with_out(w, o), value, element_as_type(element)) {
                            Err(m) => Err(m),
                            Ok((w, v)) => Ok(
                                with_out(w, store(free_slot(w.out, p, element_as_type(element)), p, v)),
                            ),
                        },
                    },
                }
            },
        },
        _ => Err("index used on something that is no array"@),
    }
}

/// `append`, to an array variable.
pub open spec fn lower_append(sc: Scope, w: Work, array: ExprV, value: ExprV) -> Result<Work, Seq<char>> {
    match array {
        ExprV::Var(name, Type::Array(element)) => match variable(sc.bindings, name, Type::Array(element)) {
            None => Err(no_variable(name, Type::Array(element))),
            Some(k) => {
                let (o, a) = load(w.out, Repr::Handle, sc.bindings[k].place);
                let (o, h) = unwrap(o, a);
                match lower_for(sc, with_out(w, o), value, element_as_type(element)) {
                    Err(m) => Err(m),
                    Ok((w, v)) => Ok(with_out(w, append(w.out, h, v, element))),
                }
            },
        },
        _ => Err("append expects an array variable"@),
    }
}

/// `return`: the temporaries and the variables of all open blocks are freed before it.
pub open spec fn lower_return(f: Frame, s: State, e: Option<ExprV>) -> Next {
    let value = match e {
        None => Ok((work(s), None)),
        Some(e) => match lower_for(scope(f, s), work(s), e, f.return_type) {
            Err(m) => Err(m),
            Ok((w, v)) => Ok((w, Some(v))),
        },
    };
    match value {
        Err(m) => Err(m),
        Ok((w, v)) => {
            let o = free_temps(w.out, w.temps, w.temps.len());
            let o = free_bindings(o, s.bindings, 0, s.bindings.len() as int);
            let o = match v {
                Some(v) => do1(o, Op::Ret, v),
                None => if f.in_entry {
                    let (o, zero) = const_int(o, 32, 0);
                    do1(o, Op::Ret, zero)
                } else {
                    do0(o, Op::RetVoid)
                },
            };
            Ok(State { out: o, temps: Seq::empty(), bindings: s.bindings, scopes: s.scopes })
        },
    }
}

/// `read`: shows what a file holds.
pub open spec fn lower_read(sc: Scope, w: Work, source: ExprV) -> Result<Work, Seq<char>> {
    match lower_path(sc, w, source) {
        Err(m) => Err(m),
        Ok((w, path)) => {
            let (o, t) = call1(w.out, Rt::ReadFile, path);
            let (o, format) = const_str(o, "%s\n"@);
            let (o, _) = call_list(o, Rt::Printf, seq![format, t]);
            let o = run1(o, Rt::Free, t);
            Ok(with_out(w, o))
        },
    }
}

/// The value of a condition. The temporaries that it needed are freed before the branch.
pub open spec fn lower_condition(f: Frame, s: State, cond: ExprV) -> Result<(State, Value), Seq<char>> {
    match lower_expr(scope(f, s), work(s), cond) {
        Err(m) => Err(m),
        Ok((w, v)) => if v.repr == Repr::Int(1) {
            Ok((finish(done(s, w)), v))
        } else {
            Err("condition expected"@)
        },
    }
}

/// The end of a branch: unless it has ended already, it goes to the block `next`.
pub open spec fn close_branch(s: State, next: Value) -> State {
    if s.out.ended {
        s
    } else {
        emitted(s, jump(s.out, next))
    }
}

/// A state after some work, if nothing went wrong.
pub open spec fn after(s: State, r: Result<Work, Seq<char>>) -> Next {
    match r {
        Err(m) => Err(m),
        Ok(w) => Ok(done(s, w)),
    }
}

/// A statement, up to the temporaries that it leaves.
pub open spec fn lower_action(f: Frame, s: State, stmt: StmtV) -> Next
    decreases stmt, 1nat, 0nat,
{
    let sc = scope(f, s);
    let w = work(s);
    match stmt {
        StmtV::VarDecl(name, ty, e) => match lower_for(sc, w, e, ty) {
            Err(m) => Err(m),
            Ok((w, v)) => Ok(declare(done(s, w), name, ty, v)),
        },
        StmtV::Input(name, ty, source) => match read_input(sc, w, ty, source) {
            Err(m) => Err(m),
            Ok((w, v)) => Ok(declare(done(s, w), name, ty, v)),
        },
        StmtV::Clock(name, ty) => match ty {
            Type::Num(width) => {
                let (o, n) = call0(s.out, Rt::ClockElapsed);
                let (o, v) = coerce_float(o, n, width);
                Ok(declare(emitted(s, o), name, ty, v))
            },
            _ => Err("clock not supported for this type yet"@),
        },
        StmtV::Assign(name, ty, e) => match lower_for(sc, w, e, ty) {
            Err(m) => Err(m),
            Ok((w, v)) => match variable(s.bindings, name, ty) {
                None => Err(no_variable(name, ty)),
                Some(k) => {
                    let place = s.bindings[k].place;
                    Ok(done(s, with_out(w, store(free_slot(w.out, place, ty), place, v))))
                },
            },
        },
        StmtV::ArrayIndexAssign(name, ty, index, value) => after(s, assign_element(sc, w, name, ty, index, value)),
        StmtV::Append(array, value) => after(s, lower_append(sc, w, array, value)),
        StmtV::Return(e) => lower_return(f, s, e),
        StmtV::Print(segments, dest) => after(s, lower_print(sc, w, segments, dest)),
        StmtV::Overwrite(segments, dest) => after(s, lower_print(sc, w, segments, Some(dest))),
        StmtV::Read(source) => after(s, lower_read(sc, w, source)),
        StmtV::ExprStmt(e) => match e {
            ExprV::Call(name, args) => match lower_call(sc, w, name, args) {
                Err(m) => Err(m),
                Ok((w, _)) => Ok(done(s, w)),
            },
            _ => match lower_expr(sc, w, e) {
                Err(m) => Err(m),
                Ok((w, _)) => Ok(done(s, w)),
            },
        },
        StmtV::If(_, _, _) => lower_if(f, s, stmt),
        StmtV::While(_, _) => lower_while(f, s, stmt),
    }
}

/// An `if`: each branch ends at the block behind it.
pub open spec fn lower_if(f: Frame, s: State, stmt: StmtV) -> Next
    decreases stmt, 0nat, 0nat,
{
    match stmt {
        StmtV::If(cond, then_block, else_block) => match lower_condition(f, s, cond) {
            Err(m) => Err(m),
            Ok((s, v)) => {
                let (o, yes) = block(s.out, "then"@);
                let (o, no) = block(o, "else"@);
                let (o, next) = block(o, "merge"@);
                match lower_arm(f, emitted(s, branch(o, v, yes, no)), yes, then_block, next) {
                    Err(m) => Err(m),
                    Ok(s) => {
                        let other = match else_block {
                            Some(b) => lower_arm(f, s, no, b, next),
                            None => Ok(close_branch(emitted(s, at(s.out, no)), next)),
                        };
                        match other {
                            Err(m) => Err(m),
                            Ok(s) => Ok(emitted(s, at(s.out, next))),
                        }
                    },
                }
            },
        },
        _ => Err("if expected"@),
    }
}

/// A branch: the statements of `b` in the block `start`, which goes on to the block `next`.
pub open spec fn lower_arm(f: Frame, s: State, start: Value, b: Seq<StmtV>, next: Value) -> Next
    decreases b, 4nat, 0nat,
{
    match lower_block(f, emitted(s, at(s.out, start)), b) {
        Err(m) => Err(m),
        Ok(s) => Ok(close_branch(s, next)),
    }
}

/// A `while`: the literals beside bignums and bigints are made once, before the loop.
pub open spec fn lower_while(f: Frame, s: State, stmt: StmtV) -> Next
    decreases stmt, 0nat, 0nat,
{
    match stmt {
        StmtV::While(cond, body) => {
            let (o, head) = block(s.out, "while_cond"@);
            let (o, inside) = block(o, "while_body"@);
            let (o, next) = block(o, "while_end"@);
            let list = sites(f.sigs, cond) + block_sites(f.sigs, body, body.len());
            match hoist_all(push_scope(emitted(s, o)), list, list.len()) {
                Err(m) => Err(m),
                Ok(s) => {
                    let o = jump(s.out, head);
                    match lower_condition(f, emitted(s, at(o, head)), cond) {
                        Err(m) => Err(m),
                        Ok((s, v)) => {
                            match lower_arm(f, emitted(s, branch(s.out, v, inside, next)), inside, body, head) {
                                Err(m) => Err(m),
                                Ok(s) => Ok(pop_scope(emitted(s, at(s.out, next)), true)),
                            }
                        },
                    }
                },
            }
        },
        _ => Err("while expected"@),
    }
}

/// A statement.
pub open spec fn lower_stmt(f: Frame, s: State, stmt: StmtV) -> Next
    decreases stmt, 2nat, 0nat,
{
    match lower_action(f, s, stmt) {
        Err(m) => Err(m),
        Ok(s) => Ok(finish(s)),
    }
}

/// The first `n` statements of a block. What comes after a `return` is left out.
pub open spec fn lower_stmts(f: Frame, s: State, b: Seq<StmtV>, n: nat) -> Next
    decreases b, 2nat, n,
{
    if n == 0 || n > b.len() {
        Ok(s)
    } else {
        match lower_stmts(f, s, b, (n - 1) as nat) {
            Err(m) => Err(m),
            Ok(s) => if s.out.ended {
                Ok(s)
            } else {
                lower_stmt(f, s, b[n - 1])
            },
        }
    }
}

/// A block: its variables are freed and gone at its end.
pub open spec fn lower_block(f: Frame, s: State, b: Seq<StmtV>) -> Next
    decreases b, 3nat, 0nat,
{
    match lower_stmts(f, push_scope(s), b, b.len()) {
        Err(m) => Err(m),
        Ok(s) => Ok(pop_scope(s, !s.out.ended)),
    }
}

// ---------------------------------------------------------------------------
// Programs
// ---------------------------------------------------------------------------

/// The start of a function: no variables, one open block.
pub open spec fn opened(o: Out) -> State {
    State { out: o, temps: Seq::empty(), bindings: Seq::empty(), scopes: seq![0nat] }
}

/// The variables that the first `n` parameters of a function are.
pub open spec fn bind_params(s: State, ps: Seq<ParamV>, n: nat) -> State
    decreases n,
{
    if n == 0 || n > ps.len() {
        s
    } else {
        let s = bind_params(s, ps, (n - 1) as nat);
        let (o, v) = give0(s.out, Op::Param((n - 1) as usize), ""@, repr_of(ps[n - 1].ty));
        declare(emitted(s, o), ps[n - 1].name, ps[n - 1].ty, v)
    }
}

/// A function. One that ends without a `return` gives a zero, an empty handle or nothing.
#[verifier::opaque]
pub open spec fn lower_function(sigs: Seq<SigV>, o: Out, f: FunctionV) -> Result<Out, Seq<char>> {
    match sig_place(sigs, f.name, sigs.len() as int) {
        None => Err("undefined function '"@ + f.name + "'"@),
        Some(k) => {
            let s = opened(do0(o, Op::BeginFunction(k as usize)));
            let s = bind_params(s, f.params, f.params.len());
            let frame = Frame { sigs, return_type: f.return_type, in_entry: false };
            match lower_block(frame, s, f.body) {
                Err(m) => Err(m),
                Ok(s) => {
                    let ended = s.out.ended;
                    let s = pop_scope(s, !ended);
                    Ok(
                        if ended {
                            s.out
                        } else {
                            default_return(s.out, f.return_type)
                        },
                    )
                },
            }
        },
    }
}

/// The first `n` functions.
pub open spec fn lower_functions(sigs: Seq<SigV>, o: Out, fs: Seq<FunctionV>, n: nat) -> Result<Out, Seq<char>>
    decreases n,
{
    if n == 0 || n > fs.len() {
        Ok(o)
    } else {
        match lower_functions(sigs, o, fs, (n - 1) as nat) {
            Err(m) => Err(m),
            Ok(o) => lower_function(sigs, o, fs[n - 1]),
        }
    }
}

/// The entry block, which is the `main` of the compiled program. It gives 0.
#[verifier::opaque]
pub open spec fn lower_entry(sigs: Seq<SigV>, o: Out, entry: Seq<StmtV>) -> Result<Out, Seq<char>> {
    let frame = Frame { sigs, return_type: Type::Void, in_entry: true };
    match lower_block(frame, opened(do0(o, Op::BeginMain)), entry) {
        Err(m) => Err(m),
        Ok(s) => Ok(
            if s.out.ended {
                s.out
            } else {
                let (o, zero) = const_int(s.out, 32, 0);
                do1(o, Op::Ret, zero)
            },
        ),
    }
}

/// The code of a program: that of its functions, and that of its entry block.
pub open spec fn lower_program(o: Out, p: ProgramV) -> Result<Out, Seq<char>> {
    let sigs = sigs_of(p.functions);
    match lower_functions(sigs, o, p.functions, p.functions.len()) {
        Err(m) => Err(m),
        Ok(o) => lower_entry(sigs, o, p.entry),
    }
}

} // verus!
