//! What holds of types, literals, number words and settings.

use vstd::prelude::*;
use crate::ast::{BinOp, ExprV, StmtV, Type, UnOp};
use crate::emit::{emit, give1, run3, unwrap, wrap};
use crate::fold::{fold, Fold};
use crate::ir::{Op, Rt, Value};
use crate::layout::{hoist, hoist_all, SiteV, State};
use crate::lower::{big_arith, find_binding, find_temp, fuses_left, hoisted, is_temp, BindingV, Temp, Work};
use crate::numeral::{
    all_digits, digit_value, is_digit, is_whole, leading_zeros, lemma_point_from, point_from, shown, trailing_zeros,
    value, whole_part, whole_value,
};
use crate::numw::{literal_value, magnitude, padded, scaled, unsigned};
use crate::settings::{dot_from, lines_of, link_problem, link_target, optimize_of, setting_line, settings_upto};
use crate::text::trimmed;
use crate::typecheck::{lemma_vars_kept, TypeChecker};
use crate::typing::{
    binary_type, can_coerce, check_for, check_stmt, check_stmts, declare, declared, fits, is_arithmetic,
    is_comparison, literal_as_int, unary_type, wider, VarV, Visible,
};

verus! {

// ---------------------------------------------------------------------------
// Types
// ---------------------------------------------------------------------------

/// A value can be stored as its own type.
pub proof fn values_fit_their_own_type(ty: Type)
    requires
        !(ty is Void),
    ensures
        can_coerce(ty, ty),
{
}

/// `num` and `numw` mix at any precision, and so do `str` and `file`: whatever can be stored as
/// one can be stored as the other.
pub proof fn twins_are_interchangeable(a: u32, b: u32, from: Type)
    ensures
        can_coerce(from, Type::Num(a)) == can_coerce(from, Type::NumW(b)),
        can_coerce(from, Type::Str) == can_coerce(from, Type::File),
{
}

/// Whole numbers are kept apart: only an `int` becomes an `int`, of any width, and only a `bigint`
/// becomes a `bigint`; and no `int` or `bigint` becomes anything else.
pub proof fn whole_numbers_are_kept_apart(from: Type, to: Type)
    requires
        can_coerce(from, to),
    ensures
        from is Int <==> to is Int,
        from is BigInt <==> to is BigInt,
{
}

/// Arithmetic on numbers of one kind stays in that kind, at the larger precision of the two for
/// `int` and `bignum`; a comparison gives a truth value.
pub proof fn arithmetic_stays_in_kind(op: BinOp, l: Type, r: Type)
    requires
        binary_type(op, l, r) is Ok,
    ensures
        is_comparison(op) ==> binary_type(op, l, r)->Ok_0 is Bool,
        is_arithmetic(op) ==> match (l, r) {
            (Type::Int(a), Type::Int(b)) => binary_type(op, l, r)->Ok_0 == Type::Int(wider(a, b)),
            (Type::BigNum(a), Type::BigNum(b)) => binary_type(op, l, r)->Ok_0 == Type::BigNum(wider(a, b)),
            (Type::BigInt, Type::BigInt) => binary_type(op, l, r)->Ok_0 is BigInt,
            _ => binary_type(op, l, r)->Ok_0 is Num || binary_type(op, l, r)->Ok_0 is BigNum,
        },
{
}

/// A kind of numbers, whatever their precision.
pub enum Family {
    Num,
    Int,
    BigInt,
    BigNum,
}

/// The kind of numbers that a type holds.
pub open spec fn family(t: Type) -> Option<Family> {
    match t {
        Type::Num(_) | Type::NumW(_) => Some(Family::Num),
        Type::Int(_) => Some(Family::Int),
        Type::BigInt => Some(Family::BigInt),
        Type::BigNum(_) => Some(Family::BigNum),
        _ => None,
    }
}

/// Whether numbers of two types can be the operands of one operator: they are of one kind, or one is a `bignum`
/// and the other a `num` or a `numw`.
pub open spec fn related(l: Type, r: Type) -> bool {
    match (family(l), family(r)) {
        (Some(a), Some(b)) => a == b || (a is BigNum && b is Num) || (a is Num && b is BigNum),
        _ => false,
    }
}

/// Arithmetic and order are for numbers that go together, equality is for these and for truth values, `&&` and
/// `||` are for truth values, and nothing else fits.
pub proof fn operators_fit_their_operands(op: BinOp, l: Type, r: Type)
    ensures
        is_arithmetic(op) || op is Lt || op is Gt || op is Le || op is Ge ==> (binary_type(op, l, r) is Ok <==> related(
            l,
            r,
        )),
        op is Eq || op is Ne ==> (binary_type(op, l, r) is Ok <==> related(l, r) || (l is Bool && r is Bool)),
        op is And || op is Or ==> (binary_type(op, l, r) is Ok <==> l is Bool && r is Bool),
        op is Concat ==> binary_type(op, l, r) is Err,
{
}

/// A minus and a factorial are for numbers and give a number of the same kind, a minus one of the same type; `not`
/// is for truth values and gives one.
pub proof fn single_operators_fit_their_operand(t: Type)
    ensures
        unary_type(UnOp::Neg, t) == if family(t) is Some {
            Some(t)
        } else {
            None
        },
        unary_type(UnOp::Not, t) == if t is Bool {
            Some(Type::Bool)
        } else {
            None
        },
        unary_type(UnOp::Factorial, t) is Some <==> family(t) is Some,
        family(t) is Some ==> family(unary_type(UnOp::Factorial, t)->0) == family(t),
{
}

/// Whether an operator fits does not depend on the order of its operands.
pub proof fn operands_can_be_swapped(op: BinOp, l: Type, r: Type)
    ensures
        binary_type(op, l, r) is Ok <==> binary_type(op, r, l) is Ok,
        binary_type(op, l, r) is Ok ==> binary_type(op, l, r) == binary_type(op, r, l),
{
}

/// Variables of the same name and different types are different variables: declaring one does not
/// touch the other.
pub proof fn names_can_be_shared(vars: Seq<VarV>, name: Seq<char>, a: Type, b: Type)
    requires
        a != b,
    ensures
        declared(declare(vars, name, a), name, a),
        declared(declare(vars, name, a), name, b) == declared(vars, name, b),
{
    let more = declare(vars, name, a);
    if !declared(vars, name, a) {
        assert(more[vars.len() as int].name == name);
        assert forall|i: int| 0 <= i < vars.len() implies more[i] == #[trigger] vars[i] by {}
        if declared(vars, name, b) {
            let i = choose|i: int| 0 <= i < vars.len() && (#[trigger] vars[i]).name == name && vars[i].ty == b;
            assert(more[i] == vars[i]);
        }
    }
}

/// The variables after the first `n` declarations of `ds`.
pub open spec fn declare_all(vars: Seq<VarV>, ds: Seq<VarV>, n: nat) -> Seq<VarV>
    decreases n,
{
    if n == 0 || n > ds.len() {
        vars
    } else {
        declare(declare_all(vars, ds, (n - 1) as nat), ds[n - 1].name, ds[n - 1].ty)
    }
}

/// A scope takes back what was declared in it: however many variables are declared, some of them
/// perhaps again, taking back those that are new leaves the variables that were there before.
pub proof fn scopes_restore_the_variables(vars: Seq<VarV>, ds: Seq<VarV>, n: nat)
    ensures
        vars.len() <= declare_all(vars, ds, n).len(),
        declare_all(vars, ds, n).take(vars.len() as int) == vars,
    decreases n,
{
    let k = vars.len() as int;
    if n == 0 || n > ds.len() {
        assert(vars.take(k) =~= vars);
    } else {
        scopes_restore_the_variables(vars, ds, (n - 1) as nat);
        assert(declare_all(vars, ds, n).take(k) =~= declare_all(vars, ds, (n - 1) as nat).take(k));
    }
}

/// Checking a block leaves the variables as they were: what it declares comes behind them and is
/// taken back, and a statement that holds blocks changes none.
pub proof fn blocks_leave_the_variables(at: Visible, ret: Type, b: Seq<StmtV>, s: StmtV)
    ensures
        at.vars.len() <= check_stmts(at, ret, b, b.len()).0.len(),
        check_stmts(at, ret, b, b.len()).0.take(at.vars.len() as int) == at.vars,
        s is If || s is While ==> check_stmt(at, ret, s).0 == at.vars,
{
    lemma_vars_kept(at, ret, b, b.len());
}

/// The variable that a statement declares, if it declares one.
pub open spec fn declares(s: StmtV) -> Option<VarV> {
    match s {
        StmtV::VarDecl(name, ty, _) => Some(VarV { name, ty }),
        StmtV::Input(name, ty, _) => Some(VarV { name, ty }),
        StmtV::Clock(name, ty) => Some(VarV { name, ty }),
        _ => None,
    }
}

/// Checking a statement only adds: the problems found before it stay in front, the functions and the
/// type that is to be returned stay as they are, and so do the variables, behind which comes at most
/// one more. Only a `var`, an `input` or a `clock` adds it, and only if it was not there before.
pub proof fn statements_only_add(before: TypeChecker, after: TypeChecker, s: StmtV)
    requires
        after.moved(
            before,
            check_stmt(before.at(), before.current_return_type, s).0,
            before.errs() + check_stmt(before.at(), before.current_return_type, s).1,
        ),
    ensures
        before.errs().is_prefix_of(after.errs()),
        after.function_sigs@ == before.function_sigs@,
        after.current_return_type == before.current_return_type,
        after.at().vars == match declares(s) {
            Some(v) => if declared(before.at().vars, v.name, v.ty) {
                before.at().vars
            } else {
                before.at().vars.push(v)
            },
            None => before.at().vars,
        },
{
    let more = check_stmt(before.at(), before.current_return_type, s).1;
    assert((before.errs() + more).take(before.errs().len() as int) =~= before.errs());
}

// ---------------------------------------------------------------------------
// Literals
// ---------------------------------------------------------------------------

/// A literal is an `int` exactly when it is a whole number that fits in the width that is asked
/// for.
pub proof fn int_literals_are_whole_and_fit(at: Visible, text: Seq<char>, w: u32)
    ensures
        check_for(at, ExprV::Num(text), Type::Int(w)).0 is Some <==> is_whole(text) && fits(
            whole_value(text) as int,
            w,
        ),
        check_for(at, ExprV::Num(text), Type::Int(w)).0 is None ==> check_for(
            at,
            ExprV::Num(text),
            Type::Int(w),
        ).1.len() > 0,
{
    reveal(literal_as_int);
}

/// An expression of literals that is accepted as an `int` of width `w` does not overflow when it
/// is computed: no step leaves 64 bits, and the value fits in `w` bits.
pub proof fn literal_overflow_is_caught(at: Visible, e: ExprV, w: u32)
    requires
        check_for(at, e, Type::Int(w)).0 is Some,
        !(e is ArrayLiteral),
    ensures
        !(fold(e) is Overflow),
        fold(e) matches Fold::Known(v) ==> fits(v, w),
{
    reveal(literal_as_int);
}

// ---------------------------------------------------------------------------
// Number words
// ---------------------------------------------------------------------------

/// Ten to the power `k`.
pub open spec fn ten_to(k: nat) -> nat
    decreases k,
{
    if k == 0 {
        1
    } else {
        10 * ten_to((k - 1) as nat)
    }
}

proof fn lemma_value_push(s: Seq<char>, c: char)
    ensures
        value(s.push(c)) == value(s) * 10 + digit_value(c),
{
    assert(s.push(c).drop_last() =~= s);
}

proof fn lemma_value_zeros(s: Seq<char>, f: Seq<char>, k: nat)
    requires
        f.len() <= k,
    ensures
        padded(f, k).len() == k,
        value(s + padded(f, k)) == value(s + f) * ten_to((k - f.len()) as nat),
    decreases k - f.len(),
{
    if f.len() < k {
        lemma_value_zeros(s, f.push('0'), k);
        assert(s + f.push('0') =~= (s + f).push('0'));
        lemma_value_push(s + f, '0');
        let v = value(s + f);
        let t = ten_to((k - f.len() - 1) as nat);
        assert((v * 10) * t == v * (10 * t)) by (nonlinear_arith);
    } else {
        assert(value(s + f) * 1 == value(s + f));
    }
}

proof fn lemma_value_strip(s: Seq<char>, i: int)
    requires
        0 <= i < s.len(),
    ensures
        i <= leading_zeros(s, i) < s.len(),
        value(s.subrange(leading_zeros(s, i), s.len() as int)) == value(s.subrange(i, s.len() as int)),
    decreases s.len() - i,
{
    if i + 1 < s.len() && s[i] == '0' {
        lemma_value_strip(s, i + 1);
        lemma_value_zero_first(s.subrange(i, s.len() as int));
        assert(s.subrange(i, s.len() as int).subrange(1, s.len() - i) =~= s.subrange(i + 1, s.len() as int));
    }
}

proof fn lemma_value_zero_first(s: Seq<char>)
    requires
        s.len() > 0,
        s[0] == '0',
    ensures
        value(s.subrange(1, s.len() as int)) == value(s),
    decreases s.len(),
{
    if s.len() == 1 {
        assert(s.subrange(1, 1) =~= Seq::empty());
        assert(s.drop_last() =~= Seq::empty());
    } else {
        let t = s.subrange(1, s.len() as int);
        lemma_value_zero_first(s.drop_last());
        assert(t.drop_last() =~= s.drop_last().subrange(1, s.len() - 1));
        assert(t.last() == s.last());
    }
}

/// A magnitude word multiplies: a whole number `s` with a word that stands for ten to the power
/// `k` is the number times ten to the power `k`.
pub proof fn magnitude_words_multiply(s: Seq<char>, k: nat)
    requires
        s.len() > 0,
        all_digits(s),
    ensures
        value(scaled(s, k)) == value(s) * ten_to(k),
{
    lemma_point_from(s, 0);
    let p = point_from(s, 0);
    if p < s.len() {
        assert(is_digit(s[p]));
    }
    assert(whole_part(s) =~= s);
    let f = padded(Seq::empty(), k);
    lemma_value_zeros(s, Seq::empty(), k);
    assert(s + Seq::<char>::empty() =~= s);
    assert(f.subrange(0, k as int) =~= f);
    let rest = f.subrange(k as int, f.len() as int);
    assert(rest =~= Seq::empty());
    assert(rest.subrange(0, trailing_zeros(rest, 0)).len() == 0);
    let whole = s + f;
    lemma_value_strip(whole, 0);
    assert(whole.subrange(0, whole.len() as int) =~= whole);
}

/// The magnitude words, the smallest first.
pub open spec fn magnitude_words() -> Seq<Seq<char>> {
    seq!["thousand"@, "million"@, "billion"@, "trillion"@, "quadrillion"@, "quintillion"@]
}

/// Each magnitude word stands for a thousand times what the word before it stands for, and the first one for a
/// thousand.
pub proof fn each_magnitude_word_is_a_thousand_times_the_last(i: int)
    requires
        0 <= i < magnitude_words().len(),
    ensures
        i == 0 ==> magnitude(magnitude_words()[i]) == Some(3nat),
        i > 0 ==> magnitude(magnitude_words()[i - 1]) is Some && magnitude(magnitude_words()[i]) == Some(
            (magnitude(magnitude_words()[i - 1])->0 + 3) as nat,
        ),
{
    reveal_strlit("thousand");
    reveal_strlit("million");
    reveal_strlit("billion");
    reveal_strlit("trillion");
    reveal_strlit("quadrillion");
    reveal_strlit("quintillion");
    assert("thousand"@[0] != "trillion"@[1]);
    assert("million"@[0] != "billion"@[0]);
    assert("thousand"@[1] != "trillion"@[1]);
    assert("quadrillion"@[2] != "quintillion"@[2]);
}

/// A minus in front of a number word gives the negative: the same numeral with a minus in front.
pub proof fn a_minus_negates_a_number_word(whole: Seq<char>, number: Seq<char>, word: Option<Seq<char>>)
    requires
        number.len() > 0,
        number[0] != '-',
    ensures
        literal_value(whole, number, word) is Ok <==> literal_value(whole, seq!['-'] + number, word) is Ok,
        literal_value(whole, number, word) is Ok ==> literal_value(whole, seq!['-'] + number, word)->Ok_0 == seq!['-']
            + literal_value(whole, number, word)->Ok_0,
{
    reveal_strlit("-");
    let minus = seq!['-'] + number;
    assert("-"@ =~= seq!['-']);
    assert(minus[0] == '-');
    assert(minus.subrange(1, minus.len() as int) =~= number);
    assert(unsigned(minus) == number);
    assert(unsigned(number) == number);
}

// ---------------------------------------------------------------------------
// Less work at run time
// ---------------------------------------------------------------------------

/// A chain of sums, differences, products or quotients of bignums or bigints accumulates in one
/// handle, and so does a chain of powers: where the left operand, or for a power the right one, is
/// a temporary, the operator calls one runtime function, makes no number and leaves as many
/// temporaries as there were.
pub proof fn chains_use_one_handle(w: Work, ty: Type, f: Rt, op: BinOp, l: Value, r: Value)
    requires
        fuses_left(op) && is_temp(w.temps, l, ty) || op is Pow && is_temp(w.temps, r, ty),
    ensures
        ({
            let (t, v) = big_arith(w, ty, f, op, l, r);
            let n = w.out.code.len() as int;
            &&& t.temps.len() == w.temps.len()
            &&& t.temps.last() == (Temp { value: v, ty })
            &&& t.out.code.take(n) == w.out.code
            &&& t.out.code.len() == n + 4
            &&& t.out.code[n].op is Unwrap
            &&& t.out.code[n + 1].op is Unwrap
            &&& t.out.code[n + 2].op == Op::Call(f)
            &&& t.out.code[n + 3].op is Wrap
        }),
{
    reveal(emit);
    reveal(give1);
    reveal(unwrap);
    reveal(wrap);
    reveal(run3);
    let (t, v) = big_arith(w, ty, f, op, l, r);
    lemma_find_temp(w.temps, l, ty, w.temps.len() as int);
    lemma_find_temp(w.temps, r, ty, w.temps.len() as int);
    assert(t.out.code.take(w.out.code.len() as int) =~= w.out.code);
}

proof fn lemma_find_temp(temps: Seq<Temp>, v: Value, ty: Type, n: int)
    ensures
        find_temp(temps, v, ty, n) matches Some(k) ==> 0 <= k < temps.len(),
    decreases n,
{
    if 0 < n <= temps.len() {
        lemma_find_temp(temps, v, ty, n - 1);
    }
}

/// A literal beside a bignum or a bigint in a loop is made before the loop: once the literals of
/// a loop are made, each of them is found again, in whatever way its number is spelled.
pub proof fn loop_literals_are_made_before_the_loop(s: State, list: Seq<SiteV>, n: nat, i: int, text: Seq<char>)
    requires
        0 <= i < n <= list.len(),
        list[i].text == shown(text),
    ensures
        hoist_all(s, list, n) matches Ok(t) ==> hoisted(t.bindings, text, list[i].ty) is Some,
    decreases n,
{
    if i < n - 1 {
        loop_literals_are_made_before_the_loop(s, list, (n - 1) as nat, i, text);
        if let Ok(u) = hoist_all(s, list, (n - 1) as nat) {
            if let Ok(t) = hoist(u, list[n - 1]) {
                if t.bindings != u.bindings {
                    let b = t.bindings.last();
                    assert(t.bindings =~= u.bindings.push(b));
                    lemma_found_still(u.bindings, b, list[i].text, list[i].ty, u.bindings.len() as int);
                }
            }
        }
    }
}

proof fn lemma_found_still(bs: Seq<BindingV>, b: BindingV, text: Seq<char>, ty: Type, n: int)
    requires
        n <= bs.len(),
    ensures
        find_binding(bs.push(b), text, ty, true, n) == find_binding(bs, text, ty, true, n),
    decreases n,
{
    if n > 0 {
        lemma_found_still(bs, b, text, ty, n - 1);
    }
}

// ---------------------------------------------------------------------------
// Settings
// ---------------------------------------------------------------------------

/// Without a link no settings file takes effect.
pub proof fn no_link_means_no_settings(has_source: bool, absolute: bool)
    ensures
        link_target(None, has_source, absolute) == Ok::<Option<Seq<char>>, Seq<char>>(None),
{
}

/// A link holds only if both sides agree: the program names the settings file, the file's first
/// line names a program by an absolute path, and that program is the one that links.
pub proof fn links_take_two(
    settings: Seq<char>,
    source: Seq<char>,
    allowed: Seq<char>,
    absolute: bool,
    source_error: Option<Seq<char>>,
    allowed_error: Option<Seq<char>>,
    same: bool,
)
    ensures
        link_problem(settings, source, allowed, absolute, source_error, allowed_error, same) is None <==> absolute
            && source_error is None && allowed_error is None && same,
{
}

/// Optimization is on unless a setting says otherwise: blank lines change nothing.
pub proof fn optimization_is_on_by_default(settings: Seq<char>, contents: Seq<char>)
    requires
        forall|i: int|
            1 <= i < lines_of(contents).len() ==> trimmed(#[trigger] lines_of(contents)[i]).len() == 0,
    ensures
        optimize_of(settings, contents) == Ok::<bool, Seq<char>>(true),
{
    lemma_blank(settings, lines_of(contents), lines_of(contents).len() as int);
}

proof fn lemma_blank(settings: Seq<char>, lines: Seq<Seq<char>>, n: int)
    requires
        n <= lines.len(),
        forall|i: int| 1 <= i < lines.len() ==> trimmed(#[trigger] lines[i]).len() == 0,
    ensures
        settings_upto(settings, lines, n) == Ok::<bool, Seq<char>>(true),
    decreases n,
{
    if n > 1 {
        lemma_blank(settings, lines, n - 1);
        assert(trimmed(lines[n - 1]).len() == 0);
    }
}

/// The line that turns optimization on or off.
pub open spec fn switch(on: bool) -> Seq<char> {
    if on {
        "optimize.true"@
    } else {
        "optimize.false"@
    }
}

/// A line that turns optimization on or off does so, whatever it was before and wherever the line stands.
pub proof fn a_setting_takes_its_value(settings: Seq<char>, i: int, line: Seq<char>, was: bool, on: bool)
    requires
        trimmed(line) == switch(on),
    ensures
        setting_line(settings, i, line, was) == Ok::<bool, Seq<char>>(on),
{
    reveal_strlit("optimize.true");
    reveal_strlit("optimize.false");
    reveal_strlit("optimize");
    reveal_strlit("true");
    reveal_strlit("false");
    let l = trimmed(line);
    assert(dot_from(l, 0) == 8) by {
        reveal_with_fuel(dot_from, 9);
    }
    assert(l.subrange(0, 8) =~= "optimize"@);
    if on {
        assert(l.subrange(9, l.len() as int) =~= "true"@);
    } else {
        assert(l.subrange(9, l.len() as int) =~= "false"@);
        assert("false"@.len() != "true"@.len());
    }
}

/// Of several settings in a file the last one counts.
pub proof fn the_last_setting_counts(settings: Seq<char>, lines: Seq<Seq<char>>, n: int, on: bool)
    requires
        1 < n <= lines.len(),
        settings_upto(settings, lines, n - 1) is Ok,
        trimmed(lines[n - 1]) == switch(on),
    ensures
        settings_upto(settings, lines, n) == Ok::<bool, Seq<char>>(on),
{
    a_setting_takes_its_value(settings, n - 1, lines[n - 1], settings_upto(settings, lines, n - 1)->Ok_0, on);
}

/// No bad line is passed over: if a line of a settings file is wrong, so is the file.
pub proof fn bad_settings_are_never_ignored(settings: Seq<char>, contents: Seq<char>, i: int, b: bool)
    requires
        1 <= i < lines_of(contents).len(),
        setting_line(settings, i, lines_of(contents)[i], b) is Err,
    ensures
        optimize_of(settings, contents) is Err,
{
    lemma_bad(settings, lines_of(contents), i, b, lines_of(contents).len() as int);
}

proof fn lemma_bad(settings: Seq<char>, lines: Seq<Seq<char>>, i: int, b: bool, n: int)
    requires
        1 <= i < n <= lines.len(),
        setting_line(settings, i, lines[i], b) is Err,
    ensures
        settings_upto(settings, lines, n) is Err,
    decreases n,
{
    if i < n - 1 {
        lemma_bad(settings, lines, i, b, n - 1);
    }
}

} // verus!
