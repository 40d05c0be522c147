//! Values as texts: how a value is made into the operand of a format string that shows it, and what `stch`
//! puts together.

use vstd::prelude::*;
use crate::bigs::{is_object, kept_but, lemma_unwrap_runs};
use crate::branching::lemma_inside;
use crate::confined::{lemma_same, own_format_pair, own_free_shown, own_value_fmt};
use crate::emit::{
    call1, call_list, compile_concat, const_int, const_str, format_pair, fragment, free_shown, give0, give1, give2,
    give3, ids, null, pair_format, run1, unwrap, value_fmt, Out,
};
use crate::floats::{at_width, float_widths_change, is_float};
use crate::ir::{InstV, Op, Repr, Rt, Value};
use crate::machine::{
    bigint_call, bignum_call, cells_of, changed_object, format_from, formatted, given, holds, lemma_coerce_int_width,
    lemma_emit, lemma_here, lemma_step, lemma_then, made_object, number, other_step, reaches, signed, step, text,
    text_call, with_heap, within, Cell, Machine, Object, World,
};
use crate::showing::{lemma_formats_join, lemma_fragment, showing};
use crate::typing::fits;
use crate::wellformed::int_width;

verus! {

/// What a value is, to be shown.
pub enum Shown {
    Float(u32, int),
    Text(Seq<char>),
    Truth(bool),
    Whole(u32, int),
    Bigint(int, int),
    Bignum(int, int, int),
}

/// The value `v` is the value `x`.
pub open spec fn is_shown(m: Machine, v: Value, x: Shown) -> bool {
    match x {
        Shown::Float(width, a) => is_float(m, v, width, a),
        Shown::Text(s) => v.repr == Repr::Ptr && text(m, v.id) == Some(s),
        Shown::Truth(b) => v.repr == Repr::Int(1) && holds(
            m,
            v,
            if b {
                1
            } else {
                0
            },
        ),
        Shown::Whole(width, a) => v.repr == Repr::Int(width) && width != 1 && int_width(width) && holds(m, v, a) && fits(
            a,
            width,
        ),
        Shown::Bigint(at, a) => v.repr == Repr::BigInt && is_object(m, v, at, Object::Whole(a)),
        Shown::Bignum(at, p, a) => v.repr == Repr::Handle && is_object(m, v, at, Object::Decimal(p, a)),
    }
}

/// The text of a value: a truth value is `true` or `false`, a whole number is in decimal notation, and a text is
/// itself.
pub open spec fn text_for(w: World, x: Shown) -> Seq<char> {
    match x {
        Shown::Float(width, a) => (w.show)(at_width(w, width, 64, a)),
        Shown::Text(s) => s,
        Shown::Truth(b) => if b {
            "true"@
        } else {
            "false"@
        },
        Shown::Whole(_, a) => signed(a),
        Shown::Bigint(_, a) => signed(a),
        Shown::Bignum(_, _, a) => (w.big_show)(a),
    }
}

/// A value is made into an operand that shows its text.
pub proof fn values_show_their_text(code: Seq<InstV>, o: Out, v: Value, m: Machine, x: Shown) -> (t: Machine)
    requires
        value_fmt(o, v) is Ok,
        within(code, value_fmt(o, v)->Ok_0.0),
        m.next == o.code.len(),
        is_shown(m, v, x),
        v.id < o.code.len(),
    ensures
        within(code, o),
        reaches(code, m, t),
        t.next == value_fmt(o, v)->Ok_0.0.code.len(),
        o.code.len() <= value_fmt(o, v)->Ok_0.0.code.len(),
        value_fmt(o, v)->Ok_0.1.id < value_fmt(o, v)->Ok_0.0.code.len(),
        showing(
            t.around.world,
            t.around.heap,
            v.repr,
            t.cells[value_fmt(o, v)->Ok_0.1.id as int],
            text_for(m.around.world, x),
        ),
        kept_but(m, t, o.code.len() as int, -1),
        v.repr == Repr::Handle || v.repr == Repr::BigInt ==> t.cells[value_fmt(o, v)->Ok_0.1.id as int] == Cell::Object(
            m.around.heap.len() as int,
        ) && t.around.heap.len() == m.around.heap.len() + 1,
        !(v.repr == Repr::Handle || v.repr == Repr::BigInt) ==> t.around == m.around,
{
    reveal(value_fmt);
    lemma_here(code, m);
    match x {
        Shown::Float(width, a) => {
            let t = float_widths_change(code, o, v, width, 64, m, a);
            t
        },
        Shown::Text(_) => m,
        Shown::Truth(b) => {
            let (o1, yes) = const_str(o, "true"@);
            let (o2, no) = const_str(o1, "false"@);
            reveal(const_str);
            reveal(give0);
            reveal(give3);
            lemma_emit(code, o2, Op::Select, seq![v.id, yes.id, no.id], ""@);
            lemma_emit(code, o1, Op::ConstStr, Seq::empty(), "false"@);
            lemma_emit(code, o, Op::ConstStr, Seq::empty(), "true"@);
            assert(step(code, m) == given(m, Cell::Text("true"@))) by {
                reveal(step);
            }
            let m1 = lemma_step(code, m, m);
            assert(step(code, m1) == given(m1, Cell::Text("false"@))) by {
                reveal(step);
            }
            let m2 = lemma_step(code, m, m1);
            assert(m2.cells[v.id as int] == m.cells[v.id as int]);
            assert(step(code, m2) == given(
                m2,
                if b {
                    Cell::Text("true"@)
                } else {
                    Cell::Text("false"@)
                },
            )) by {
                reveal(step);
                reveal(other_step);
            }
            lemma_step(code, m, m2)
        },
        Shown::Whole(width, a) => {
            assert(fits(a, 64));
            lemma_coerce_int_width(code, o, v, width, 64, m, a)
        },
        Shown::Bigint(at, a) => {
            let (o1, p) = unwrap(o, v);
            reveal(call1);
            lemma_emit(code, o1, Op::Call(Rt::BigintToString), seq![p.id], ""@);
            let m1 = lemma_unwrap_runs(code, o, v, m);
            assert(step(code, m1) == made_object(m1, Object::Text(signed(a)))) by {
                reveal(step);
                reveal(other_step);
                reveal(bigint_call);
            }
            lemma_step(code, m, m1)
        },
        Shown::Bignum(at, p0, a) => {
            let (o1, p) = unwrap(o, v);
            reveal(call1);
            lemma_emit(code, o1, Op::Call(Rt::BignumToString), seq![p.id], ""@);
            let m1 = lemma_unwrap_runs(code, o, v, m);
            assert(step(code, m1) == made_object(m1, Object::Text((m.around.world.big_show)(a)))) by {
                reveal(step);
                reveal(other_step);
                reveal(bignum_call);
            }
            lemma_step(code, m, m1)
        },
    }
}

proof fn lemma_shown_later(w: World, heap: Seq<Object>, later: Seq<Object>, repr: Repr, c: Cell, s: Seq<char>)
    requires
        showing(w, heap, repr, c, s),
        heap.len() <= later.len(),
        forall|a: int| 0 <= a < heap.len() ==> #[trigger] later[a] == heap[a],
    ensures
        showing(w, later, repr, c, s),
{
}

proof fn lemma_pair_format(
    w: World,
    heap: Seq<Object>,
    lr: Repr,
    rr: Repr,
    c: Cell,
    d: Cell,
    s: Seq<char>,
    t: Seq<char>,
)
    requires
        showing(w, heap, lr, c, s),
        showing(w, heap, rr, d, t),
    ensures
        formatted(w, heap, pair_format(lr, rr), seq![c, d]) == Some(s + t),
{
    lemma_fragment(w, heap, lr, c, s);
    lemma_fragment(w, heap, rr, d, t);
    lemma_formats_join(w, heap, fragment(lr), seq![c], s, fragment(rr), seq![d], t);
    assert(seq![c] + seq![d] =~= seq![c, d]);
}

/// The two operands are put together in a new text.
proof fn lemma_format_pair(
    code: Seq<InstV>,
    o: Out,
    lr: Repr,
    rr: Repr,
    a: Value,
    b: Value,
    m: Machine,
    s: Seq<char>,
    t: Seq<char>,
) -> (u: Machine)
    requires
        within(code, format_pair(o, pair_format(lr, rr), a, b).0),
        m.next == o.code.len(),
        a.id < o.code.len(),
        b.id < o.code.len(),
        showing(m.around.world, m.around.heap, lr, m.cells[a.id as int], s),
        showing(m.around.world, m.around.heap, rr, m.cells[b.id as int], t),
    ensures
        within(code, o),
        reaches(code, m, u),
        o.code.len() <= format_pair(o, pair_format(lr, rr), a, b).0.code.len(),
        u.next == format_pair(o, pair_format(lr, rr), a, b).0.code.len(),
        format_pair(o, pair_format(lr, rr), a, b).1.id < u.next,
        o.code.len() <= format_pair(o, pair_format(lr, rr), a, b).1.id,
        is_object(u, format_pair(o, pair_format(lr, rr), a, b).1, m.around.heap.len() as int, Object::Text(s + t)),
        kept_but(m, u, o.code.len() as int, -1),
        u.around.heap.len() == m.around.heap.len() + 1,
{
    let format = pair_format(lr, rr);
    reveal(format_pair);
    reveal(const_str);
    reveal(null);
    reveal(const_int);
    reveal(call_list);
    reveal(call1);
    reveal(give0);
    reveal(give1);
    reveal(give2);
    let (o1, f) = const_str(o, format);
    let (o2, nowhere) = null(o1);
    let (o3, nothing) = const_int(o2, 64, 0);
    let first = seq![nowhere, nothing, f, a, b];
    let (o4, n) = call_list(o3, Rt::Snprintf, first);
    let (o5, wide) = give1(o4, Op::ZeroExtend(64), n, Repr::Int(64));
    let (o6, one) = const_int(o5, 64, 1);
    let (o7, size) = give2(o6, Op::IntAdd, wide, one, Repr::Int(64));
    let (o8, buffer) = call1(o7, Rt::Malloc, size);
    let second = seq![buffer, size, f, a, b];
    let (o9, filled) = call_list(o8, Rt::Snprintf, second);
    lemma_emit(code, o8, Op::Call(Rt::Snprintf), ids(second), ""@);
    lemma_emit(code, o7, Op::Call(Rt::Malloc), seq![size.id], ""@);
    lemma_emit(code, o6, Op::IntAdd, seq![wide.id, one.id], ""@);
    lemma_emit(code, o5, Op::ConstInt(64, 1), Seq::empty(), ""@);
    lemma_emit(code, o4, Op::ZeroExtend(64), seq![n.id], ""@);
    lemma_emit(code, o3, Op::Call(Rt::Snprintf), ids(first), ""@);
    lemma_emit(code, o2, Op::ConstInt(64, 0), Seq::empty(), ""@);
    lemma_emit(code, o1, Op::Null, Seq::empty(), ""@);
    lemma_emit(code, o, Op::ConstStr, Seq::empty(), format);
    let c = m.cells[a.id as int];
    let d = m.cells[b.id as int];
    let w = m.around.world;
    lemma_here(code, m);
    assert(step(code, m) == given(m, Cell::Text(format))) by {
        reveal(step);
    }
    let m1 = lemma_step(code, m, m);
    assert(step(code, m1) == given(m1, Cell::Null)) by {
        reveal(step);
        reveal(other_step);
    }
    let m2 = lemma_step(code, m, m1);
    assert(step(code, m2) == given(m2, Cell::Number(0))) by {
        reveal(step);
    }
    let m3 = lemma_step(code, m, m2);
    lemma_pair_format(w, m.around.heap, lr, rr, c, d, s, t);
    assert(ids(first)[0] == nowhere.id);
    assert(ids(first)[2] == f.id);
    assert(cells_of(m3, ids(first).skip(3)) =~= seq![c, d]) by {
        assert(ids(first).skip(3)[0] == a.id);
        assert(ids(first).skip(3)[1] == b.id);
    }
    assert(format_from(m3, ids(first), 2) == Some(s + t));
    assert(step(code, m3) == given(m3, Cell::Number((w.bytes)(s + t)))) by {
        reveal(step);
        reveal(other_step);
        reveal(text_call);
    }
    let m4 = lemma_step(code, m, m3);
    assert(step(code, m4) == given(m4, Cell::Number(number(m4, n.id)))) by {
        reveal(step);
        reveal(other_step);
    }
    let m5 = lemma_step(code, m, m4);
    assert(step(code, m5) == given(m5, Cell::Number(1))) by {
        reveal(step);
    }
    let m6 = lemma_step(code, m, m5);
    assert(step(code, m6) is On && exists|k: int| step(code, m6) == given(m6, Cell::Number(k))) by {
        reveal(step);
    }
    let k = choose|k: int| step(code, m6) == given(m6, Cell::Number(k));
    let m7 = lemma_step(code, m, m6);
    assert(step(code, m7) == made_object(m7, Object::Text(Seq::empty()))) by {
        reveal(step);
        reveal(other_step);
        reveal(text_call);
    }
    let m8 = lemma_step(code, m, m7);
    let later = m8.around.heap;
    lemma_shown_later(w, m.around.heap, later, lr, c, s);
    lemma_shown_later(w, m.around.heap, later, rr, d, t);
    lemma_pair_format(w, later, lr, rr, c, d, s, t);
    assert(ids(second)[0] == buffer.id);
    assert(ids(second)[2] == f.id);
    assert(cells_of(m8, ids(second).skip(3)) =~= seq![c, d]) by {
        assert(ids(second).skip(3)[0] == a.id);
        assert(ids(second).skip(3)[1] == b.id);
    }
    assert(format_from(m8, ids(second), 2) == Some(s + t));
    assert(step(code, m8) == given(
        with_heap(m8, later.update(m.around.heap.len() as int, Object::Text(s + t))),
        Cell::Number((w.bytes)(s + t)),
    )) by {
        reveal(step);
        reveal(other_step);
        reveal(text_call);
    }
    lemma_step(code, m, m8)
}

proof fn lemma_free_shown(code: Seq<InstV>, o: Out, repr: Repr, v: Value, m: Machine, at: int) -> (t: Machine)
    requires
        within(code, free_shown(o, repr, v)),
        m.next == o.code.len(),
        v.id < o.code.len(),
        repr == Repr::Handle || repr == Repr::BigInt ==> m.cells[v.id as int] == Cell::Object(at) && 0 <= at
            < m.around.heap.len() && m.around.heap[at] is Text,
    ensures
        within(code, o),
        reaches(code, m, t),
        t.next == free_shown(o, repr, v).code.len(),
        o.code.len() <= t.next,
        kept_but(m, t, o.code.len() as int, at),
        t.cells == m.cells,
        t.around.heap.len() == m.around.heap.len(),
{
    reveal(free_shown);
    lemma_here(code, m);
    if repr == Repr::Handle || repr == Repr::BigInt {
        reveal(run1);
        lemma_emit(code, o, Op::Call(Rt::Free), seq![v.id], ""@);
        assert(step(code, m) == changed_object(m, v.id, Object::Freed)) by {
            reveal(step);
            reveal(other_step);
            reveal(text_call);
        }
        lemma_step(code, m, m)
    } else {
        m
    }
}

/// `stch` gives the text of the value on the left with the text of the value on the right behind it, in a text
/// of its own; the values stay as they are.
pub proof fn texts_are_joined(code: Seq<InstV>, o: Out, l: Value, r: Value, m: Machine, x: Shown, y: Shown) -> (t: Machine)
    requires
        compile_concat(o, l, r) is Ok,
        within(code, compile_concat(o, l, r)->Ok_0.0),
        m.next == o.code.len(),
        is_shown(m, l, x),
        is_shown(m, r, y),
        l.id < o.code.len(),
        r.id < o.code.len(),
    ensures
        reaches(code, m, t),
        t.next == compile_concat(o, l, r)->Ok_0.0.code.len(),
        exists|a: int|
            a >= m.around.heap.len() && #[trigger] is_object(
                t,
                compile_concat(o, l, r)->Ok_0.1,
                a,
                Object::Text(text_for(m.around.world, x) + text_for(m.around.world, y)),
            ),
        kept_but(m, t, o.code.len() as int, -1),
{
    reveal(compile_concat);
    let (o1, a) = value_fmt(o, l)->Ok_0;
    let (o2, b) = value_fmt(o1, r)->Ok_0;
    let (o3, buffer) = format_pair(o2, pair_format(l.repr, r.repr), a, b);
    let o4 = free_shown(o3, l.repr, a);
    let o5 = free_shown(o4, r.repr, b);
    lemma_same(o4);
    own_free_shown(o4, o4, r.repr, b);
    lemma_inside(code, o4, o5);
    lemma_same(o3);
    own_free_shown(o3, o3, l.repr, a);
    lemma_inside(code, o3, o4);
    lemma_same(o2);
    own_format_pair(o2, o2, pair_format(l.repr, r.repr), a, b);
    lemma_inside(code, o2, o3);
    lemma_same(o1);
    own_value_fmt(o1, o1, r);
    lemma_inside(code, o1, o2);
    let w = m.around.world;
    let s = text_for(w, x);
    let u = text_for(w, y);
    let m1 = values_show_their_text(code, o, l, m, x);
    assert(is_shown(m1, r, y)) by {
        assert(m1.cells[r.id as int] == m.cells[r.id as int]);
    }
    let m2 = values_show_their_text(code, o1, r, m1, y);
    lemma_then(code, m, m1, m2);
    assert(m2.cells[a.id as int] == m1.cells[a.id as int]);
    lemma_shown_later(w, m1.around.heap, m2.around.heap, l.repr, m1.cells[a.id as int], s);
    let m3 = lemma_format_pair(code, o2, l.repr, r.repr, a, b, m2, s, u);
    lemma_then(code, m, m2, m3);
    let at = m.around.heap.len() as int;
    let bt = m1.around.heap.len() as int;
    let ct = m2.around.heap.len() as int;
    assert(m3.cells[a.id as int] == m2.cells[a.id as int]);
    assert(m3.cells[b.id as int] == m2.cells[b.id as int]);
    let made_l = l.repr == Repr::Handle || l.repr == Repr::BigInt;
    let made_r = r.repr == Repr::Handle || r.repr == Repr::BigInt;
    if made_l {
        assert(m2.around.heap[at] == m1.around.heap[at]);
        assert(m3.around.heap[at] == m2.around.heap[at]);
    }
    if made_r {
        assert(m3.around.heap[bt] == m2.around.heap[bt]);
    }
    let m4 = lemma_free_shown(
        code,
        o3,
        l.repr,
        a,
        m3,
        if made_l {
            at
        } else {
            -1
        },
    );
    lemma_then(code, m, m3, m4);
    let m5 = lemma_free_shown(
        code,
        o4,
        r.repr,
        b,
        m4,
        if made_r {
            bt
        } else {
            -1
        },
    );
    lemma_then(code, m, m4, m5);
    assert(m5.cells[buffer.id as int] == m3.cells[buffer.id as int]);
    assert(m4.around.heap[ct] == m3.around.heap[ct]);
    assert(m5.around.heap[ct] == m4.around.heap[ct]);
    assert(is_object(m5, buffer, ct, Object::Text(s + u)));
    assert(compile_concat(o, l, r)->Ok_0.1 == buffer);
    assert(ct >= m.around.heap.len());
    assert(is_object(m5, compile_concat(o, l, r)->Ok_0.1, ct, Object::Text(text_for(w, x) + text_for(w, y))));
    m5
}

} // verus!
