//! What a program shows: the text of a value, texts that are joined, and what `print` writes.

use vstd::prelude::*;
use crate::ast::SegmentV;
use crate::branching::lemma_inside;
use crate::confined::lemma_same;
use crate::control::own_free_texts;
use crate::emit::{call_list, const_str, fragment, give0, ids};
use crate::ir::{InstV, Op, Repr, Rt, Value};
use crate::layout::{escaped, lower_print, print_pieces, print_segments};
use crate::lower::{lower_expr, Scope, Work};
use crate::machine::{
    cells_of, format_from, formatted, given, lemma_emit, lemma_here, lemma_step, other_step, reaches, signed, step,
    text_call, text_in, within, Cell, Machine, Object, World,
};

verus! {

// ---------------------------------------------------------------------------
// Format strings
// ---------------------------------------------------------------------------

/// The operand `c` of a format string shows the text `s`, in the way in which values of a representation are
/// shown.
pub open spec fn showing(w: World, heap: Seq<Object>, repr: Repr, c: Cell, s: Seq<char>) -> bool {
    match repr {
        Repr::Float(_) => c is Float && (w.show)(c->Float_0) == s,
        Repr::Int(width) => if width == 1 {
            text_in(heap, c) == Some(s)
        } else {
            c is Number && signed(c->Number_0) == s
        },
        _ => text_in(heap, c) == Some(s),
    }
}

/// Format strings that are put together show what each of them shows, in order.
pub proof fn lemma_formats_join(
    w: World,
    heap: Seq<Object>,
    f: Seq<char>,
    a: Seq<Cell>,
    s: Seq<char>,
    g: Seq<char>,
    b: Seq<Cell>,
    t: Seq<char>,
)
    requires
        formatted(w, heap, f, a) == Some(s),
        formatted(w, heap, g, b) == Some(t),
    ensures
        formatted(w, heap, f + g, a + b) == Some(s + t),
    decreases f.len(),
{
    if f.len() == 0 {
        assert(f + g =~= g);
        assert(a + b =~= b);
        assert(s + t =~= t);
    } else if f[0] != '%' {
        let r = formatted(w, heap, f.skip(1), a)->0;
        lemma_formats_join(w, heap, f.skip(1), a, r, g, b, t);
        assert((f + g).skip(1) =~= f.skip(1) + g);
        assert(seq![f[0]] + (r + t) =~= s + t);
    } else if f.len() >= 2 && f[1] == '%' {
        let r = formatted(w, heap, f.skip(2), a)->0;
        lemma_formats_join(w, heap, f.skip(2), a, r, g, b, t);
        assert((f + g).skip(2) =~= f.skip(2) + g);
        assert(seq!['%'] + (r + t) =~= s + t);
    } else if f.len() >= 2 && f[1] == 'g' && a.len() > 0 && a[0] is Float {
        let r = formatted(w, heap, f.skip(2), a.skip(1))->0;
        lemma_formats_join(w, heap, f.skip(2), a.skip(1), r, g, b, t);
        assert((f + g).skip(2) =~= f.skip(2) + g);
        assert((a + b).skip(1) =~= a.skip(1) + b);
        assert((w.show)(a[0]->Float_0) + (r + t) =~= s + t);
    } else if f.len() >= 4 && f[1] == 'l' && f[2] == 'l' && f[3] == 'd' && a.len() > 0 && a[0] is Number {
        let r = formatted(w, heap, f.skip(4), a.skip(1))->0;
        lemma_formats_join(w, heap, f.skip(4), a.skip(1), r, g, b, t);
        assert((f + g).skip(4) =~= f.skip(4) + g);
        assert((a + b).skip(1) =~= a.skip(1) + b);
        assert(signed(a[0]->Number_0) + (r + t) =~= s + t);
    } else {
        let r = formatted(w, heap, f.skip(2), a.skip(1))->0;
        let x = text_in(heap, a[0])->0;
        lemma_formats_join(w, heap, f.skip(2), a.skip(1), r, g, b, t);
        assert((f + g).skip(2) =~= f.skip(2) + g);
        assert((a + b).skip(1) =~= a.skip(1) + b);
        assert(x + (r + t) =~= s + t);
    }
}

pub proof fn lemma_fragment(w: World, heap: Seq<Object>, repr: Repr, c: Cell, s: Seq<char>)
    requires
        showing(w, heap, repr, c, s),
    ensures
        formatted(w, heap, fragment(repr), seq![c]) == Some(s),
{
    reveal_strlit("%g");
    reveal_strlit("%s");
    reveal_strlit("%lld");
    let f = fragment(repr);
    let none = Seq::<Cell>::empty();
    assert(seq![c].skip(1) =~= none);
    assert(formatted(w, heap, Seq::empty(), none) == Some(Seq::<char>::empty()));
    assert(s + Seq::<char>::empty() =~= s);
    if f.len() == 2 {
        assert(f.skip(2) =~= Seq::empty());
    } else {
        assert(f.skip(4) =~= Seq::empty());
    }
}

proof fn lemma_plain(w: World, heap: Seq<Object>, c: char)
    requires
        c != '%',
    ensures
        formatted(w, heap, seq![c], Seq::empty()) == Some(seq![c]),
{
    assert(seq![c].skip(1) =~= Seq::empty());
    assert(formatted(w, heap, Seq::empty(), Seq::empty()) == Some(Seq::<char>::empty()));
    assert(seq![c] + Seq::<char>::empty() =~= seq![c]);
}

/// A text that is put into a format string is shown as it is, percent signs included.
pub proof fn escaped_texts_show_themselves(w: World, heap: Seq<Object>, s: Seq<char>)
    ensures
        formatted(w, heap, escaped(s), Seq::empty()) == Some(s),
    decreases s.len(),
{
    let none = Seq::<Cell>::empty();
    if s.len() > 0 {
        let r = s.drop_last();
        let c = s.last();
        escaped_texts_show_themselves(w, heap, r);
        assert(none + none =~= none);
        assert(r + seq![c] =~= s);
        if c == '%' {
            let g = seq!['%', '%'];
            assert(g.skip(2) =~= Seq::empty());
            assert(formatted(w, heap, Seq::empty(), none) == Some(Seq::<char>::empty()));
            assert(seq!['%'] + Seq::<char>::empty() =~= seq!['%']);
            assert(formatted(w, heap, g, none) == Some(seq!['%']));
            lemma_formats_join(w, heap, escaped(r), none, r, g, none, seq!['%']);
            assert(escaped(r) + g =~= escaped(s));
        } else {
            lemma_plain(w, heap, c);
            lemma_formats_join(w, heap, escaped(r), none, r, seq![c], none, seq![c]);
            assert(escaped(r) + seq![c] =~= escaped(s));
        }
    }
}

// ---------------------------------------------------------------------------
// Print
// ---------------------------------------------------------------------------

/// What the first `n` pieces of a `print` are put together: a text as it stands, and a value as the text that it
/// shows.
pub open spec fn joined(segments: Seq<SegmentV>, shown: Seq<Seq<char>>, n: nat) -> Seq<char>
    decreases n,
{
    if n == 0 {
        Seq::empty()
    } else {
        joined(segments, shown, (n - 1) as nat) + match segments[n - 1] {
            SegmentV::Str(t) => t,
            SegmentV::Expr(_) => shown[n - 1],
        }
    }
}

/// The operand for each value among the first `n` pieces of a `print` shows the text that is listed for it.
pub open spec fn operands_show(sc: Scope, w: Work, segments: Seq<SegmentV>, m: Machine, shown: Seq<Seq<char>>, n: nat) -> bool
    decreases n,
{
    n == 0 || (operands_show(sc, w, segments, m, shown, (n - 1) as nat) && match segments[n - 1] {
        SegmentV::Str(_) => true,
        SegmentV::Expr(e) => showing(
            m.around.world,
            m.around.heap,
            lower_expr(sc, print_pieces(sc, w, segments, (n - 1) as nat)->Ok_0.0, e)->Ok_0.1.repr,
            m.cells[print_pieces(sc, w, segments, n)->Ok_0.1.args.last().id as int],
            shown[n - 1],
        ),
    })
}

/// The cells of values in order.
pub open spec fn cells_at(m: Machine, vs: Seq<Value>) -> Seq<Cell> {
    Seq::new(vs.len(), |i: int| m.cells[vs[i].id as int])
}

proof fn lemma_pieces(sc: Scope, w: Work, segments: Seq<SegmentV>, m: Machine, shown: Seq<Seq<char>>, n: nat)
    requires
        n <= segments.len(),
        print_pieces(sc, w, segments, n) is Ok,
        operands_show(sc, w, segments, m, shown, n),
    ensures
        formatted(
            m.around.world,
            m.around.heap,
            print_pieces(sc, w, segments, n)->Ok_0.1.format,
            cells_at(m, print_pieces(sc, w, segments, n)->Ok_0.1.args),
        ) == Some(joined(segments, shown, n)),
    decreases n,
{
    let world = m.around.world;
    let heap = m.around.heap;
    let none = Seq::<Cell>::empty();
    let p = print_pieces(sc, w, segments, n)->Ok_0.1;
    if n == 0 {
        assert(cells_at(m, p.args) =~= none);
    } else {
        let k = (n - 1) as nat;
        lemma_pieces(sc, w, segments, m, shown, k);
        let (w1, q) = print_pieces(sc, w, segments, k)->Ok_0;
        let before = joined(segments, shown, k);
        match segments[n - 1] {
            SegmentV::Str(t) => {
                escaped_texts_show_themselves(world, heap, t);
                lemma_formats_join(world, heap, q.format, cells_at(m, q.args), before, escaped(t), none, t);
                assert(cells_at(m, q.args) + none =~= cells_at(m, p.args));
            },
            SegmentV::Expr(e) => {
                let v = lower_expr(sc, w1, e)->Ok_0.1;
                let c = m.cells[p.args.last().id as int];
                lemma_fragment(world, heap, v.repr, c, shown[n - 1]);
                lemma_formats_join(
                    world,
                    heap,
                    q.format,
                    cells_at(m, q.args),
                    before,
                    fragment(v.repr),
                    seq![c],
                    shown[n - 1],
                );
                assert(cells_at(m, q.args) + seq![c] =~= cells_at(m, p.args));
            },
        }
    }
}

/// A `print` to the screen shows its pieces in the order in which they stand, and a newline behind them: texts as
/// they are, and values as the texts that their operands show.
pub proof fn prints_show_their_pieces(
    code: Seq<InstV>,
    sc: Scope,
    w: Work,
    segments: Seq<SegmentV>,
    m: Machine,
    shown: Seq<Seq<char>>,
) -> (t: Machine)
    requires
        lower_print(sc, w, segments, None) is Ok,
        within(code, lower_print(sc, w, segments, None)->Ok_0.out),
        m.next == print_segments(sc, w, segments)->Ok_0.0.out.code.len(),
        operands_show(sc, w, segments, m, shown, segments.len()),
        forall|i: int|
            0 <= i < print_segments(sc, w, segments)->Ok_0.1.args.len() ==> (#[trigger] print_segments(
                sc,
                w,
                segments,
            )->Ok_0.1.args[i]).id < m.next,
    ensures
        reaches(code, m, t),
        t.next == m.next + 2,
        t.around.shown == m.around.shown + joined(segments, shown, segments.len()).push('\n'),
        t.around.heap == m.around.heap,
        t.memory == m.memory,
        t.stored == m.stored,
{
    let (w1, p) = print_segments(sc, w, segments)->Ok_0;
    let q = print_pieces(sc, w, segments, segments.len())->Ok_0.1;
    let (o1, format) = const_str(w1.out, p.format);
    let args = seq![format] + p.args;
    let (o2, _) = call_list(o1, Rt::Printf, args);
    let end = lower_print(sc, w, segments, None)->Ok_0.out;
    lemma_same(o2);
    own_free_texts(o2, o2, p.frees, p.frees.len());
    lemma_inside(code, o2, end);
    reveal(call_list);
    lemma_emit(code, o1, Op::Call(Rt::Printf), ids(args), ""@);
    reveal(const_str);
    reveal(give0);
    lemma_emit(code, w1.out, Op::ConstStr, Seq::empty(), p.format);
    lemma_here(code, m);
    assert(step(code, m) == given(m, Cell::Text(p.format))) by {
        reveal(step);
    }
    let m1 = lemma_step(code, m, m);
    let all = joined(segments, shown, segments.len());
    lemma_pieces(sc, w, segments, m, shown, segments.len());
    lemma_plain(m.around.world, m.around.heap, '\n');
    lemma_formats_join(
        m.around.world,
        m.around.heap,
        q.format,
        cells_at(m, q.args),
        all,
        seq!['\n'],
        Seq::empty(),
        seq!['\n'],
    );
    assert(q.format + seq!['\n'] =~= p.format);
    assert(cells_at(m, q.args) + Seq::<Cell>::empty() =~= cells_at(m, q.args));
    assert(all + seq!['\n'] =~= all.push('\n'));
    assert(cells_of(m1, ids(args).skip(1)) =~= cells_at(m, q.args)) by {
        assert forall|i: int| 0 <= i < q.args.len() implies cells_of(m1, ids(args).skip(1))[i] == cells_at(m, q.args)[i] by {
            assert(ids(args).skip(1)[i] == args[i + 1].id);
            assert(args[i + 1] == p.args[i]);
        }
    }
    assert(ids(args)[0] == format.id);
    assert(format_from(m1, ids(args), 0) == Some(all.push('\n')));
    assert(step(code, m1) is On && step(code, m1)->On_0.around.shown == m.around.shown + all.push('\n')
        && step(code, m1)->On_0.next == m.next + 2 && step(code, m1)->On_0.around.heap == m.around.heap
        && step(code, m1)->On_0.memory == m.memory && step(code, m1)->On_0.stored == m.stored) by {
        reveal(step);
        reveal(other_step);
        reveal(text_call);
    }
    lemma_step(code, m, m1)
}

} // verus!
