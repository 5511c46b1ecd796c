//! Laws that relate the compiler and the interpreter.
use crate::ast;
use crate::compile::{binds, cell_lowers, col_count, compiled_from, is_hole, lowers};
use crate::eval::{coerce_s, eval_s, parts_s, string_s, Bag, EvalFailure, Expression, Pattern, SValue};
use vstd::prelude::*;

verus! {

broadcast use vstd::std_specs::vec::axiom_vec_index_decreases;

/// Every expression in the list is a literal.
pub open spec fn all_literals(parts: Seq<Expression>) -> bool {
    forall|i: int| 0 <= i < parts.len() ==> (#[trigger] parts[i]) is LiteralE
}

/// The text of a literal expression.
pub open spec fn literal_text(e: Expression) -> Seq<char> {
    match e {
        Expression::LiteralE(s) => s@,
        _ => Seq::empty(),
    }
}

/// The texts of the literals, joined in order.
pub open spec fn literal_concat(parts: Seq<Expression>) -> Seq<char>
    decreases parts.len(),
{
    if parts.len() == 0 {
        Seq::empty()
    } else {
        literal_text(parts[0]) + literal_concat(parts.drop_first())
    }
}

/// Literal parts evaluate to their joined texts and draw nothing.
proof fn lemma_literal_parts(vars: Seq<(String, Expression)>, parts: Seq<Expression>, fuel: nat, d: Seq<usize>)
    requires
        all_literals(parts),
        fuel > 0,
    ensures
        parts_s(vars, parts, fuel, d) == (Ok::<Seq<char>, EvalFailure>(literal_concat(parts)), d),
    decreases parts.len(),
{
    if parts.len() > 0 {
        assert(parts[0] is LiteralE);
        let rest = parts.drop_first();
        assert forall|i: int| 0 <= i < rest.len() implies (#[trigger] rest[i]) is LiteralE by {
            assert(rest[i] == parts[i + 1]);
        }
        lemma_literal_parts(vars, rest, fuel, d);
        assert(string_s(vars, parts[0], fuel, d) == (Ok::<Seq<char>, EvalFailure>(literal_text(parts[0])), d));
    }
}

/// A literal evaluates to its text every time, whatever the draws, and
/// draws nothing.
pub proof fn law_literal_idempotent(vars: Seq<(String, Expression)>, s: String, fuel: nat, d1: Seq<usize>, d2: Seq<usize>)
    requires
        fuel > 0,
    ensures
        eval_s(vars, Expression::LiteralE(s), fuel, d1) == (Ok::<SValue, EvalFailure>(SValue::Str(s@)), d1),
        eval_s(vars, Expression::LiteralE(s), fuel, d1).0 == eval_s(vars, Expression::LiteralE(s), fuel, d2).0,
{
}

/// A pattern of literals evaluates to the literals' texts joined, every
/// time, whatever the draws, and draws nothing.
pub proof fn law_literal_pattern_idempotent(
    vars: Seq<(String, Expression)>,
    p: Pattern,
    fuel: nat,
    d1: Seq<usize>,
    d2: Seq<usize>,
)
    requires
        all_literals(p.parts@),
        fuel >= 2,
    ensures
        eval_s(vars, Expression::PatternE(p), fuel, d1) == (Ok::<SValue, EvalFailure>(SValue::Str(literal_concat(p.parts@))), d1),
        eval_s(vars, Expression::PatternE(p), fuel, d1).0 == eval_s(vars, Expression::PatternE(p), fuel, d2).0,
{
    lemma_literal_parts(vars, p.parts@, (fuel - 1) as nat, d1);
    lemma_literal_parts(vars, p.parts@, (fuel - 1) as nat, d2);
}

/// Coercing a string gives it back unchanged, and a literal evaluates and
/// coerces to exactly its text.
pub proof fn law_literal_coercion(vars: Seq<(String, Expression)>, s: String, fuel: nat, d: Seq<usize>)
    requires
        fuel > 0,
    ensures
        coerce_s(vars, SValue::Str(s@), fuel, d) == (Ok::<Seq<char>, EvalFailure>(s@), d),
        string_s(vars, Expression::LiteralE(s), fuel, d) == (Ok::<Seq<char>, EvalFailure>(s@), d),
{
    assert(eval_s(vars, Expression::LiteralE(s), fuel, d) == (Ok::<SValue, EvalFailure>(SValue::Str(s@)), d));
}

/// Coercing a bag draws one index and yields that item, evaluated and
/// coerced; where the items are literals it never fails and yields the text
/// of one of them.
pub proof fn law_bag_coercion(vars: Seq<(String, Expression)>, b: Bag, fuel: nat, d: Seq<usize>)
    requires
        b.wf(),
        fuel >= 2,
        d.len() > 0,
        d[0] < b.items@.len(),
    ensures
        coerce_s(vars, SValue::BagV(b), fuel, d) == string_s(vars, b.items@[d[0] as int], (fuel - 1) as nat, d.drop_first()),
        all_literals(b.items@) ==> exists|i: int|
            0 <= i < b.items@.len() && coerce_s(vars, SValue::BagV(b), fuel, d).0 == Ok::<Seq<char>, EvalFailure>(
                literal_text(#[trigger] b.items@[i]),
            ),
{
    if all_literals(b.items@) {
        let i = d[0] as int;
        assert(b.items@[i] is LiteralE);
        let s = b.items@[i]->LiteralE_0;
        law_literal_coercion(vars, s, (fuel - 1) as nat, d.drop_first());
        assert(coerce_s(vars, SValue::BagV(b), fuel, d).0 == Ok::<Seq<char>, EvalFailure>(literal_text(b.items@[i])));
    }
}

/// Flattening a table gives each column a bag with one item per row that
/// fills that column (holds no hole there), and each row one entry per column.
pub proof fn law_column_sizes(t: ast::Table, x: Expression)
    requires
        lowers(ast::Expression::TableE(t), x),
    ensures
        x matches Expression::TableE(y) && y.bags@.len() == t.columns@.len() && forall|c: int|
            0 <= c < t.columns@.len() ==> (#[trigger] y.bags@[c]).1.items@.len() == col_count(
                t.rows@,
                c,
                t.rows@.len() as int,
            ),
        forall|k: int| 0 <= k < t.rows@.len() ==> (#[trigger] t.rows@[k]).items@.len() == t.columns@.len(),
{
}

/// The text that a table entry stands for as a row's first entry, where it
/// is a literal string or a hole.
pub open spec fn base_text(entry: ast::TableEntry) -> Option<Seq<char>> {
    match entry {
        ast::TableEntry::Hole => Some(Seq::empty()),
        ast::TableEntry::Literal(e) => match *e {
            ast::Expression::LiteralE(s) => Some(s@),
            _ => None,
        },
        ast::TableEntry::Append(_) => None,
    }
}

/// In a flattened table, an append entry `+"s"` evaluates, whatever the
/// draws, to the row's first entry followed by `s`.
pub proof fn law_append_entry(
    vars: Seq<(String, Expression)>,
    t: ast::Table,
    x: Expression,
    c: int,
    k: int,
    suffix: String,
    fuel: nat,
    d: Seq<usize>,
)
    requires
        lowers(ast::Expression::TableE(t), x),
        0 <= c < t.columns@.len(),
        0 <= k < t.rows@.len(),
        t.rows@[k].items@[c] == ast::TableEntry::Append(Box::new(ast::Expression::LiteralE(suffix))),
        base_text(t.rows@[k].items@[0]) is Some,
        fuel >= 2,
    ensures
        x matches Expression::TableE(y) && eval_s(
            vars,
            y.bags@[c].1.items@[col_count(t.rows@, c, k) as int],
            fuel,
            d,
        ) == (Ok::<SValue, EvalFailure>(SValue::Str(base_text(t.rows@[k].items@[0])->Some_0 + suffix@)), d),
{
    let y = x->TableE_0;
    let row = t.rows@[k];
    assert(row.items@.len() == t.columns@.len());
    let item = y.bags@[c].1.items@[col_count(t.rows@, c, k) as int];
    assert(crate::compile::cell_lowers(row, c, item));
    let q = item->PatternE_0;
    assert(q.parts@[1] == Expression::LiteralE(suffix));
    assert(q.parts@[0] is LiteralE);
    assert(literal_text(q.parts@[0]) == base_text(row.items@[0])->Some_0);
    assert(all_literals(q.parts@));
    law_literal_pattern_idempotent(vars, q, fuel, d, d);
    let rest = q.parts@.drop_first();
    assert(rest.drop_first().len() == 0);
    assert(literal_concat(rest.drop_first()) =~= Seq::<char>::empty());
    assert(rest[0] == q.parts@[1]);
    assert(literal_concat(rest) == literal_text(rest[0]) + literal_concat(rest.drop_first()));
    assert(literal_concat(rest) =~= suffix@);
    assert(literal_concat(q.parts@) == literal_text(q.parts@[0]) + literal_concat(rest));
    assert(literal_concat(q.parts@) =~= base_text(row.items@[0])->Some_0 + suffix@);
}


/// Two bags draw alike: the same weights, and items of the same shape.
pub open spec fn same_bag_shape(b: Bag, c: Bag) -> bool
    decreases b,
{
    &&& b.items@.len() == c.items@.len()
    &&& b.weights() == c.weights()
    &&& forall|i: int| 0 <= i < b.items@.len() ==> same_shape(#[trigger] b.items@[i], c.items@[i])
}

/// Two runtime expressions have the same shape: they differ at most in the
/// ids and name hints of their bags and tables.
pub open spec fn same_shape(x: Expression, y: Expression) -> bool
    decreases x,
{
    match x {
        Expression::LiteralE(s) => y matches Expression::LiteralE(t) && s@ == t@,
        Expression::VariableE(s) => y matches Expression::VariableE(t) && s@ == t@,
        Expression::PatternE(p) => y matches Expression::PatternE(q) && p.parts@.len() == q.parts@.len() && forall|i: int|
            0 <= i < p.parts@.len() ==> same_shape(#[trigger] p.parts@[i], q.parts@[i]),
        Expression::BagE(b) => y matches Expression::BagE(c) && b.items@.len() == c.items@.len() && b.weights()
            == c.weights() && forall|i: int| 0 <= i < b.items@.len() ==> same_shape(#[trigger] b.items@[i], c.items@[i]),
        Expression::TableE(t) => y matches Expression::TableE(u) && t.bags@.len() == u.bags@.len() && forall|j: int|
            0 <= j < t.bags@.len() ==> {
                &&& (#[trigger] t.bags@[j]).0@ == u.bags@[j].0@
                &&& t.bags@[j].1.items@.len() == u.bags@[j].1.items@.len()
                &&& t.bags@[j].1.weights() == u.bags@[j].1.weights()
                &&& forall|i: int|
                    0 <= i < t.bags@[j].1.items@.len() ==> same_shape(
                        #[trigger] t.bags@[j].1.items@[i],
                        u.bags@[j].1.items@[i],
                    )
            },
        Expression::PropertyAccessE(base, key) => y matches Expression::PropertyAccessE(b2, k2) && key@ == k2@
            && same_shape(*base, *b2),
        Expression::CallE(f, args) => y matches Expression::CallE(g, args2) && f == g && args@.len() == args2@.len()
            && forall|i: int| 0 <= i < args@.len() ==> same_shape(#[trigger] args@[i], args2@[i]),
    }
}

/// Each item index of a column is the item of some row that fills it.
proof fn lemma_row_of_item(rows: Seq<ast::TableRow>, c: int, n: int, i: int) -> (k: int)
    requires
        0 <= n,
        0 <= i < col_count(rows, c, n),
    ensures
        0 <= k < n,
        !is_hole(rows[k].items@[c]),
        col_count(rows, c, k) == i,
    decreases n,
{
    if n > 0 && i < col_count(rows, c, n - 1) {
        lemma_row_of_item(rows, c, n - 1, i)
    } else {
        n - 1
    }
}

/// Two lowerings of one table entry have the same shape.
proof fn lemma_cell_same_shape(row: ast::TableRow, c: int, x: Expression, y: Expression)
    requires
        cell_lowers(row, c, x),
        cell_lowers(row, c, y),
        0 <= c < row.items@.len(),
        !is_hole(row.items@[c]),
    ensures
        same_shape(x, y),
    decreases row,
{
    assert(decreases_to!(row => row.items));
    assert(decreases_to!(row.items => row.items@[c]));
    match row.items@[c] {
        ast::TableEntry::Literal(e) => {
            assert(decreases_to!(row.items@[c] => row.items@[c]->Literal_0));
            lemma_lowers_same_shape(*e, x, y);
        },
        ast::TableEntry::Append(e) => {
            assert(decreases_to!(row.items@[c] => row.items@[c]->Append_0));
            let p = x->PatternE_0;
            let q = y->PatternE_0;
            lemma_lowers_same_shape(*e, p.parts@[1], q.parts@[1]);
            assert(decreases_to!(row.items => row.items@[0]));
            match row.items@[0] {
                ast::TableEntry::Literal(b) => {
                    assert(decreases_to!(row.items@[0] => row.items@[0]->Literal_0));
                    lemma_lowers_same_shape(*b, p.parts@[0], q.parts@[0]);
                },
                ast::TableEntry::Hole => {
                    let s0 = p.parts@[0]->LiteralE_0;
                    let t0 = q.parts@[0]->LiteralE_0;
                    assert(s0@ =~= t0@);
                },
                ast::TableEntry::Append(_) => {},
            }
            assert forall|i: int| 0 <= i < p.parts@.len() implies same_shape(#[trigger] p.parts@[i], q.parts@[i]) by {
                if i == 0 {
                } else {
                    assert(i == 1);
                }
            }
        },
        ast::TableEntry::Hole => {},
    }
}

/// Two lowerings of one syntax tree have the same shape: compiling is
/// deterministic up to bag ids and name hints.
pub proof fn lemma_lowers_same_shape(a: ast::Expression, x: Expression, y: Expression)
    requires
        lowers(a, x),
        lowers(a, y),
    ensures
        same_shape(x, y),
    decreases a,
{
    match a {
        ast::Expression::LiteralE(_) => {},
        ast::Expression::VariableE(_) => {},
        ast::Expression::PatternE(p) => {
            let xp = x->PatternE_0;
            let yp = y->PatternE_0;
            assert forall|i: int| 0 <= i < xp.parts@.len() implies same_shape(#[trigger] xp.parts@[i], yp.parts@[i]) by {
                assert(decreases_to!(a => a->PatternE_0));
                assert(decreases_to!(a->PatternE_0 => p.parts));
                assert(decreases_to!(p.parts => p.parts@[i]));
                lemma_lowers_same_shape(p.parts@[i], xp.parts@[i], yp.parts@[i]);
            }
        },
        ast::Expression::BagE(b) => {
            let xb = x->BagE_0;
            let yb = y->BagE_0;
            assert forall|i: int| 0 <= i < xb.items@.len() implies same_shape(#[trigger] xb.items@[i], yb.items@[i]) by {
                assert(decreases_to!(a => a->BagE_0));
                assert(decreases_to!(a->BagE_0 => b.items));
                assert(decreases_to!(b.items => b.items@[i]));
                assert(decreases_to!(b.items@[i] => b.items@[i].value));
                assert(xb.weights()[i] == crate::ast::weight_or_one(b.items@[i].weight));
                lemma_lowers_same_shape(*b.items@[i].value, xb.items@[i], yb.items@[i]);
            }
            assert forall|i: int| 0 <= i < xb.weights().len() implies xb.weights()[i] == yb.weights()[i] by {
                assert(xb.weights()[i] == crate::ast::weight_or_one(b.items@[i].weight));
            }
            assert(xb.weights() =~= yb.weights());
        },
        ast::Expression::PropertyAccessE(base, _) => {
            lemma_lowers_same_shape(*base, *x->PropertyAccessE_0, *y->PropertyAccessE_0);
        },
        ast::Expression::CallE(_, args) => {
            let xa = x->CallE_1;
            let ya = y->CallE_1;
            assert forall|i: int| 0 <= i < xa@.len() implies same_shape(#[trigger] xa@[i], ya@[i]) by {
                assert(decreases_to!(a => a->CallE_1));
                assert(decreases_to!(args => args@[i]));
                lemma_lowers_same_shape(args@[i], xa@[i], ya@[i]);
            }
        },
        ast::Expression::TableE(t) => {
            let xt = x->TableE_0;
            let yt = y->TableE_0;
            let rows = t.rows@;
            assert forall|j: int| 0 <= j < xt.bags@.len() implies {
                &&& (#[trigger] xt.bags@[j]).0@ == yt.bags@[j].0@
                &&& xt.bags@[j].1.items@.len() == yt.bags@[j].1.items@.len()
                &&& xt.bags@[j].1.weights() == yt.bags@[j].1.weights()
                &&& forall|i: int|
                    0 <= i < xt.bags@[j].1.items@.len() ==> same_shape(
                        #[trigger] xt.bags@[j].1.items@[i],
                        yt.bags@[j].1.items@[i],
                    )
            } by {
                let xb = xt.bags@[j].1;
                let yb = yt.bags@[j].1;
                assert(xt.bags@[j].0 == t.columns@[j]);
                assert(yt.bags@[j].0 == t.columns@[j]);
                assert forall|i: int| 0 <= i < xb.items@.len() implies {
                    &&& same_shape(#[trigger] xb.items@[i], yb.items@[i])
                    &&& xb.weights()[i] == yb.weights()[i]
                } by {
                    let k = lemma_row_of_item(rows, j, rows.len() as int, i);
                    assert(rows[k].items@.len() == t.columns@.len());
                    assert(cell_lowers(rows[k], j, xb.items@[i]));
                    assert(cell_lowers(rows[k], j, yb.items@[i]));
                    assert(decreases_to!(a => a->TableE_0));
                    assert(decreases_to!(a->TableE_0 => t.rows));
                    assert(decreases_to!(t.rows => t.rows@[k]));
                    lemma_cell_same_shape(rows[k], j, xb.items@[i], yb.items@[i]);
                }
                assert forall|i: int| 0 <= i < xb.weights().len() implies #[trigger] xb.weights()[i] == yb.weights()[i] by {
                    assert(same_shape(xb.items@[i], yb.items@[i]));
                }
                assert(xb.weights() =~= yb.weights());
            }
        },
    }
}

/// Compiling the same statements twice gives the same names bound, in the
/// same order, to expressions of the same shape: the same items with the
/// same weights in every bag.
pub proof fn law_compile_deterministic(
    stmts: Seq<ast::Statement>,
    v1: Seq<(String, Expression)>,
    v2: Seq<(String, Expression)>,
)
    requires
        compiled_from(stmts, v1),
        compiled_from(stmts, v2),
    ensures
        v1.len() == v2.len(),
        forall|i: int| 0 <= i < v1.len() ==> (#[trigger] v1[i]).0 == v2[i].0 && same_shape(v1[i].1, v2[i].1),
{
    assert forall|i: int| 0 <= i < v1.len() implies (#[trigger] v1[i]).0 == v2[i].0 && same_shape(v1[i].1, v2[i].1) by {
        assert(binds(stmts[i], v1[i]));
        assert(binds(stmts[i], v2[i]));
        match stmts[i] {
            ast::Statement::AssignmentS(a) => {
                lemma_lowers_same_shape(*a.value, v1[i].1, v2[i].1);
            },
        }
    }
}

} // verus!
