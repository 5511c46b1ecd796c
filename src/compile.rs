//! The lowering pass: syntax tree to runtime expressions, with tables
//! flattened into one weighted bag per column.
use crate::ast;
use crate::ast::weight_or_one;
use crate::eval::{
    bag_wf, copy_hint, expr_wf, get_name_or_default, hint_name, strings_view, Bag, BuiltInFunction, CompiledScript,
    CompilerError, Expression, NameHint, Pattern, Table,
};
use crate::sampling::{accepted_weights, alias_weights, new_alias_table};
use vstd::prelude::*;
use vstd::string::*;

verus! {

broadcast use vstd::std_specs::vec::axiom_vec_index_decreases;

/// What a compile error says, as plain values.
pub enum CompileFailure {
    EmptyTable { name: Seq<char> },
    EmptyBag { name: Seq<char> },
    EmptyTableColumn { column_name: Seq<char>, in_variable: Seq<char> },
    InvalidTableRow { expected_columns: Seq<Seq<char>>, values: Seq<ast::TableEntry>, row_number: nat },
    AppendInFirstColumn { row_number: nat, in_variable: Seq<char> },
    UnknownFunction(Seq<char>),
    Parse { position: nat },
}

impl View for CompilerError {
    type V = CompileFailure;

    open spec fn view(&self) -> CompileFailure {
        match self {
            CompilerError::EmptyTable { name } => CompileFailure::EmptyTable { name: name@ },
            CompilerError::EmptyBag { name } => CompileFailure::EmptyBag { name: name@ },
            CompilerError::EmptyTableColumn { column_name, in_variable } => CompileFailure::EmptyTableColumn {
                column_name: column_name@,
                in_variable: in_variable@,
            },
            CompilerError::InvalidTableRow { expected_columns, values, row_number } => CompileFailure::InvalidTableRow {
                expected_columns: strings_view(expected_columns@),
                values: values@,
                row_number: *row_number as nat,
            },
            CompilerError::AppendInFirstColumn { row_number, in_variable } => CompileFailure::AppendInFirstColumn {
                row_number: *row_number as nat,
                in_variable: in_variable@,
            },
            CompilerError::UnknownFunction(name) => CompileFailure::UnknownFunction(name@),
            CompilerError::ParseError { position } => CompileFailure::Parse { position: *position as nat },
        }
    }
}

impl CompilerError {
    /// The error says what `f` says; the entries of an invalid row are
    /// compared node by node.
    pub open spec fn matches_failure(&self, f: CompileFailure) -> bool {
        match (self@, f) {
            (
                CompileFailure::InvalidTableRow { expected_columns: c1, values: v1, row_number: n1 },
                CompileFailure::InvalidTableRow { expected_columns: c2, values: v2, row_number: n2 },
            ) => c1 == c2 && n1 == n2 && v1.len() == v2.len() && forall|i: int|
                0 <= i < v1.len() ==> ast::same_entry(#[trigger] v2[i], v1[i]),
            _ => self@ == f,
        }
    }
}

pub open spec fn is_hole(t: ast::TableEntry) -> bool {
    t is Hole
}

/// How many of the first `k` rows fill column `c` (hold no hole there).
pub open spec fn col_count(rows: Seq<ast::TableRow>, c: int, k: int) -> nat
    decreases k,
{
    if k <= 0 {
        0
    } else if !is_hole(rows[k - 1].items@[c]) {
        col_count(rows, c, k - 1) + 1
    } else {
        col_count(rows, c, k - 1)
    }
}

/// The first error that lowering `a` meets, where `h` names the binding.
pub open spec fn lowering_error(a: ast::Expression, h: Seq<char>) -> Option<CompileFailure>
    decreases a,
{
    match a {
        ast::Expression::LiteralE(_) => None,
        ast::Expression::VariableE(_) => None,
        ast::Expression::PatternE(p) => list_error(p.parts, 0, h),
        ast::Expression::BagE(b) => match entries_error(b.items, 0, h) {
            Some(e) => Some(e),
            None => if b.items@.len() == 0 {
                Some(CompileFailure::EmptyBag { name: h })
            } else {
                None
            },
        },
        ast::Expression::PropertyAccessE(base, _) => lowering_error(*base, h),
        ast::Expression::CallE(name, args) => if BuiltInFunction::named(name@) is None {
            Some(CompileFailure::UnknownFunction(name@))
        } else {
            list_error(args, 0, h)
        },
        ast::Expression::TableE(t) => if t.columns@.len() == 0 {
            Some(CompileFailure::EmptyTable { name: h })
        } else {
            match rows_error(t.rows, strings_view(t.columns@), 0, h) {
                Some(e) => Some(e),
                None => empty_column_error(t.rows@, strings_view(t.columns@), 0, h),
            }
        },
    }
}

/// The first error among the expressions from index `i` on.
pub open spec fn list_error(v: Vec<ast::Expression>, i: int, h: Seq<char>) -> Option<CompileFailure>
    decreases v, v@.len() - i,
{
    if i < 0 || i >= v@.len() {
        None
    } else {
        match lowering_error(v@[i], h) {
            Some(e) => Some(e),
            None => list_error(v, i + 1, h),
        }
    }
}

/// The first error among the bag entries from index `i` on.
pub open spec fn entries_error(v: Vec<ast::BagEntry>, i: int, h: Seq<char>) -> Option<CompileFailure>
    decreases v, v@.len() - i,
{
    if i < 0 || i >= v@.len() {
        None
    } else {
        match lowering_error(*v@[i].value, h) {
            Some(e) => Some(e),
            None => entries_error(v, i + 1, h),
        }
    }
}

/// The first error among the table rows from index `r` on: a row of the
/// wrong width, an append in the first column, or an error in an entry.
pub open spec fn rows_error(rows: Vec<ast::TableRow>, cols: Seq<Seq<char>>, r: int, h: Seq<char>) -> Option<CompileFailure>
    decreases rows, rows@.len() - r,
{
    if r < 0 || r >= rows@.len() {
        None
    } else if rows@[r].items@.len() != cols.len() {
        Some(
            CompileFailure::InvalidTableRow {
                expected_columns: cols,
                values: rows@[r].items@,
                row_number: r as nat,
            },
        )
    } else if rows@[r].items@[0] is Append {
        Some(CompileFailure::AppendInFirstColumn { row_number: r as nat, in_variable: h })
    } else {
        match cells_error(rows@[r].items, 0, h) {
            Some(e) => Some(e),
            None => rows_error(rows, cols, r + 1, h),
        }
    }
}

/// The first error among the entries of a row from column `c` on.
pub open spec fn cells_error(items: Vec<ast::TableEntry>, c: int, h: Seq<char>) -> Option<CompileFailure>
    decreases items, items@.len() - c,
{
    if c < 0 || c >= items@.len() {
        None
    } else {
        match items@[c] {
            ast::TableEntry::Hole => cells_error(items, c + 1, h),
            ast::TableEntry::Literal(e) => match lowering_error(*e, h) {
                Some(err) => Some(err),
                None => cells_error(items, c + 1, h),
            },
            ast::TableEntry::Append(e) => match lowering_error(*e, h) {
                Some(err) => Some(err),
                None => cells_error(items, c + 1, h),
            },
        }
    }
}

/// The first column, from `c` on, that no row fills.
pub open spec fn empty_column_error(rows: Seq<ast::TableRow>, cols: Seq<Seq<char>>, c: int, h: Seq<char>) -> Option<CompileFailure>
    decreases cols.len() - c,
{
    if c < 0 || c >= cols.len() {
        None
    } else if col_count(rows, c, rows.len() as int) == 0 {
        Some(CompileFailure::EmptyTableColumn { column_name: cols[c], in_variable: h })
    } else {
        empty_column_error(rows, cols, c + 1, h)
    }
}

/// `x` is what lowering the syntax tree `a` yields: the same shape, bags with
/// one item and one weight per entry (a missing weight counts as one), and
/// for a table one bag per column that holds, for each row that fills that
/// column, in row order and with the row's weight, the entry's expression, or
/// for an append entry the pattern of the row's first entry (the empty
/// string where that is a hole) followed by the appended expression.
pub open spec fn lowers(a: ast::Expression, x: Expression) -> bool
    decreases a,
{
    match a {
        ast::Expression::LiteralE(s) => x == Expression::LiteralE(s),
        ast::Expression::VariableE(s) => x == Expression::VariableE(s),
        ast::Expression::PatternE(p) => x matches Expression::PatternE(q) && q.parts@.len() == p.parts@.len()
            && forall|i: int| 0 <= i < p.parts@.len() ==> lowers(#[trigger] p.parts@[i], q.parts@[i]),
        ast::Expression::BagE(b) => x matches Expression::BagE(y) && y.items@.len() == b.items@.len()
            && y.weights().len() == b.items@.len()
            && forall|i: int| 0 <= i < b.items@.len() ==> {
                &&& y.weights()[i] == weight_or_one(#[trigger] b.items@[i].weight)
                &&& lowers(*b.items@[i].value, y.items@[i])
            },
        ast::Expression::PropertyAccessE(base, key) => x matches Expression::PropertyAccessE(xb, xk) && xk == key
            && lowers(*base, *xb),
        ast::Expression::CallE(name, args) => x matches Expression::CallE(f, xargs) && BuiltInFunction::named(name@)
            == Some(f) && xargs@.len() == args@.len() && forall|i: int|
            0 <= i < args@.len() ==> lowers(#[trigger] args@[i], xargs@[i]),
        ast::Expression::TableE(t) => x matches Expression::TableE(y) && y.bags@.len() == t.columns@.len()
            && (forall|k: int| 0 <= k < t.rows@.len() ==> (#[trigger] t.rows@[k]).items@.len() == t.columns@.len())
            && forall|c: int| 0 <= c < t.columns@.len() ==> {
                &&& (#[trigger] y.bags@[c]).0 == t.columns@[c]
                &&& y.bags@[c].1.items@.len() == col_count(t.rows@, c, t.rows@.len() as int)
                &&& y.bags@[c].1.weights().len() == y.bags@[c].1.items@.len()
                &&& forall|k: int|
                    0 <= k < t.rows@.len() && c < (#[trigger] t.rows@[k]).items@.len() && !is_hole(t.rows@[k].items@[c])
                        ==> {
                        let j = col_count(t.rows@, c, k) as int;
                        &&& y.bags@[c].1.weights()[j] == weight_or_one(t.rows@[k].weight)
                        &&& cell_lowers(t.rows@[k], c, y.bags@[c].1.items@[j])
                    }
            },
    }
}


/// Every bag and table in `x` carries the name hint `h`.
pub open spec fn carries_hint(x: Expression, h: Option<NameHint>) -> bool
    decreases x,
{
    match x {
        Expression::LiteralE(_) => true,
        Expression::VariableE(_) => true,
        Expression::PatternE(p) => forall|i: int| 0 <= i < p.parts@.len() ==> carries_hint(#[trigger] p.parts@[i], h),
        Expression::BagE(b) => b.name_hint == h && forall|i: int|
            0 <= i < b.items@.len() ==> carries_hint(#[trigger] b.items@[i], h),
        Expression::TableE(t) => t.name_hint == h && forall|j: int|
            0 <= j < t.bags@.len() ==> (#[trigger] t.bags@[j]).1.name_hint == h && forall|i: int|
                0 <= i < t.bags@[j].1.items@.len() ==> carries_hint(#[trigger] t.bags@[j].1.items@[i], h),
        Expression::PropertyAccessE(base, _) => carries_hint(*base, h),
        Expression::CallE(_, args) => forall|i: int| 0 <= i < args@.len() ==> carries_hint(#[trigger] args@[i], h),
    }
}

/// `item` is what lowering entry `c` of `row` yields: the entry's expression,
/// or for an append entry the row's first entry followed by the appended one.
pub open spec fn cell_lowers(row: ast::TableRow, c: int, item: Expression) -> bool
    decreases row,
{
    if 0 <= c < row.items@.len() {
        match row.items@[c] {
            ast::TableEntry::Literal(e) => lowers(*e, item),
            ast::TableEntry::Append(e) => item matches Expression::PatternE(q) && q.parts@.len() == 2 && lowers(
                *e,
                q.parts@[1],
            ) && match row.items@[0] {
                ast::TableEntry::Literal(base) => lowers(*base, q.parts@[0]),
                ast::TableEntry::Hole => q.parts@[0] matches Expression::LiteralE(s) && s@.len() == 0,
                ast::TableEntry::Append(_) => false,
            },
            ast::TableEntry::Hole => true,
        }
    } else {
        false
    }
}

/// The error of one table entry alone.
pub open spec fn cell_error(t: ast::TableEntry, h: Seq<char>) -> Option<CompileFailure> {
    match t {
        ast::TableEntry::Hole => None,
        ast::TableEntry::Literal(e) => lowering_error(*e, h),
        ast::TableEntry::Append(e) => lowering_error(*e, h),
    }
}

/// Column `c` after the first `r` rows: one item and one weight per row that
/// fills it, each lowered from its entry.
pub open spec fn column_so_far(rows: Seq<ast::TableRow>, c: int, r: int, items: Seq<Expression>, weights: Seq<u64>) -> bool {
    &&& items.len() == col_count(rows, c, r)
    &&& weights.len() == items.len()
    &&& forall|i: int| 0 <= i < items.len() ==> expr_wf(#[trigger] items[i]) && 0 < weights[i] <= u32::MAX
    &&& forall|k: int|
        0 <= k < r && c < (#[trigger] rows[k]).items@.len() && !is_hole(rows[k].items@[c]) ==> {
            let j = col_count(rows, c, k) as int;
            &&& weights[j] == weight_or_one(rows[k].weight)
            &&& cell_lowers(rows[k], c, items[j])
        }
}

proof fn lemma_col_count(rows: Seq<ast::TableRow>, c: int, k1: int, k2: int)
    requires
        0 <= k1 <= k2,
    ensures
        col_count(rows, c, k1) <= col_count(rows, c, k2) <= k2,
        k1 < k2 && !is_hole(rows[k1].items@[c]) ==> col_count(rows, c, k1) < col_count(rows, c, k2),
    decreases k2,
{
    if k2 > 0 {
        if k1 < k2 {
            lemma_col_count(rows, c, k1, k2 - 1);
        } else {
            lemma_col_count(rows, c, k2 - 1, k2 - 1);
        }
    }
}

proof fn lemma_weight_room(n: u64)
    requires
        0 < n <= u32::MAX,
    ensures
        u32::MAX as u64 <= u64::MAX / n,
{
    assert((u32::MAX as int) * (n as int) <= u64::MAX as int) by (nonlinear_arith)
        requires
            0 < n <= u32::MAX,
    ;
    vstd::arithmetic::div_mod::lemma_div_is_ordered((u32::MAX as int) * (n as int), u64::MAX as int, n as int);
    vstd::arithmetic::div_mod::lemma_div_by_multiple(u32::MAX as int, n as int);
}

fn copy_strings(v: &Vec<String>) -> (r: Vec<String>)
    ensures
        r@ == v@,
{
    let mut out: Vec<String> = Vec::new();
    let mut i: usize = 0;
    while i < v.len()
        invariant
            0 <= i <= v@.len(),
            out@ == v@.subrange(0, i as int),
        decreases v@.len() - i,
    {
        out.push(v[i].clone());
        i = i + 1;
        assert(out@ =~= v@.subrange(0, i as int));
    }
    assert(v@.subrange(0, i as int) =~= v@);
    out
}

fn entry_weight(w: Option<u32>) -> (r: u64)
    ensures
        r == weight_or_one(w),
{
    match w {
        Some(w) => w as u64,
        None => ast::WEIGHT_SCALE as u64,
    }
}

proof fn lemma_column_hole(rows: Seq<ast::TableRow>, c: int, r: int, items: Seq<Expression>, weights: Seq<u64>)
    requires
        column_so_far(rows, c, r, items, weights),
        0 <= r < rows.len(),
        0 <= c < rows[r].items@.len(),
        is_hole(rows[r].items@[c]),
    ensures
        column_so_far(rows, c, r + 1, items, weights),
{
    assert forall|k: int|
        0 <= k < r + 1 && c < (#[trigger] rows[k]).items@.len() && !is_hole(rows[k].items@[c]) implies {
            let j = col_count(rows, c, k) as int;
            &&& weights[j] == weight_or_one(rows[k].weight)
            &&& cell_lowers(rows[k], c, items[j])
        } by {
        assert(k < r);
    }
}

proof fn lemma_column_push(
    rows: Seq<ast::TableRow>,
    c: int,
    r: int,
    items: Seq<Expression>,
    weights: Seq<u64>,
    x: Expression,
    w: u64,
)
    requires
        column_so_far(rows, c, r, items, weights),
        0 <= r < rows.len(),
        0 <= c < rows[r].items@.len(),
        !is_hole(rows[r].items@[c]),
        cell_lowers(rows[r], c, x),
        expr_wf(x),
        w == weight_or_one(rows[r].weight),
        0 < w <= u32::MAX,
    ensures
        column_so_far(rows, c, r + 1, items.push(x), weights.push(w)),
{
    let items2 = items.push(x);
    let weights2 = weights.push(w);
    assert forall|i: int| 0 <= i < items2.len() implies expr_wf(#[trigger] items2[i]) && 0 < weights2[i] <= u32::MAX by {
        if i < items.len() {
            assert(items2[i] == items[i]);
        }
    }
    assert forall|k: int|
        0 <= k < r + 1 && c < (#[trigger] rows[k]).items@.len() && !is_hole(rows[k].items@[c]) implies {
            let j = col_count(rows, c, k) as int;
            &&& weights2[j] == weight_or_one(rows[k].weight)
            &&& cell_lowers(rows[k], c, items2[j])
        } by {
        if k < r {
            lemma_col_count(rows, c, k, r);
        }
    }
}

impl CompiledScript {
    /// A bag of these items and weights, with the next id.
    fn make_bag(&mut self, items: Vec<Expression>, weights: Vec<u64>, name_hint: &Option<NameHint>) -> (r: Option<Bag>)
        requires
            0 < items@.len() <= u32::MAX,
            weights@.len() == items@.len(),
            forall|i: int| 0 <= i < items@.len() ==> expr_wf(#[trigger] items@[i]),
            forall|i: int| 0 <= i < weights@.len() ==> 0 < #[trigger] weights@[i] <= u32::MAX,
        ensures
            final(self).vars() == old(self).vars(),
            final(self).wf() == old(self).wf(),
            old(self).last_id() <= final(self).last_id(),
            r matches Some(b) && b.items@ == items@ && b.weights() == weights@ && bag_wf(b) && b.name_hint == *name_hint,
    {
        let id = self.next_id();
        proof {
            lemma_weight_room(weights@.len() as u64);
            assert(weights@[0] > 0);
            assert(accepted_weights(weights@));
        }
        match new_alias_table(weights) {
            Some(distribution) => Some(Bag { id, name_hint: copy_hint(name_hint), items, distribution }),
            None => None,
        }
    }

    /// Lowers a syntax tree to a runtime expression. `name_hint` names the
    /// binding in errors and on the bags made.
    pub fn transform_expression(&mut self, expression: &ast::Expression, name_hint: &Option<NameHint>) -> (r: Result<Expression, CompilerError>)
        requires
            ast::well_weighted(*expression),
        ensures
            final(self).vars() == old(self).vars(),
            final(self).wf() == old(self).wf(),
            old(self).last_id() <= final(self).last_id(),
            match lowering_error(*expression, hint_name(*name_hint)) {
                Some(f) => r matches Err(e) && e.matches_failure(f),
                None => r matches Ok(x) && lowers(*expression, x) && expr_wf(x) && carries_hint(x, *name_hint),
            },
        decreases expression,
    {
        match expression {
            ast::Expression::LiteralE(s) => {
                let x = Expression::LiteralE(s.clone());
                assert(lowers(*expression, x));
                Ok(x)
            },
            ast::Expression::VariableE(s) => {
                let x = Expression::VariableE(s.clone());
                assert(lowers(*expression, x));
                Ok(x)
            },
            ast::Expression::PatternE(p) => {
                proof {
                    assert(decreases_to!(*expression => expression->PatternE_0));
                }
                match self.transform_list(&p.parts, name_hint) {
                    Ok(parts) => {
                        assert forall|i: int| 0 <= i < parts@.len() implies expr_wf(#[trigger] parts@[i]) && carries_hint(parts@[i], *name_hint) by {
                            assert(lowers(p.parts@[i], parts@[i]));
                        }
                        Ok(Expression::PatternE(Pattern { parts }))
                    },
                    Err(err) => Err(err),
                }
            },
            ast::Expression::BagE(b) => {
                proof {
                    assert(decreases_to!(*expression => expression->BagE_0));
                }
                let ghost h = hint_name(*name_hint);
                let mut items: Vec<Expression> = Vec::new();
                let mut weights: Vec<u64> = Vec::new();
                let mut i: usize = 0;
                while i < b.items.len()
                    invariant
                        *expression == ast::Expression::BagE(*b),
                        h == hint_name(*name_hint),
                        ast::well_weighted(*expression),
                        self.vars() == old(self).vars(),
                        self.wf() == old(self).wf(),
                        old(self).last_id() <= self.last_id(),
                        0 <= i <= b.items@.len(),
                        entries_error(b.items, 0, h) == entries_error(b.items, i as int, h),
                        items@.len() == i,
                        weights@.len() == i,
                        forall|j: int|
                            0 <= j < i ==> {
                                &&& lowers(*b.items@[j].value, #[trigger] items@[j])
                                &&& expr_wf(items@[j])
                                &&& carries_hint(items@[j], *name_hint)
                                &&& weights@[j] == weight_or_one(b.items@[j].weight)
                                &&& 0 < weights@[j] <= u32::MAX
                            },
                    decreases b.items@.len() - i,
                {
                    let entry = &b.items[i];
                    proof {
                        assert(decreases_to!(b.items => b.items[i as int]));
                        assert(decreases_to!(b.items[i as int] => b.items[i as int].value));
                        assert(weight_or_one(b.items@[i as int].weight) > 0);
                    }
                    match self.transform_expression(&entry.value, name_hint) {
                        Ok(x) => {
                            items.push(x);
                            weights.push(entry_weight(entry.weight));
                            proof {
                                assert(entries_error(b.items, i as int, h) == entries_error(b.items, i as int + 1, h));
                            }
                        },
                        Err(err) => {
                            proof {
                                assert(entries_error(b.items, i as int, h) == lowering_error(*entry.value, h));
                            }
                            return Err(err);
                        },
                    }
                    i = i + 1;
                }
                proof {
                    assert(entries_error(b.items, i as int, h) is None);
                }
                if items.len() == 0 {
                    let e = CompilerError::EmptyBag { name: get_name_or_default(name_hint) };
                    assert(lowering_error(*expression, h) == Some(e@));
                    return Err(e);
                }
                assert forall|j: int| 0 <= j < weights@.len() implies 0 < #[trigger] weights@[j] <= u32::MAX by {
                    assert(lowers(*b.items@[j].value, items@[j]));
                }
                let ghost its = items@;
                let ghost ws = weights@;
                match self.make_bag(items, weights, name_hint) {
                    Some(bag) => {
                        let x = Expression::BagE(bag);
                        assert forall|j: int| 0 <= j < b.items@.len() implies {
                            &&& bag.weights()[j] == weight_or_one(#[trigger] b.items@[j].weight)
                            &&& lowers(*b.items@[j].value, bag.items@[j])
                        } by {
                            assert(lowers(*b.items@[j].value, its[j]));
                        }
                        assert(lowers(*expression, x));
                        assert(expr_wf(x));
                        assert forall|j: int| 0 <= j < bag.items@.len() implies carries_hint(#[trigger] bag.items@[j], *name_hint) by {
                            assert(lowers(*b.items@[j].value, its[j]));
                        }
                        assert(carries_hint(x, *name_hint));
                        assert(lowering_error(*expression, h) is None);
                        Ok(x)
                    },
                    None => Err(CompilerError::EmptyBag { name: get_name_or_default(name_hint) }),
                }
            },
            ast::Expression::PropertyAccessE(base, key) => {
                match self.transform_expression(base, name_hint) {
                    Ok(x) => Ok(Expression::PropertyAccessE(Box::new(x), key.clone())),
                    Err(err) => Err(err),
                }
            },
            ast::Expression::CallE(name, args) => {
                proof {
                    assert(decreases_to!(*expression => expression->CallE_1));
                }
                let function = match BuiltInFunction::try_parse(name.as_str()) {
                    Some(f) => f,
                    None => {
                        let e = CompilerError::UnknownFunction(name.clone());
                        assert(lowering_error(*expression, hint_name(*name_hint)) == Some(e@));
                        return Err(e);
                    },
                };
                match self.transform_list(args, name_hint) {
                    Ok(arguments) => {
                        assert forall|i: int| 0 <= i < arguments@.len() implies expr_wf(#[trigger] arguments@[i]) && carries_hint(arguments@[i], *name_hint) by {
                            assert(lowers(args@[i], arguments@[i]));
                        }
                        Ok(Expression::CallE(function, arguments))
                    },
                    Err(err) => Err(err),
                }
            },
            ast::Expression::TableE(t) => {
                proof {
                    assert(decreases_to!(*expression => expression->TableE_0));
                }
                self.transform_table(t, name_hint)
            },
        }
    }

    /// Lowers a list of expressions in order, stopping at the first error.
    fn transform_list(&mut self, v: &Vec<ast::Expression>, name_hint: &Option<NameHint>) -> (r: Result<Vec<Expression>, CompilerError>)
        requires
            forall|i: int| 0 <= i < v@.len() ==> ast::well_weighted(#[trigger] v@[i]),
        ensures
            final(self).vars() == old(self).vars(),
            final(self).wf() == old(self).wf(),
            old(self).last_id() <= final(self).last_id(),
            match list_error(*v, 0, hint_name(*name_hint)) {
                Some(f) => r matches Err(e) && e.matches_failure(f),
                None => r matches Ok(xs) && xs@.len() == v@.len() && forall|i: int|
                    0 <= i < v@.len() ==> lowers(#[trigger] v@[i], xs@[i]) && expr_wf(xs@[i]) && carries_hint(xs@[i], *name_hint),
            },
        decreases v,
    {
        let ghost h = hint_name(*name_hint);
        let mut out: Vec<Expression> = Vec::new();
        let mut i: usize = 0;
        while i < v.len()
            invariant
                forall|j: int| 0 <= j < v@.len() ==> ast::well_weighted(#[trigger] v@[j]),
                h == hint_name(*name_hint),
                self.vars() == old(self).vars(),
                self.wf() == old(self).wf(),
                old(self).last_id() <= self.last_id(),
                0 <= i <= v@.len(),
                list_error(*v, 0, h) == list_error(*v, i as int, h),
                out@.len() == i,
                forall|j: int| 0 <= j < i ==> lowers(v@[j], #[trigger] out@[j]) && expr_wf(out@[j]) && carries_hint(out@[j], *name_hint),
            decreases v@.len() - i,
        {
            match self.transform_expression(&v[i], name_hint) {
                Ok(x) => {
                    out.push(x);
                    proof {
                        assert(list_error(*v, i as int, h) == list_error(*v, i as int + 1, h));
                    }
                },
                Err(err) => {
                    proof {
                        assert(list_error(*v, i as int, h) == lowering_error(v@[i as int], h));
                    }
                    return Err(err);
                },
            }
            i = i + 1;
        }
        proof {
            assert(list_error(*v, i as int, h) is None);
        }
        Ok(out)
    }

    /// Flattens a table into one bag per column.
    fn transform_table(&mut self, t: &ast::Table, name_hint: &Option<NameHint>) -> (r: Result<Expression, CompilerError>)
        requires
            ast::well_weighted(ast::Expression::TableE(*t)),
        ensures
            final(self).vars() == old(self).vars(),
            final(self).wf() == old(self).wf(),
            old(self).last_id() <= final(self).last_id(),
            match lowering_error(ast::Expression::TableE(*t), hint_name(*name_hint)) {
                Some(f) => r matches Err(e) && e.matches_failure(f),
                None => r matches Ok(x) && lowers(ast::Expression::TableE(*t), x) && expr_wf(x) && carries_hint(x, *name_hint),
            },
        decreases t,
    {
        let ghost h = hint_name(*name_hint);
        let ghost cols = strings_view(t.columns@);
        let ghost rows = t.rows@;
        let n = t.columns.len();
        if n == 0 {
            let e = CompilerError::EmptyTable { name: get_name_or_default(name_hint) };
            assert(lowering_error(ast::Expression::TableE(*t), h) == Some(e@));
            return Err(e);
        }
        let mut col_items: Vec<Vec<Expression>> = Vec::new();
        let mut col_weights: Vec<Vec<u64>> = Vec::new();
        let mut c: usize = 0;
        while c < n
            invariant
                0 <= c <= n,
                col_items@.len() == c,
                col_weights@.len() == c,
                forall|j: int| 0 <= j < c ==> (#[trigger] col_items@[j])@.len() == 0 && col_weights@[j]@.len() == 0,
            decreases n - c,
        {
            col_items.push(Vec::new());
            col_weights.push(Vec::new());
            c = c + 1;
        }
        let mut r: usize = 0;
        while r < t.rows.len()
            invariant
                ast::well_weighted(ast::Expression::TableE(*t)),
                self.vars() == old(self).vars(),
                self.wf() == old(self).wf(),
                old(self).last_id() <= self.last_id(),
                n == t.columns@.len(),
                n > 0,
                rows == t.rows@,
                h == hint_name(*name_hint),
                cols == strings_view(t.columns@),
                0 <= r <= rows.len(),
                col_items@.len() == n,
                col_weights@.len() == n,
                rows_error(t.rows, cols, 0, h) == rows_error(t.rows, cols, r as int, h),
                forall|k: int| 0 <= k < r ==> (#[trigger] rows[k]).items@.len() == n && !(rows[k].items@[0] is Append),
                forall|j: int| 0 <= j < n ==> column_so_far(rows, j, r as int, (#[trigger] col_items@[j])@, col_weights@[j]@),
                forall|j: int, i: int| 0 <= j < n && 0 <= i < col_items@[j]@.len() ==> carries_hint(#[trigger] col_items@[j]@[i], *name_hint),
            decreases rows.len() - r,
        {
            let row = &t.rows[r];
            proof {
                assert(decreases_to!(t.rows => t.rows[r as int]));
                assert(decreases_to!(t.rows[r as int] => t.rows[r as int].items));
            }
            proof {
                assert(cols.len() == n);
                assert(weight_or_one(t.rows@[r as int].weight) > 0);
            }
            if row.items.len() != n {
                proof {
                    assert(rows_error(t.rows, cols, r as int, h) == Some(CompileFailure::InvalidTableRow {
                        expected_columns: cols,
                        values: row.items@,
                        row_number: r as nat,
                    }));
                }
                return Err(
                    CompilerError::InvalidTableRow {
                        expected_columns: copy_strings(&t.columns),
                        values: ast::copy_entries(&row.items),
                        row_number: r,
                    },
                );
            }
            if let ast::TableEntry::Append(_) = &row.items[0] {
                proof {
                    assert(rows_error(t.rows, cols, r as int, h) == Some(CompileFailure::AppendInFirstColumn {
                        row_number: r as nat,
                        in_variable: h,
                    }));
                }
                return Err(CompilerError::AppendInFirstColumn { row_number: r, in_variable: get_name_or_default(name_hint) });
            }
            let w = entry_weight(row.weight);
            assert(0 < w <= u32::MAX);
            let mut c: usize = 0;
            while c < n
                invariant
                    ast::well_weighted(ast::Expression::TableE(*t)),
                    self.vars() == old(self).vars(),
                    self.wf() == old(self).wf(),
                    old(self).last_id() <= self.last_id(),
                    n == t.columns@.len(),
                    rows == t.rows@,
                    h == hint_name(*name_hint),
                    cols == strings_view(t.columns@),
                    0 <= r < rows.len(),
                    *row == rows[r as int],
                    row.items@.len() == n,
                    !(row.items@[0] is Append),
                    w == weight_or_one(row.weight),
                    0 < w <= u32::MAX,
                    0 <= c <= n,
                    col_items@.len() == n,
                    col_weights@.len() == n,
                    rows_error(t.rows, cols, 0, h) == rows_error(t.rows, cols, r as int, h),
                    cells_error(row.items, 0, h) == cells_error(row.items, c as int, h),
                    forall|j: int| 0 <= j < c ==> cell_error(#[trigger] row.items@[j], h) is None,
                    forall|k: int| 0 <= k < r ==> (#[trigger] rows[k]).items@.len() == n && !(rows[k].items@[0] is Append),
                    forall|j: int|
                        0 <= j < n ==> column_so_far(
                            rows,
                            j,
                            if j < c { r + 1 } else { r as int },
                            (#[trigger] col_items@[j])@,
                            col_weights@[j]@,
                        ),
                    forall|j: int, i: int| 0 <= j < n && 0 <= i < col_items@[j]@.len() ==> carries_hint(#[trigger] col_items@[j]@[i], *name_hint),
                decreases n - c,
            {
                proof {
                    assert(decreases_to!(row.items => row.items[c as int]));
                    lemma_col_count(rows, c as int, r as int, r as int + 1);
                }
                let ghost old_items = col_items@;
                let ghost old_weights = col_weights@;
                proof {
                    assert(ast::entry_well_weighted(t.rows@[r as int].items@[c as int]));
                    assert(column_so_far(rows, c as int, r as int, old_items[c as int]@, old_weights[c as int]@));
                }
                match &row.items[c] {
                    ast::TableEntry::Hole => {
                        proof {
                            lemma_column_hole(rows, c as int, r as int, old_items[c as int]@, old_weights[c as int]@);
                        }
                    },
                    ast::TableEntry::Literal(e) => {
                        proof {
                            assert(decreases_to!(row.items[c as int] => row.items[c as int]->Literal_0));
                        }
                        match self.transform_expression(e, name_hint) {
                            Ok(x) => {
                                proof {
                                    lemma_column_push(rows, c as int, r as int, old_items[c as int]@, old_weights[c as int]@, x, w);
                                }
                                col_items[c].push(x);
                                col_weights[c].push(w);
                                proof {
                                    assert forall|j: int, i: int| 0 <= j < n && 0 <= i < col_items@[j]@.len() implies carries_hint(#[trigger] col_items@[j]@[i], *name_hint) by {
                                        if j != c || i < old_items[j]@.len() {
                                            assert(col_items@[j]@[i] == old_items[j]@[i]);
                                        } else {
                                            assert(col_items@[j]@[i] == x);
                                        }
                                    }
                                }
                            },
                            Err(err) => {
                                proof {
                                    assert(cells_error(row.items, c as int, h) == lowering_error(**e, h));
                                    assert(rows_error(t.rows, cols, r as int, h) == lowering_error(**e, h));
                                }
                                return Err(err);
                            },
                        }
                    },
                    ast::TableEntry::Append(e) => {
                        proof {
                            assert(decreases_to!(row.items[c as int] => row.items[c as int]->Append_0));
                        }
                        let x = match self.transform_expression(e, name_hint) {
                            Ok(x) => x,
                            Err(err) => {
                                proof {
                                    assert(cells_error(row.items, c as int, h) == lowering_error(**e, h));
                                    assert(rows_error(t.rows, cols, r as int, h) == lowering_error(**e, h));
                                }
                                return Err(err);
                            },
                        };
                        let base = match &row.items[0] {
                            ast::TableEntry::Literal(b) => {
                                proof {
                                    assert(decreases_to!(row.items => row.items[0]));
                                    assert(decreases_to!(row.items[0] => row.items[0]->Literal_0));
                                    assert(cell_error(row.items@[0], h) is None);
                                    assert(ast::entry_well_weighted(t.rows@[r as int].items@[0]));
                                }
                                match self.transform_expression(b, name_hint) {
                                    Ok(y) => y,
                                    Err(err) => return Err(err),
                                }
                            },
                            _ => Expression::LiteralE(String::new()),
                        };
                        let mut parts: Vec<Expression> = Vec::new();
                        parts.push(base);
                        parts.push(x);
                        let item = Expression::PatternE(Pattern { parts });
                        proof {
                            assert(expr_wf(parts@[0]));
                            assert(expr_wf(parts@[1]));
                            assert(expr_wf(item));
                            assert(parts@[0] == base && parts@[1] == x);
                            assert(cell_lowers(rows[r as int], c as int, item));
                            lemma_column_push(rows, c as int, r as int, old_items[c as int]@, old_weights[c as int]@, item, w);
                        }
                        assert(carries_hint(parts@[0], *name_hint) && carries_hint(parts@[1], *name_hint));
                        assert(carries_hint(item, *name_hint));
                        col_items[c].push(item);
                        col_weights[c].push(w);
                        proof {
                            assert forall|j: int, i: int| 0 <= j < n && 0 <= i < col_items@[j]@.len() implies carries_hint(#[trigger] col_items@[j]@[i], *name_hint) by {
                                if j != c || i < old_items[j]@.len() {
                                    assert(col_items@[j]@[i] == old_items[j]@[i]);
                                } else {
                                    assert(col_items@[j]@[i] == item);
                                }
                            }
                        }
                    },
                }
                proof {
                    assert(cell_error(row.items@[c as int], h) is None);
                    assert(cells_error(row.items, c as int, h) == cells_error(row.items, c as int + 1, h));
                    assert forall|j: int| 0 <= j < n && j != c implies col_items@[j] == old_items[j] && col_weights@[j] == old_weights[j] by {}
                }
                c = c + 1;
            }
            proof {
                assert(cells_error(row.items, n as int, h) is None);
                assert(rows_error(t.rows, cols, r as int, h) == rows_error(t.rows, cols, r as int + 1, h));
            }
            r = r + 1;
        }
        proof {
            assert(rows_error(t.rows, cols, r as int, h) is None);
        }
        let ghost all_items = col_items@;
        let ghost all_weights = col_weights@;
        let mut bags: Vec<(String, Bag)> = Vec::new();
        let mut c: usize = 0;
        while c < n
            invariant
                ast::well_weighted(ast::Expression::TableE(*t)),
                self.vars() == old(self).vars(),
                self.wf() == old(self).wf(),
                old(self).last_id() <= self.last_id(),
                n == t.columns@.len(),
                rows == t.rows@,
                h == hint_name(*name_hint),
                cols == strings_view(t.columns@),
                0 <= c <= n,
                all_items.len() == n,
                all_weights.len() == n,
                col_items@ == all_items.subrange(c as int, n as int),
                col_weights@ == all_weights.subrange(c as int, n as int),
                rows_error(t.rows, cols, 0, h) is None,
                forall|k: int| 0 <= k < rows.len() ==> (#[trigger] rows[k]).items@.len() == n,
                empty_column_error(rows, cols, 0, h) == empty_column_error(rows, cols, c as int, h),
                forall|j: int| 0 <= j < n ==> column_so_far(rows, j, rows.len() as int, (#[trigger] all_items[j])@, all_weights[j]@),
                forall|j: int, i: int| 0 <= j < n && 0 <= i < all_items[j]@.len() ==> carries_hint(#[trigger] all_items[j]@[i], *name_hint),
                bags@.len() == c,
                forall|j: int|
                    0 <= j < c ==> {
                        &&& (#[trigger] bags@[j]).0 == t.columns@[j]
                        &&& bags@[j].1.items@ == all_items[j]@
                        &&& bags@[j].1.weights() == all_weights[j]@
                        &&& bag_wf(bags@[j].1)
                        &&& bags@[j].1.name_hint == *name_hint
                    },
            decreases n - c,
        {
            let items = col_items.remove(0);
            let weights = col_weights.remove(0);
            assert(items == all_items[c as int]);
            assert(weights == all_weights[c as int]);
            proof {
                assert(column_so_far(rows, c as int, rows.len() as int, all_items[c as int]@, all_weights[c as int]@));
                assert(cols[c as int] == t.columns@[c as int]@);
            }
            if items.len() == 0 {
                proof {
                    assert(empty_column_error(rows, cols, c as int, h) == Some(CompileFailure::EmptyTableColumn {
                        column_name: cols[c as int],
                        in_variable: h,
                    }));
                }
                return Err(
                    CompilerError::EmptyTableColumn {
                        column_name: t.columns[c].clone(),
                        in_variable: get_name_or_default(name_hint),
                    },
                );
            }
            proof {
                lemma_col_count(rows, c as int, rows.len() as int, rows.len() as int);
                assert(empty_column_error(rows, cols, c as int, h) == empty_column_error(rows, cols, c as int + 1, h));
                assert forall|i: int| 0 <= i < weights@.len() implies 0 < #[trigger] weights@[i] <= u32::MAX by {
                    assert(expr_wf(items@[i]));
                }
            }
            match self.make_bag(items, weights, name_hint) {
                Some(bag) => {
                    bags.push((t.columns[c].clone(), bag));
                },
                None => {
                    return Err(CompilerError::EmptyTable { name: get_name_or_default(name_hint) });
                },
            }
            c = c + 1;
            assert(col_items@ =~= all_items.subrange(c as int, n as int));
            assert(col_weights@ =~= all_weights.subrange(c as int, n as int));
        }
        let tbl = Table { name_hint: copy_hint(name_hint), bags };
        proof {
            assert forall|j: int| 0 <= j < tbl.bags@.len() implies bag_wf(#[trigger] tbl.bags@[j].1) by {
                assert(bag_wf(bags@[j].1));
            }
            assert(crate::eval::table_wf(tbl));
        }
        let x = Expression::TableE(tbl);
        proof {
            assert(empty_column_error(rows, cols, c as int, h) is None);
            assert forall|j: int| 0 <= j < n implies {
                &&& (#[trigger] bags@[j]).0 == t.columns@[j]
                &&& bags@[j].1.items@.len() == col_count(t.rows@, j, t.rows@.len() as int)
                &&& bags@[j].1.weights().len() == bags@[j].1.items@.len()
                &&& forall|k: int|
                    0 <= k < t.rows@.len() && j < (#[trigger] t.rows@[k]).items@.len() && !is_hole(t.rows@[k].items@[j])
                        ==> {
                        let i = col_count(t.rows@, j, k) as int;
                        &&& bags@[j].1.weights()[i] == weight_or_one(t.rows@[k].weight)
                        &&& cell_lowers(t.rows@[k], j, bags@[j].1.items@[i])
                    }
            } by {
                assert(column_so_far(rows, j, rows.len() as int, all_items[j]@, all_weights[j]@));
            }
            assert(forall|k: int| 0 <= k < t.rows@.len() ==> (#[trigger] t.rows@[k]).items@.len() == t.columns@.len());
            assert(lowers(ast::Expression::TableE(*t), x));
            assert(expr_wf(x));
            assert forall|j: int| 0 <= j < tbl.bags@.len() implies (#[trigger] tbl.bags@[j]).1.name_hint == *name_hint && forall|i: int|
                0 <= i < tbl.bags@[j].1.items@.len() ==> carries_hint(#[trigger] tbl.bags@[j].1.items@[i], *name_hint) by {
                assert forall|i: int| 0 <= i < tbl.bags@[j].1.items@.len() implies carries_hint(#[trigger] tbl.bags@[j].1.items@[i], *name_hint) by {
                    assert(tbl.bags@[j].1.items@[i] == all_items[j]@[i]);
                }
            }
            assert(carries_hint(x, *name_hint));
            assert(lowering_error(ast::Expression::TableE(*t), h) is None);
        }
        Ok(x)
    }

    /// Compiles `name = value;` and binds the result to the name; on an
    /// error the bindings stay as they were.
    pub fn add_statement(&mut self, statement: ast::Statement) -> (r: Result<(), CompilerError>)
        requires
            old(self).wf(),
            statement_ok(statement),
        ensures
            final(self).wf(),
            old(self).last_id() <= final(self).last_id(),
            adds_statement(old(self).vars(), statement, final(self).vars(), r),
    {
        self.add_statement_ref(&statement)
    }

    fn add_statement_ref(&mut self, statement: &ast::Statement) -> (r: Result<(), CompilerError>)
        requires
            old(self).wf(),
            statement_ok(*statement),
        ensures
            final(self).wf(),
            old(self).last_id() <= final(self).last_id(),
            adds_statement(old(self).vars(), *statement, final(self).vars(), r),
    {
        match statement {
            ast::Statement::AssignmentS(assignment) => {
                let name_hint = Some(NameHint::InAssignment(assignment.name.clone()));
                assert(hint_name(name_hint) == assignment.name@);
                match self.transform_expression(&assignment.value, &name_hint) {
                    Ok(expression) => {
                        let ghost before = self.vars();
                        self.define_variable(assignment.name.clone(), expression);
                        assert(self.vars().drop_last() =~= before);
                        Ok(())
                    },
                    Err(e) => Err(e),
                }
            },
        }
    }
}

/// A statement whose weights are all positive.
pub open spec fn statement_ok(st: ast::Statement) -> bool {
    match st {
        ast::Statement::AssignmentS(a) => ast::well_weighted(*a.value),
    }
}

/// The error that compiling the statement meets, if any.
pub open spec fn statement_error(st: ast::Statement) -> Option<CompileFailure> {
    match st {
        ast::Statement::AssignmentS(a) => lowering_error(*a.value, a.name@),
    }
}

/// `b` is the binding that compiling the statement makes.
pub open spec fn binds(st: ast::Statement, b: (String, Expression)) -> bool {
    match st {
        ast::Statement::AssignmentS(a) => b.0 == a.name && lowers(*a.value, b.1),
    }
}

/// Compiling `st` on the bindings `before` gave `after` and `r`: the error
/// that the statement meets and no change, or one more binding at the end.
pub open spec fn adds_statement(
    before: Seq<(String, Expression)>,
    st: ast::Statement,
    after: Seq<(String, Expression)>,
    r: Result<(), CompilerError>,
) -> bool {
    match statement_error(st) {
        Some(f) => r matches Err(e) && e.matches_failure(f) && after == before,
        None => r is Ok && after.len() == before.len() + 1 && after.drop_last() == before && binds(st, after.last()),
    }
}

/// The first error among the statements, in order.
pub open spec fn statements_error(stmts: Seq<ast::Statement>) -> Option<CompileFailure>
    decreases stmts.len(),
{
    if stmts.len() == 0 {
        None
    } else {
        match statement_error(stmts[0]) {
            Some(e) => Some(e),
            None => statements_error(stmts.drop_first()),
        }
    }
}

/// `vars` are the bindings that compiling `stmts` in order makes.
pub open spec fn compiled_from(stmts: Seq<ast::Statement>, vars: Seq<(String, Expression)>) -> bool {
    &&& vars.len() == stmts.len()
    &&& forall|i: int| 0 <= i < stmts.len() ==> binds(#[trigger] stmts[i], vars[i])
}

/// Compiles statements in order into a new script, stopping at the first error.
pub fn compile_script(statements: Vec<ast::Statement>) -> (r: Result<CompiledScript, CompilerError>)
    requires
        forall|i: int| 0 <= i < statements@.len() ==> statement_ok(#[trigger] statements@[i]),
    ensures
        match statements_error(statements@) {
            Some(f) => r matches Err(e) && e.matches_failure(f),
            None => r matches Ok(s) && s.wf() && compiled_from(statements@, s.vars()),
        },
{
    let mut script = CompiledScript::new();
    let mut i: usize = 0;
    assert(statements@.subrange(0, statements@.len() as int) =~= statements@);
    assert(script.vars() =~= Seq::<(String, Expression)>::empty());
    while i < statements.len()
        invariant
            0 <= i <= statements@.len(),
            forall|j: int| 0 <= j < statements@.len() ==> statement_ok(#[trigger] statements@[j]),
            script.wf(),
            statements_error(statements@) == statements_error(statements@.subrange(i as int, statements@.len() as int)),
            compiled_from(statements@.subrange(0, i as int), script.vars()),
        decreases statements@.len() - i,
    {
        let ghost before = script.vars();
        let ghost rest = statements@.subrange(i as int, statements@.len() as int);
        assert(rest[0] == statements@[i as int]);
        assert(rest.drop_first() =~= statements@.subrange(i + 1, statements@.len() as int));
        match script.add_statement_ref(&statements[i]) {
            Ok(()) => {
                proof {
                    let done = statements@.subrange(0, i + 1);
                    assert forall|j: int| 0 <= j < done.len() implies binds(#[trigger] done[j], script.vars()[j]) by {
                        if j < i {
                            assert(done[j] == statements@.subrange(0, i as int)[j]);
                            assert(script.vars()[j] == script.vars().drop_last()[j]);
                        }
                    }
                }
            },
            Err(e) => {
                return Err(e);
            },
        }
        i = i + 1;
    }
    assert(statements@.subrange(0, i as int) =~= statements@);
    assert(statements@.subrange(i as int, statements@.len() as int).len() == 0);
    Ok(script)
}

} // verus!
