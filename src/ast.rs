//! The syntax tree that the parser produces and the compiler lowers.
use vstd::prelude::*;

verus! {

broadcast use vstd::std_specs::vec::axiom_vec_index_decreases;

/// Weights are fixed-point numbers: this many units make a weight of one.
pub const WEIGHT_SCALE: u32 = 1000;

#[derive(PartialEq, Debug)]
pub struct BagEntry {
    /// The entry's weight in units of `1 / WEIGHT_SCALE`; `None` stands for one.
    pub weight: Option<u32>,
    pub value: Box<Expression>,
}

impl BagEntry {
    pub fn from_string(x: String) -> (r: BagEntry)
        ensures
            r.weight is None,
            *r.value == Expression::LiteralE(x),
    {
        BagEntry { weight: None, value: Box::new(Expression::LiteralE(x)) }
    }

    pub fn with_weight(self, weight: u32) -> (r: Self)
        ensures
            r.weight == Some(weight),
            r.value == self.value,
    {
        let mut s = self;
        s.weight = Some(weight);
        s
    }
}

#[derive(PartialEq, Debug)]
pub struct Bag {
    pub items: Vec<BagEntry>,
}

#[derive(PartialEq, Debug)]
pub struct Assignment {
    pub name: String,
    pub value: Box<Expression>,
}

#[derive(PartialEq, Debug)]
pub enum Statement {
    AssignmentS(Assignment),
}

#[derive(PartialEq, Debug)]
pub struct Pattern {
    pub parts: Vec<Expression>,
}

#[derive(PartialEq, Debug)]
pub enum Expression {
    LiteralE(String),
    VariableE(String),
    BagE(Bag),
    PatternE(Pattern),
    PropertyAccessE(Box<Expression>, String),
    TableE(Table),
    CallE(String, Vec<Expression>),
}

#[derive(PartialEq, Debug)]
pub enum TableEntry {
    Hole,
    Literal(Box<Expression>),
    Append(Box<Expression>),
}

#[derive(PartialEq, Debug)]
pub struct TableRow {
    /// The row's weight in units of `1 / WEIGHT_SCALE`; `None` stands for one.
    pub weight: Option<u32>,
    pub items: Vec<TableEntry>,
}

#[derive(PartialEq, Debug)]
pub struct Table {
    pub columns: Vec<String>,
    pub rows: Vec<TableRow>,
}

/// The weight that an optional weight stands for, in units.
pub open spec fn weight_or_one(w: Option<u32>) -> u64 {
    match w {
        Some(w) => w as u64,
        None => WEIGHT_SCALE as u64,
    }
}

/// Every weight in the tree is positive, and no bag or table has more rows
/// than a `u32` counts.
pub open spec fn well_weighted(e: Expression) -> bool
    decreases e,
{
    match e {
        Expression::LiteralE(_) => true,
        Expression::VariableE(_) => true,
        Expression::BagE(b) => {
            &&& b.items@.len() <= u32::MAX
            &&& forall|i: int|
                0 <= i < b.items@.len() ==> weight_or_one(#[trigger] b.items@[i].weight) > 0
                    && well_weighted(*b.items@[i].value)
        },
        Expression::PatternE(p) => forall|i: int|
            0 <= i < p.parts@.len() ==> well_weighted(#[trigger] p.parts@[i]),
        Expression::PropertyAccessE(base, _) => well_weighted(*base),
        Expression::TableE(t) => {
            &&& t.rows@.len() <= u32::MAX
            &&& forall|r: int|
                0 <= r < t.rows@.len() ==> weight_or_one(#[trigger] t.rows@[r].weight) > 0
                    && forall|c: int|
                    0 <= c < t.rows@[r].items@.len() ==> entry_well_weighted(
                        #[trigger] t.rows@[r].items@[c],
                    )
        },
        Expression::CallE(_, args) => forall|i: int|
            0 <= i < args@.len() ==> well_weighted(#[trigger] args@[i]),
    }
}

pub open spec fn entry_well_weighted(t: TableEntry) -> bool
    decreases t,
{
    match t {
        TableEntry::Hole => true,
        TableEntry::Literal(e) => well_weighted(*e),
        TableEntry::Append(e) => well_weighted(*e),
    }
}


/// `a` and `b` are the same tree: equal strings and weights, node by node.
pub open spec fn same_expr(a: Expression, b: Expression) -> bool
    decreases a,
{
    match a {
        Expression::LiteralE(s) => match b {
            Expression::LiteralE(t) => s@ == t@,
            _ => false,
        },
        Expression::VariableE(s) => match b {
            Expression::VariableE(t) => s@ == t@,
            _ => false,
        },
        Expression::BagE(x) => match b {
            Expression::BagE(y) => x.items@.len() == y.items@.len() && forall|i: int|
                0 <= i < x.items@.len() ==> (#[trigger] x.items@[i]).weight == y.items@[i].weight && same_expr(
                    *x.items@[i].value,
                    *y.items@[i].value,
                ),
            _ => false,
        },
        Expression::PatternE(p) => match b {
            Expression::PatternE(q) => p.parts@.len() == q.parts@.len() && forall|i: int|
                0 <= i < p.parts@.len() ==> same_expr(#[trigger] p.parts@[i], q.parts@[i]),
            _ => false,
        },
        Expression::PropertyAccessE(base, key) => match b {
            Expression::PropertyAccessE(b2, k2) => key@ == k2@ && same_expr(*base, *b2),
            _ => false,
        },
        Expression::TableE(t) => match b {
            Expression::TableE(u) => {
                &&& t.columns@.len() == u.columns@.len()
                &&& forall|c: int| 0 <= c < t.columns@.len() ==> (#[trigger] t.columns@[c])@ == u.columns@[c]@
                &&& t.rows@.len() == u.rows@.len()
                &&& forall|r: int|
                    0 <= r < t.rows@.len() ==> (#[trigger] t.rows@[r]).weight == u.rows@[r].weight && t.rows@[r].items@.len()
                        == u.rows@[r].items@.len() && forall|c: int|
                        0 <= c < t.rows@[r].items@.len() ==> match (#[trigger] t.rows@[r].items@[c]) {
                            TableEntry::Hole => u.rows@[r].items@[c] is Hole,
                            TableEntry::Literal(x) => match u.rows@[r].items@[c] {
                                TableEntry::Literal(y) => same_expr(*x, *y),
                                _ => false,
                            },
                            TableEntry::Append(x) => match u.rows@[r].items@[c] {
                                TableEntry::Append(y) => same_expr(*x, *y),
                                _ => false,
                            },
                        }
            },
            _ => false,
        },
        Expression::CallE(n, args) => match b {
            Expression::CallE(m, args2) => n@ == m@ && args@.len() == args2@.len() && forall|i: int|
                0 <= i < args@.len() ==> same_expr(#[trigger] args@[i], args2@[i]),
            _ => false,
        },
    }
}

/// `a` and `b` are the same table entry.
pub open spec fn same_entry(a: TableEntry, b: TableEntry) -> bool {
    match a {
        TableEntry::Hole => b is Hole,
        TableEntry::Literal(x) => match b {
            TableEntry::Literal(y) => same_expr(*x, *y),
            _ => false,
        },
        TableEntry::Append(x) => match b {
            TableEntry::Append(y) => same_expr(*x, *y),
            _ => false,
        },
    }
}

pub(crate) fn copy_expression(e: &Expression) -> (r: Expression)
    ensures
        same_expr(*e, r),
    decreases e,
{
    match e {
        Expression::LiteralE(s) => Expression::LiteralE(s.clone()),
        Expression::VariableE(s) => Expression::VariableE(s.clone()),
        Expression::BagE(b) => {
            let mut items: Vec<BagEntry> = Vec::new();
            let mut i: usize = 0;
            while i < b.items.len()
                invariant
                    0 <= i <= b.items@.len(),
                    *e == Expression::BagE(*b),
                    items@.len() == i,
                    forall|j: int|
                        0 <= j < i ==> (#[trigger] b.items@[j]).weight == items@[j].weight && same_expr(*b.items@[j].value, *items@[j].value),
                decreases b.items@.len() - i,
            {
                let entry = &b.items[i];
                proof {
                    assert(*b == e->BagE_0);
                    assert(decreases_to!(*e => e->BagE_0));
                    assert(decreases_to!(*b => b.items));
                    assert(decreases_to!(b.items => b.items[i as int]));
                    assert(decreases_to!(b.items[i as int] => b.items[i as int].value));
                    assert(decreases_to!(*e => *entry.value));
                }
                items.push(BagEntry { weight: entry.weight, value: Box::new(copy_expression(&entry.value)) });
                i = i + 1;
                assert forall|j: int| 0 <= j < i implies (#[trigger] b.items@[j]).weight == items@[j].weight && same_expr(*b.items@[j].value, *items@[j].value) by {
                    if j < i - 1 {
                    }
                }
            }
            Expression::BagE(Bag { items })
        },
        Expression::PatternE(p) => Expression::PatternE(Pattern { parts: copy_expressions(&p.parts) }),
        Expression::PropertyAccessE(base, key) => Expression::PropertyAccessE(
            Box::new(copy_expression(base)),
            key.clone(),
        ),
        Expression::TableE(t) => {
            let mut columns: Vec<String> = Vec::new();
            let mut i: usize = 0;
            while i < t.columns.len()
                invariant
                    0 <= i <= t.columns@.len(),
                    columns@.len() == i,
                    forall|j: int| 0 <= j < i ==> (#[trigger] t.columns@[j])@ == columns@[j]@,
                decreases t.columns@.len() - i,
            {
                columns.push(t.columns[i].clone());
                i = i + 1;
            }
            let mut rows: Vec<TableRow> = Vec::new();
            let mut j: usize = 0;
            while j < t.rows.len()
                invariant
                    0 <= j <= t.rows@.len(),
                    *e == Expression::TableE(*t),
                    rows@.len() == j,
                    forall|k: int|
                        0 <= k < j ==> (#[trigger] t.rows@[k]).weight == rows@[k].weight && t.rows@[k].items@.len()
                            == rows@[k].items@.len() && forall|c: int|
                            0 <= c < t.rows@[k].items@.len() ==> same_entry(#[trigger] t.rows@[k].items@[c], rows@[k].items@[c]),
                decreases t.rows@.len() - j,
            {
                let row = &t.rows[j];
                proof {
                    assert(*t == e->TableE_0);
                    assert(decreases_to!(*e => e->TableE_0));
                    assert(decreases_to!(*t => t.rows));
                    assert(decreases_to!(t.rows => t.rows[j as int]));
                    assert(decreases_to!(t.rows[j as int] => t.rows[j as int].items));
                    assert(decreases_to!(*e => row.items));
                }
                rows.push(TableRow { weight: row.weight, items: copy_entries(&row.items) });
                j = j + 1;
                assert forall|k: int| 0 <= k < j implies (#[trigger] t.rows@[k]).weight == rows@[k].weight && t.rows@[k].items@.len()
                    == rows@[k].items@.len() && forall|c: int|
                    0 <= c < t.rows@[k].items@.len() ==> same_entry(#[trigger] t.rows@[k].items@[c], rows@[k].items@[c]) by {
                    if k < j - 1 {
                    }
                }
            }
            Expression::TableE(Table { columns, rows })
        },
        Expression::CallE(name, args) => Expression::CallE(name.clone(), copy_expressions(args)),
    }
}

pub(crate) fn copy_expressions(v: &Vec<Expression>) -> (r: Vec<Expression>)
    ensures
        r@.len() == v@.len(),
        forall|i: int| 0 <= i < v@.len() ==> same_expr(#[trigger] v@[i], r@[i]),
    decreases v,
{
    let mut out: Vec<Expression> = Vec::new();
    let mut i: usize = 0;
    while i < v.len()
        invariant
            0 <= i <= v@.len(),
            out@.len() == i,
            forall|j: int| 0 <= j < i ==> same_expr(#[trigger] v@[j], out@[j]),
        decreases v@.len() - i,
    {
        out.push(copy_expression(&v[i]));
        i = i + 1;
        assert forall|j: int| 0 <= j < i implies same_expr(#[trigger] v@[j], out@[j]) by {
            if j < i - 1 {
            }
        }
    }
    out
}

pub(crate) fn copy_entries(v: &Vec<TableEntry>) -> (r: Vec<TableEntry>)
    ensures
        r@.len() == v@.len(),
        forall|i: int| 0 <= i < v@.len() ==> same_entry(#[trigger] v@[i], r@[i]),
    decreases v,
{
    let mut out: Vec<TableEntry> = Vec::new();
    let mut i: usize = 0;
    while i < v.len()
        invariant
            0 <= i <= v@.len(),
            out@.len() == i,
            forall|j: int| 0 <= j < i ==> same_entry(#[trigger] v@[j], out@[j]),
        decreases v@.len() - i,
    {
        let entry = match &v[i] {
            TableEntry::Hole => TableEntry::Hole,
            TableEntry::Literal(e) => TableEntry::Literal(Box::new(copy_expression(e))),
            TableEntry::Append(e) => TableEntry::Append(Box::new(copy_expression(e))),
        };
        out.push(entry);
        i = i + 1;
        assert forall|j: int| 0 <= j < i implies same_entry(#[trigger] v@[j], out@[j]) by {
            if j < i - 1 {
            }
        }
    }
    out
}

} // verus!
