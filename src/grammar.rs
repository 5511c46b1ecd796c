//! The grammar of scripts, as functions from characters to syntax views:
//! each alternative is tried in order and the first that matches wins.
use crate::ast;
use crate::parser::{alphabetic, alphanumeric, escaped, is_space};
use vstd::prelude::*;

verus! {

broadcast use vstd::std_specs::vec::axiom_vec_index_decreases;

/// A syntax tree with its strings and lists as plain sequences.
pub enum ExprV {
    Lit(Seq<char>),
    Var(Seq<char>),
    Pat(Seq<ExprV>),
    Bag(Seq<(Option<u32>, ExprV)>),
    Prop(Seq<char>, Seq<char>),
    Call(Seq<char>, Seq<ExprV>),
    Tab(Seq<Seq<char>>, Seq<(Option<u32>, Seq<CellV>)>),
}

/// A table entry with its expression as a view.
pub enum CellV {
    Hole,
    Lit(ExprV),
    App(ExprV),
}

/// `e` is the syntax tree that the view `v` describes.
pub open spec fn expr_is(e: ast::Expression, v: ExprV) -> bool
    decreases e,
{
    match e {
        ast::Expression::LiteralE(s) => v == ExprV::Lit(s@),
        ast::Expression::VariableE(s) => v == ExprV::Var(s@),
        ast::Expression::PatternE(p) => match v {
            ExprV::Pat(vs) => vs.len() == p.parts@.len() && forall|i: int|
                0 <= i < vs.len() ==> expr_is(#[trigger] p.parts@[i], vs[i]),
            _ => false,
        },
        ast::Expression::BagE(b) => match v {
            ExprV::Bag(vs) => vs.len() == b.items@.len() && forall|i: int|
                0 <= i < vs.len() ==> (#[trigger] b.items@[i]).weight == vs[i].0 && expr_is(*b.items@[i].value, vs[i].1),
            _ => false,
        },
        ast::Expression::PropertyAccessE(base, key) => match v {
            ExprV::Prop(n, k) => key@ == k && match *base {
                ast::Expression::VariableE(bn) => bn@ == n,
                _ => false,
            },
            _ => false,
        },
        ast::Expression::CallE(name, args) => match v {
            ExprV::Call(n, vs) => name@ == n && vs.len() == args@.len() && forall|i: int|
                0 <= i < vs.len() ==> expr_is(#[trigger] args@[i], vs[i]),
            _ => false,
        },
        ast::Expression::TableE(t) => match v {
            ExprV::Tab(cols, rows) => {
                &&& cols.len() == t.columns@.len()
                &&& forall|c: int| 0 <= c < cols.len() ==> (#[trigger] t.columns@[c])@ == cols[c]
                &&& rows.len() == t.rows@.len()
                &&& forall|r: int|
                    0 <= r < rows.len() ==> (#[trigger] t.rows@[r]).weight == rows[r].0 && t.rows@[r].items@.len()
                        == rows[r].1.len() && forall|c: int|
                        0 <= c < rows[r].1.len() ==> match (#[trigger] t.rows@[r].items@[c]) {
                            ast::TableEntry::Hole => rows[r].1[c] == CellV::Hole,
                            ast::TableEntry::Literal(x) => rows[r].1[c] matches CellV::Lit(xv) && expr_is(*x, xv),
                            ast::TableEntry::Append(x) => rows[r].1[c] matches CellV::App(xv) && expr_is(*x, xv),
                        }
            },
            _ => false,
        },
    }
}

pub open spec fn cell_is(t: ast::TableEntry, v: CellV) -> bool {
    match t {
        ast::TableEntry::Hole => v == CellV::Hole,
        ast::TableEntry::Literal(x) => v matches CellV::Lit(xv) && expr_is(*x, xv),
        ast::TableEntry::Append(x) => v matches CellV::App(xv) && expr_is(*x, xv),
    }
}

pub open spec fn exprs_are(xs: Seq<ast::Expression>, vs: Seq<ExprV>) -> bool {
    xs.len() == vs.len() && forall|i: int| 0 <= i < xs.len() ==> expr_is(#[trigger] xs[i], vs[i])
}

/// `st` is the assignment of the expression that `v.1` describes to the name `v.0`.
pub open spec fn stmt_is(st: ast::Statement, v: (Seq<char>, ExprV)) -> bool {
    match st {
        ast::Statement::AssignmentS(a) => a.name@ == v.0 && expr_is(*a.value, v.1),
    }
}

pub open spec fn stmts_are(xs: Seq<ast::Statement>, vs: Seq<(Seq<char>, ExprV)>) -> bool {
    xs.len() == vs.len() && forall|i: int| 0 <= i < xs.len() ==> stmt_is(#[trigger] xs[i], vs[i])
}

/// The position after the whitespace at `p`.
pub open spec fn ws(s: Seq<char>, p: int) -> int
    decreases s.len() - p,
{
    if 0 <= p < s.len() && is_space(s[p]) {
        ws(s, p + 1)
    } else {
        p
    }
}

/// `b` lies between `a` and the end of `s`.
pub open spec fn fwd(s: Seq<char>, a: int, b: int) -> bool {
    a <= b <= s.len()
}

/// `b` lies after `a`, at most at the end of `s`.
pub open spec fn adv(s: Seq<char>, a: int, b: int) -> bool {
    a < b <= s.len()
}

/// Whether `c` stands at `p`.
pub open spec fn at(s: Seq<char>, p: int, c: char) -> bool {
    0 <= p < s.len() && s[p] == c
}

pub open spec fn ident_rest(s: Seq<char>, p: int) -> int
    decreases s.len() - p,
{
    if 0 <= p < s.len() && alphanumeric(s[p]) {
        ident_rest(s, p + 1)
    } else {
        p
    }
}

/// The end of the identifier at `p`: a letter, then letters and digits.
pub open spec fn ident(s: Seq<char>, p: int) -> Option<int> {
    if 0 <= p < s.len() && alphabetic(s[p]) {
        Some(ident_rest(s, p + 1))
    } else {
        None
    }
}

/// The rest of a string literal from `q`, with `acc` decoded so far.
pub open spec fn string_rest(s: Seq<char>, q: int, acc: Seq<char>) -> Option<(Seq<char>, int)>
    decreases s.len() - q,
{
    if q < 0 || q >= s.len() {
        None
    } else if s[q] == '"' {
        Some((acc, q + 1))
    } else if s[q] == '\\' {
        if q + 1 >= s.len() {
            None
        } else {
            match escaped(s[q + 1]) {
                Some(u) => string_rest(s, q + 2, acc.push(u)),
                None => None,
            }
        }
    } else {
        string_rest(s, q + 1, acc.push(s[q]))
    }
}

pub open spec fn string_lit(s: Seq<char>, p: int) -> Option<(Seq<char>, int)> {
    if at(s, p, '"') {
        string_rest(s, p + 1, Seq::empty())
    } else {
        None
    }
}

pub open spec fn digit_of(c: char) -> nat {
    ((c as nat) - ('0' as nat)) as nat
}

/// The digits from `q` on, added to `acc`; none where the value passes
/// `u32::MAX`.
pub open spec fn whole_digits(s: Seq<char>, q: int, acc: nat) -> Option<(nat, int)>
    decreases s.len() - q,
{
    if 0 <= q < s.len() && '0' <= s[q] <= '9' {
        let a = acc * 10 + digit_of(s[q]);
        if a > u32::MAX {
            None
        } else {
            whole_digits(s, q + 1, a)
        }
    } else {
        Some((acc, q))
    }
}

/// The fraction digits from `q` on, after the point at `e`; only the first
/// three count.
pub open spec fn fraction_digits(s: Seq<char>, q: int, e: int, acc: nat) -> (nat, int)
    decreases s.len() - q,
{
    if 0 <= q < s.len() && '0' <= s[q] <= '9' {
        fraction_digits(s, q + 1, e, if q - e - 1 < 3 { acc * 10 + digit_of(s[q]) } else { acc })
    } else {
        (acc, q)
    }
}

/// A positive weight in thousandths: digits, then a point and digits.
pub open spec fn weight(s: Seq<char>, pos: int) -> Option<(u32, int)> {
    match whole_digits(s, pos, 0) {
        None => None,
        Some((whole, e)) => {
            let has_point = at(s, e, '.');
            let (f, p) = fraction_digits(s, e + 1, e, 0);
            if (has_point && p == e + 1 && e == pos) || (!has_point && e == pos) {
                None
            } else {
                let frac: nat = if !has_point {
                    0
                } else if p - e - 1 == 1 {
                    f * 100
                } else if p - e - 1 == 2 {
                    f * 10
                } else {
                    f
                };
                let end = if has_point { p } else { e };
                let scaled = whole * 1000 + frac;
                if scaled == 0 || scaled > u32::MAX {
                    None
                } else {
                    Some((scaled as u32, end))
                }
            }
        },
    }
}

/// An expression: a pattern, a string, a table, a bag, a property access,
/// a call, or a variable.
pub open spec fn expr(s: Seq<char>, p: int) -> Option<(ExprV, int)>
    decreases s.len() - p, 2nat,
{
    if p < 0 || p > s.len() {
        None
    } else {
        match pattern(s, p) {
            Some((parts, q)) => Some((ExprV::Pat(parts), q)),
            None => match string_lit(s, p) {
                Some((t, q)) => Some((ExprV::Lit(t), q)),
                None => match table(s, p) {
                    Some((cols, rows, q)) => Some((ExprV::Tab(cols, rows), q)),
                    None => match bag(s, p) {
                        Some((items, q)) => Some((ExprV::Bag(items), q)),
                        None => named(s, p),
                    },
                },
            },
        }
    }
}

pub open spec fn named(s: Seq<char>, p: int) -> Option<(ExprV, int)>
    decreases s.len() - p, 1nat,
{
    match property(s, p) {
        Some(x) => Some(x),
        None => match call(s, p) {
            Some(x) => Some(x),
            None => match ident(s, p) {
                Some(e) => Some((ExprV::Var(s.subrange(p, e)), e)),
                None => None,
            },
        },
    }
}

pub open spec fn property(s: Seq<char>, p: int) -> Option<(ExprV, int)> {
    match ident(s, p) {
        None => None,
        Some(e) => if at(s, e, '.') {
            match ident(s, e + 1) {
                Some(e2) => Some((ExprV::Prop(s.subrange(p, e), s.subrange(e + 1, e2)), e2)),
                None => None,
            }
        } else {
            None
        },
    }
}

pub open spec fn call(s: Seq<char>, p: int) -> Option<(ExprV, int)>
    decreases s.len() - p, 0nat,
{
    match ident(s, p) {
        None => None,
        Some(e) => if at(s, e, '(') && e + 1 <= s.len() {
            let q = ws(s, e + 1);
            let args = if !adv(s, p, q) {
                None
            } else {
                match expr(s, q) {
                    Some((first, q2)) => if adv(s, p, q2) { call_args(s, q2, seq![first]) } else { None },
                    None => Some((Seq::empty(), q)),
                }
            };
            call_finish(s, p, e, args)
        } else {
            None
        },
    }
}

/// A call's closing parenthesis after its arguments.
pub open spec fn call_finish(s: Seq<char>, p: int, e: int, args: Option<(Seq<ExprV>, int)>) -> Option<(ExprV, int)> {
    match args {
        None => None,
        Some((vs, q5)) => {
            let q6 = ws(s, q5);
            if at(s, q6, ')') {
                Some((ExprV::Call(s.subrange(p, e), vs), q6 + 1))
            } else {
                None
            }
        },
    }
}

/// Further arguments of a call, each after a comma.
pub open spec fn call_args(s: Seq<char>, q: int, acc: Seq<ExprV>) -> Option<(Seq<ExprV>, int)>
    decreases s.len() - q, 3nat,
{
    if q < 0 || q > s.len() {
        None
    } else {
        let q3 = ws(s, q);
        if at(s, q3, ',') {
            let q4 = ws(s, q3 + 1);
            if !fwd(s, q, q4) {
                None
            } else {
                match expr(s, q4) {
                    Some((a, q5)) => if adv(s, q, q5) { call_args(s, q5, acc.push(a)) } else { None },
                    None => None,
                }
            }
        } else {
            Some((acc, q))
        }
    }
}

pub open spec fn pattern(s: Seq<char>, p: int) -> Option<(Seq<ExprV>, int)>
    decreases s.len() - p, 0nat,
{
    if at(s, p, '{') {
        pattern_rest(s, p + 1, Seq::empty())
    } else {
        None
    }
}

pub open spec fn pattern_rest(s: Seq<char>, q: int, acc: Seq<ExprV>) -> Option<(Seq<ExprV>, int)>
    decreases s.len() - q, 3nat,
{
    if q < 0 || q > s.len() {
        None
    } else {
        let q1 = ws(s, q);
        if !fwd(s, q, q1) {
            None
        } else {
            match expr(s, q1) {
                Some((e, q2)) => if adv(s, q, q2) { pattern_rest(s, q2, acc.push(e)) } else { None },
                None => if at(s, q1, '}') {
                    Some((acc, q1 + 1))
                } else {
                    None
                },
            }
        }
    }
}

pub open spec fn bag_entry(s: Seq<char>, p: int) -> Option<((Option<u32>, ExprV), int)>
    decreases s.len() - p, 3nat,
{
    let q1 = ws(s, p);
    let (w, q2) = match weight(s, q1) {
        Some((w, q2)) => (Some(w), q2),
        None => (None, q1),
    };
    let q3 = ws(s, q2);
    if q3 < p || q3 > s.len() {
        None
    } else {
        match expr(s, q3) {
            Some((v, q4)) => Some(((w, v), q4)),
            None => None,
        }
    }
}

pub open spec fn bag(s: Seq<char>, p: int) -> Option<(Seq<(Option<u32>, ExprV)>, int)>
    decreases s.len() - p, 0nat,
{
    if 0 <= p && p + 3 <= s.len() && s.subrange(p, p + 3) == "bag"@ {
        let q = ws(s, p + 3);
        if at(s, q, '[') && p < q {
            bag_rest(s, q + 1, true, Seq::empty())
        } else {
            None
        }
    } else {
        None
    }
}

pub open spec fn bag_close(s: Seq<char>, q: int, acc: Seq<(Option<u32>, ExprV)>) -> Option<(Seq<(Option<u32>, ExprV)>, int)> {
    if acc.len() > u32::MAX {
        None
    } else if at(s, q, ']') {
        Some((acc, q + 1))
    } else {
        None
    }
}

pub open spec fn bag_rest(s: Seq<char>, q: int, first: bool, acc: Seq<(Option<u32>, ExprV)>) -> Option<
    (Seq<(Option<u32>, ExprV)>, int),
>
    decreases s.len() - q, 4nat,
{
    if q < 0 || q > s.len() {
        None
    } else if !first && !at(s, q, ',') {
        bag_close(s, q, acc)
    } else {
        let start = if first { q } else { q + 1 };
        match bag_entry(s, start) {
            Some((entry, q4)) => {
                let q5 = ws(s, q4);
                if adv(s, q, q5) { bag_rest(s, q5, false, acc.push(entry)) } else { None }
            },
            None => if first {
                bag_close(s, q, acc)
            } else {
                None
            },
        }
    }
}

pub open spec fn letters_end(s: Seq<char>, q: int) -> int
    decreases s.len() - q,
{
    if 0 <= q < s.len() && (('a' <= s[q] && s[q] <= 'z') || ('A' <= s[q] && s[q] <= 'Z')) {
        letters_end(s, q + 1)
    } else {
        q
    }
}

pub open spec fn header(s: Seq<char>, p: int) -> Option<(Seq<Seq<char>>, int)> {
    if at(s, p, '[') {
        header_rest(s, p + 1, true, Seq::empty())
    } else {
        None
    }
}

pub open spec fn header_rest(s: Seq<char>, q: int, first: bool, acc: Seq<Seq<char>>) -> Option<(Seq<Seq<char>>, int)>
    decreases s.len() - q,
{
    if q < 0 || q > s.len() {
        None
    } else if !first && !at(s, q, ',') {
        if at(s, q, ']') { Some((acc, q + 1)) } else { None }
    } else {
        let start = if first { q } else { q + 1 };
        let q1 = ws(s, start);
        if !at(s, q1, '.') {
            if first {
                if at(s, q, ']') { Some((acc, q + 1)) } else { None }
            } else {
                None
            }
        } else {
            let q3 = letters_end(s, q1 + 1);
            if q3 == q1 + 1 || !adv(s, q, ws(s, q3)) {
                None
            } else {
                header_rest(s, ws(s, q3), false, acc.push(s.subrange(q1 + 1, q3)))
            }
        }
    }
}

pub open spec fn entry(s: Seq<char>, p: int) -> Option<(CellV, int)>
    decreases s.len() - p, 3nat,
{
    if p < 0 || p > s.len() {
        None
    } else if at(s, p, '_') {
        Some((CellV::Hole, ws(s, p + 1)))
    } else if at(s, p, '+') {
        if !adv(s, p, ws(s, p + 1)) {
            None
        } else {
            match expr(s, ws(s, p + 1)) {
                Some((v, q)) => Some((CellV::App(v), q)),
                None => None,
            }
        }
    } else {
        match expr(s, p) {
            Some((v, q)) => Some((CellV::Lit(v), q)),
            None => None,
        }
    }
}

pub open spec fn row(s: Seq<char>, p: int) -> Option<((Option<u32>, Seq<CellV>), int)>
    decreases s.len() - p, 0nat,
{
    let q0 = ws(s, p);
    let (w, q1) = match weight(s, q0) {
        Some((w, q1)) => (Some(w), q1),
        None => (None, q0),
    };
    let q2 = ws(s, q1);
    if p < 0 || q2 < p || !at(s, q2, '[') {
        None
    } else {
        match row_rest(s, q2 + 1, true, Seq::empty()) {
            Some((cells, q)) => Some(((w, cells), q)),
            None => None,
        }
    }
}

pub open spec fn row_close(s: Seq<char>, q: int, acc: Seq<CellV>) -> Option<(Seq<CellV>, int)> {
    if at(s, q, ']') {
        Some((acc, q + 1))
    } else {
        None
    }
}

pub open spec fn row_rest(s: Seq<char>, q: int, first: bool, acc: Seq<CellV>) -> Option<(Seq<CellV>, int)>
    decreases s.len() - q, 4nat,
{
    if q < 0 || q > s.len() {
        None
    } else if !first && !at(s, q, ',') {
        row_close(s, q, acc)
    } else {
        let start = if first { q } else { q + 1 };
        let q1 = ws(s, start);
        if !fwd(s, q, q1) {
            None
        } else {
            match entry(s, q1) {
                Some((t, q2)) => {
                    let q3 = ws(s, q2);
                    if adv(s, q, q3) { row_rest(s, q3, false, acc.push(t)) } else { None }
                },
                None => row_close(s, q1, acc),
            }
        }
    }
}

pub open spec fn table(s: Seq<char>, p: int) -> Option<(Seq<Seq<char>>, Seq<(Option<u32>, Seq<CellV>)>, int)>
    decreases s.len() - p, 0nat,
{
    if 0 <= p && p + 5 <= s.len() && s.subrange(p, p + 5) == "table"@ {
        let q = ws(s, p + 5);
        if !at(s, q, '[') {
            None
        } else {
            match header(s, ws(s, q + 1)) {
                None => None,
                Some((cols, q2)) => {
                    let q3 = ws(s, q2);
                    if !at(s, q3, ',') || q3 < p {
                        None
                    } else {
                        match table_rows(s, q3 + 1, true, Seq::empty()) {
                            Some((rows, q4)) => Some((cols, rows, q4)),
                            None => None,
                        }
                    }
                },
            }
        }
    } else {
        None
    }
}

pub open spec fn table_close(s: Seq<char>, q: int, acc: Seq<(Option<u32>, Seq<CellV>)>) -> Option<
    (Seq<(Option<u32>, Seq<CellV>)>, int),
> {
    let q1 = ws(s, q);
    if acc.len() > u32::MAX {
        None
    } else if at(s, q1, ']') {
        Some((acc, q1 + 1))
    } else {
        None
    }
}

pub open spec fn table_rows(s: Seq<char>, q: int, first: bool, acc: Seq<(Option<u32>, Seq<CellV>)>) -> Option<
    (Seq<(Option<u32>, Seq<CellV>)>, int),
>
    decreases s.len() - q, 4nat,
{
    if q < 0 || q > s.len() {
        None
    } else if !first && !at(s, ws(s, q), ',') {
        table_close(s, q, acc)
    } else {
        let start = if first { q } else { ws(s, q) + 1 };
        if !fwd(s, q, start) {
            None
        } else {
            match row(s, start) {
                Some((r, q2)) => if adv(s, q, q2) { table_rows(s, q2, false, acc.push(r)) } else { None },
                None => table_close(s, if first { q } else { start }, acc),
            }
        }
    }
}

pub open spec fn assignment(s: Seq<char>, p: int) -> Option<((Seq<char>, ExprV), int)> {
    match ident(s, p) {
        None => None,
        Some(e) => {
            let q = ws(s, e);
            if !at(s, q, '=') {
                None
            } else {
                match expr(s, ws(s, q + 1)) {
                    Some((v, q2)) => Some(((s.subrange(p, e), v), q2)),
                    None => None,
                }
            }
        },
    }
}

pub open spec fn statement(s: Seq<char>, p: int) -> Option<((Seq<char>, ExprV), int)> {
    match assignment(s, ws(s, p)) {
        None => None,
        Some((st, q)) => {
            let q2 = ws(s, q);
            if at(s, q2, ';') {
                Some((st, q2 + 1))
            } else {
                None
            }
        },
    }
}

pub open spec fn statements(s: Seq<char>, q: int, acc: Seq<(Seq<char>, ExprV)>) -> (Seq<(Seq<char>, ExprV)>, int)
    decreases s.len() - q,
{
    if q < 0 || q > s.len() {
        (acc, q)
    } else {
        match statement(s, q) {
            Some((st, q1)) => if adv(s, q, q1) { statements(s, q1, acc.push(st)) } else { (acc, q) },
            None => (acc, q),
        }
    }
}

/// The statements of a whole program: one or more, then only whitespace.
pub open spec fn program_of(s: Seq<char>) -> Option<Seq<(Seq<char>, ExprV)>> {
    let (sts, q) = statements(s, 0, Seq::empty());
    if sts.len() == 0 || ws(s, q) != s.len() {
        None
    } else {
        Some(sts)
    }
}


/// The parser's result agrees with the grammar's.
pub open spec fn expr_result(r: Option<(ast::Expression, usize)>, g: Option<(ExprV, int)>) -> bool {
    match g {
        None => r is None,
        Some((v, e)) => r matches Some((x, q)) && q == e && expr_is(x, v),
    }
}

pub open spec fn entries_are(xs: Seq<ast::BagEntry>, vs: Seq<(Option<u32>, ExprV)>) -> bool {
    xs.len() == vs.len() && forall|i: int|
        0 <= i < xs.len() ==> (#[trigger] xs[i]).weight == vs[i].0 && expr_is(*xs[i].value, vs[i].1)
}

pub open spec fn cells_are(xs: Seq<ast::TableEntry>, vs: Seq<CellV>) -> bool {
    xs.len() == vs.len() && forall|i: int| 0 <= i < xs.len() ==> cell_is(#[trigger] xs[i], vs[i])
}

pub open spec fn rows_are(xs: Seq<ast::TableRow>, vs: Seq<(Option<u32>, Seq<CellV>)>) -> bool {
    xs.len() == vs.len() && forall|i: int|
        0 <= i < xs.len() ==> (#[trigger] xs[i]).weight == vs[i].0 && cells_are(xs[i].items@, vs[i].1)
}

pub open spec fn names_are(xs: Seq<String>, vs: Seq<Seq<char>>) -> bool {
    xs.len() == vs.len() && forall|i: int| 0 <= i < xs.len() ==> (#[trigger] xs[i])@ == vs[i]
}

} // verus!
