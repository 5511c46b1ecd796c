//! A recursive-descent parser for the script language, over the characters
//! of the source text.
use crate::ast::{Assignment, Bag, BagEntry, Expression, Pattern, Statement, Table, TableEntry, TableRow};
use crate::grammar;
use crate::string_utils::push_char;
use vstd::prelude::*;

verus! {

/// Whether `char::is_alphabetic` holds of a character.
pub uninterp spec fn alphabetic(c: char) -> bool;

/// Whether `char::is_alphanumeric` holds of a character.
pub uninterp spec fn alphanumeric(c: char) -> bool;

/// Relies on `char::is_alphabetic`: Unicode's Alphabetic property.
#[verifier::external_body]
fn is_alphabetic(c: char) -> (r: bool)
    ensures
        r == alphabetic(c),
{
    c.is_alphabetic()
}

/// Relies on `char::is_alphanumeric`: Unicode's Alphabetic or Numeric property.
#[verifier::external_body]
fn is_alphanumeric(c: char) -> (r: bool)
    ensures
        r == alphanumeric(c),
{
    c.is_alphanumeric()
}

pub open spec fn is_space(c: char) -> bool {
    c == ' ' || c == '\t' || c == '\n' || c == '\r'
}

pub open spec fn is_ascii_letter(c: char) -> bool {
    ('a' <= c && c <= 'z') || ('A' <= c && c <= 'Z')
}

pub open spec fn is_digit(c: char) -> bool {
    '0' <= c && c <= '9'
}

/// The position after any whitespace from `pos` on.
pub fn skip_ws(s: &Vec<char>, pos: usize) -> (r: usize)
    requires
        pos <= s@.len(),
    ensures
        pos <= r <= s@.len(),
        forall|i: int| pos <= i < r ==> is_space(#[trigger] s@[i]),
        r == s@.len() || !is_space(s@[r as int]),
        r == grammar::ws(s@, pos as int),
{
    let mut p = pos;
    while p < s.len() && (s[p] == ' ' || s[p] == '\t' || s[p] == '\n' || s[p] == '\r')
        invariant
            pos <= p <= s@.len(),
            grammar::ws(s@, pos as int) == grammar::ws(s@, p as int),
            forall|i: int| pos <= i < p ==> is_space(#[trigger] s@[i]),
        decreases s@.len() - p,
    {
        p = p + 1;
    }
    p
}

/// The position after `c`, where `c` stands at `pos`.
pub fn eat(s: &Vec<char>, pos: usize, c: char) -> (r: Option<usize>)
    requires
        pos <= s@.len(),
    ensures
        r is Some <==> (pos < s@.len() && s@[pos as int] == c),
        r matches Some(p) ==> p == pos + 1,
{
    if pos < s.len() && s[pos] == c {
        Some(pos + 1)
    } else {
        None
    }
}

/// The position after the keyword `w`, where it stands at `pos`.
pub fn eat_word(s: &Vec<char>, pos: usize, w: &str) -> (r: Option<usize>)
    requires
        pos <= s@.len(),
    ensures
        r is Some <==> (pos + w@.len() <= s@.len() && s@.subrange(pos as int, pos + w@.len()) == w@),
        r matches Some(p) ==> p == pos + w@.len(),
{
    let wc = crate::eval::chars_of(w);
    if wc.len() > s.len() - pos {
        return None;
    }
    let mut i: usize = 0;
    let mut q: usize = pos;
    let n = s.len();
    while i < wc.len()
        invariant
            n == s@.len(),
            wc@ == w@,
            pos <= s@.len(),
            pos + wc@.len() <= s@.len(),
            0 <= i <= wc@.len(),
            q == pos + i,
            forall|j: int| 0 <= j < i ==> s@[pos + j] == wc@[j],
        decreases wc@.len() - i,
    {
        if s[q] != wc[i] {
            assert(s@.subrange(pos as int, pos + w@.len())[i as int] != w@[i as int]);
            return None;
        }
        i = i + 1;
        q = q + 1;
    }
    assert(s@.subrange(pos as int, pos + w@.len()) =~= w@);
    Some(pos + wc.len())
}

/// An identifier: a letter followed by letters and digits.
pub fn parse_identifier(s: &Vec<char>, pos: usize) -> (r: Option<(String, usize)>)
    requires
        pos <= s@.len(),
    ensures
        r matches Some((name, p)) ==> pos < p <= s@.len() && name@ == s@.subrange(pos as int, p as int)
            && alphabetic(name@[0]) && (p == s@.len() || !alphanumeric(s@[p as int])),
        r is None ==> pos == s@.len() || !alphabetic(s@[pos as int]),
        match grammar::ident(s@, pos as int) {
            None => r is None,
            Some(e) => r matches Some((name, q)) && q == e && name@ == s@.subrange(pos as int, e),
        },
{
    if pos >= s.len() || !is_alphabetic(s[pos]) {
        return None;
    }
    let mut name = String::new();
    push_char(&mut name, s[pos]);
    let mut p = pos + 1;
    while p < s.len() && is_alphanumeric(s[p])
        invariant
            pos < p <= s@.len(),
            name@ == s@.subrange(pos as int, p as int),
            grammar::ident_rest(s@, pos + 1) == grammar::ident_rest(s@, p as int),
        decreases s@.len() - p,
    {
        push_char(&mut name, s[p]);
        p = p + 1;
        assert(name@ =~= s@.subrange(pos as int, p as int));
    }
    Some((name, p))
}

/// The character that a backslash followed by `c` stands for in a string
/// literal, if `c` may follow a backslash.
pub open spec fn escaped(c: char) -> Option<char> {
    if c == '\\' || c == '"' {
        Some(c)
    } else if c == 'n' || c == '\n' {
        Some('\n')
    } else {
        None
    }
}

/// The text that the characters `s[a..b]` of a string literal's body stand
/// for: escapes decoded, and no bare quote or dangling backslash.
pub open spec fn decode(s: Seq<char>, a: int, b: int) -> Option<Seq<char>>
    decreases b - a,
{
    if a >= b {
        Some(Seq::empty())
    } else if s[a] == '\\' {
        if a + 1 >= b || escaped(s[a + 1]) is None {
            None
        } else {
            match decode(s, a + 2, b) {
                Some(rest) => Some(seq![escaped(s[a + 1])->Some_0] + rest),
                None => None,
            }
        }
    } else if s[a] == '"' {
        None
    } else {
        match decode(s, a + 1, b) {
            Some(rest) => Some(seq![s[a]] + rest),
            None => None,
        }
    }
}

/// Decoding extends by one unit at the end: a plain character, or a
/// backslash and the character it escapes.
proof fn lemma_decode_extend(s: Seq<char>, a: int, b: int, k: int, u: char)
    requires
        a <= b,
        decode(s, a, b) is Some,
        k == 1 || k == 2,
        k == 1 ==> s[b] != '\\' && s[b] != '"' && u == s[b],
        k == 2 ==> s[b] == '\\' && escaped(s[b + 1]) == Some(u),
    ensures
        decode(s, a, b + k) == Some(decode(s, a, b)->Some_0.push(u)),
    decreases b - a,
{
    if a == b {
        if k == 2 {
            assert(decode(s, b + 2, b + 2) == Some(Seq::<char>::empty()));
        } else {
            assert(decode(s, b + 1, b + 1) == Some(Seq::<char>::empty()));
        }
        assert(seq![u] + Seq::<char>::empty() =~= Seq::<char>::empty().push(u));
    } else if s[a] == '\\' {
        assert(a + 2 <= b);
        lemma_decode_extend(s, a + 2, b, k, u);
        let rest = decode(s, a + 2, b)->Some_0;
        assert(seq![escaped(s[a + 1])->Some_0] + rest.push(u) =~= (seq![escaped(s[a + 1])->Some_0] + rest).push(u));
    } else {
        lemma_decode_extend(s, a + 1, b, k, u);
        let rest = decode(s, a + 1, b)->Some_0;
        assert(seq![s[a]] + rest.push(u) =~= (seq![s[a]] + rest).push(u));
    }
}

/// A string literal in double quotes; a backslash escapes a backslash, a
/// quote, or a newline (written `n` or as the character itself).
pub fn parse_string_literal(s: &Vec<char>, pos: usize) -> (r: Option<(String, usize)>)
    requires
        pos <= s@.len(),
    ensures
        r matches Some((text, p)) ==> pos + 2 <= p <= s@.len() && s@[pos as int] == '"' && s@[p - 1] == '"'
            && decode(s@, pos + 1, p - 1) == Some(text@),
        match grammar::string_lit(s@, pos as int) {
            None => r is None,
            Some((t, e)) => r matches Some((x, q)) && q == e && x@ == t,
        },
{
    let mut p = match eat(s, pos, '"') {
        Some(p) => p,
        None => return None,
    };
    let mut out = String::new();
    while p < s.len() && s[p] != '"'
        invariant
            pos < p <= s@.len(),
            s@[pos as int] == '"',
            decode(s@, pos + 1, p as int) == Some(out@),
            grammar::string_lit(s@, pos as int) == grammar::string_rest(s@, p as int, out@),
        decreases s@.len() - p,
    {
        if s[p] == '\\' {
            if p + 1 >= s.len() {
                return None;
            }
            let c = s[p + 1];
            let u = if c == '\\' || c == '"' {
                c
            } else if c == 'n' || c == '\n' {
                '\n'
            } else {
                return None;
            };
            proof {
                lemma_decode_extend(s@, pos + 1, p as int, 2, u);
            }
            push_char(&mut out, u);
            p = p + 2;
        } else {
            proof {
                lemma_decode_extend(s@, pos + 1, p as int, 1, s@[p as int]);
            }
            push_char(&mut out, s[p]);
            p = p + 1;
        }
    }
    match eat(s, p, '"') {
        Some(q) => Some((out, q)),
        None => None,
    }
}

/// The number that the decimal digits `s[a..b]` spell.
pub open spec fn digits_value(s: Seq<char>, a: int, b: int) -> nat
    decreases b - a,
{
    if b <= a {
        0
    } else {
        digits_value(s, a, b - 1) * 10 + ((s[b - 1] as nat) - ('0' as nat)) as nat
    }
}

/// Thousandths from the first three of the fraction digits `s[a..b]`,
/// padded with zeros.
pub open spec fn thousandths(s: Seq<char>, a: int, b: int) -> nat {
    if b - a <= 0 {
        0
    } else if b - a == 1 {
        digits_value(s, a, b) * 100
    } else if b - a == 2 {
        digits_value(s, a, b) * 10
    } else {
        digits_value(s, a, a + 3)
    }
}

/// `s[pos..p]` is a decimal number: digits up to `e`, then, where `e < p`,
/// a point and fraction digits; at least one digit in all.
pub open spec fn decimal_at(s: Seq<char>, pos: int, e: int, p: int) -> bool {
    &&& pos <= e <= p
    &&& forall|i: int| pos <= i < e ==> is_digit(#[trigger] s[i])
    &&& e < p ==> s[e] == '.' && forall|i: int| e < i < p ==> is_digit(#[trigger] s[i])
    &&& (e > pos || p > e + 1)
}

/// The weight, in thousandths, that the decimal `s[pos..p]` with its
/// digits before the point ending at `e` stands for.
pub open spec fn weight_value(s: Seq<char>, pos: int, e: int, p: int) -> int {
    digits_value(s, pos, e) * 1000 + if e < p {
        thousandths(s, e + 1, p) as int
    } else {
        0
    }
}

/// `s[pos..p]` is a decimal number that stands for the weight `w`.
pub open spec fn weight_text(s: Seq<char>, pos: int, p: int, w: int) -> bool {
    exists|e: int| decimal_at(s, pos, e, p) && w == weight_value(s, pos, e, p)
}

/// A positive decimal weight such as `3`, `0.5` or `2.25`, in units of
/// `1 / WEIGHT_SCALE`; digits past the third decimal place are dropped.
pub fn parse_weight(s: &Vec<char>, pos: usize) -> (r: Option<(u32, usize)>)
    requires
        pos <= s@.len(),
    ensures
        r matches Some((w, p)) ==> pos < p <= s@.len() && w > 0 && weight_text(s@, pos as int, p as int, w as int),
        match grammar::weight(s@, pos as int) {
            None => r is None,
            Some((w, e)) => r matches Some((x, q)) && q == e && x == w,
        },
{
    let mut p = pos;
    let mut whole: u64 = 0;
    while p < s.len() && '0' <= s[p] && s[p] <= '9'
        invariant
            pos <= p <= s@.len(),
            whole <= u32::MAX,
            whole == digits_value(s@, pos as int, p as int),
            forall|i: int| pos <= i < p ==> is_digit(#[trigger] s@[i]),
            grammar::whole_digits(s@, pos as int, 0) == grammar::whole_digits(s@, p as int, whole as nat),
        decreases s@.len() - p,
    {
        whole = whole * 10 + (s[p] as u64 - '0' as u64);
        if whole > u32::MAX as u64 {
            return None;
        }
        p = p + 1;
    }
    let e = p;
    let mut frac: u64 = 0;
    if p < s.len() && s[p] == '.' {
        p = p + 1;
        while p < s.len() && '0' <= s[p] && s[p] <= '9'
            invariant
                e < p <= s@.len(),
                s@[e as int] == '.',
                forall|i: int| e < i < p ==> is_digit(#[trigger] s@[i]),
                p - e - 1 <= 3 ==> frac == digits_value(s@, e + 1, p as int),
                p - e - 1 > 3 ==> frac == digits_value(s@, e + 1, e + 4),
                p - e - 1 == 0 ==> frac == 0,
                p - e - 1 == 1 ==> frac < 10,
                p - e - 1 == 2 ==> frac < 100,
                frac < 1000,
                grammar::fraction_digits(s@, e + 1, e as int, 0) == grammar::fraction_digits(s@, p as int, e as int, frac as nat),
            decreases s@.len() - p,
        {
            if p - e - 1 < 3 {
                frac = frac * 10 + (s[p] as u64 - '0' as u64);
            }
            p = p + 1;
        }
        if p == e + 1 && e == pos {
            return None;
        }
        let places = p - e - 1;
        if places == 1 {
            frac = frac * 100;
        } else if places == 2 {
            frac = frac * 10;
        }
    } else if e == pos {
        return None;
    }
    assert(frac <= 999);
    assert(whole * 1000 <= 4294967295 * 1000) by (nonlinear_arith)
        requires
            whole <= 4294967295,
    ;
    let scaled = whole * (crate::ast::WEIGHT_SCALE as u64) + frac;
    if scaled == 0 || scaled > u32::MAX as u64 {
        return None;
    }
    assert(decimal_at(s@, pos as int, e as int, p as int));
    assert(scaled == digits_value(s@, pos as int, e as int) * 1000 + (if e < p {
        thousandths(s@, e + 1, p as int)
    } else {
        0
    }));
    let w = scaled as u32;
    assert(w > 0);
    assert(decimal_at(s@, pos as int, e as int, p as int) && w == weight_value(s@, pos as int, e as int, p as int));
    assert(weight_text(s@, pos as int, p as int, w as int));
    Some((w, p))
}

/// An expression: a pattern, a string, a table, a bag, a property access, a
/// call, or a variable, tried in that order.
pub fn parse_expression(s: &Vec<char>, pos: usize) -> (r: Option<(Expression, usize)>)
    requires
        pos <= s@.len(),
    ensures
        r matches Some((e, p)) ==> pos < p <= s@.len() && crate::ast::well_weighted(e),
        grammar::expr_result(r, grammar::expr(s@, pos as int)),
    decreases s@.len() - pos, 2nat,
{
    if let Some((parts, p)) = parse_pattern(s, pos) {
        return Some((Expression::PatternE(Pattern { parts }), p));
    }
    if let Some((lit, p)) = parse_string_literal(s, pos) {
        return Some((Expression::LiteralE(lit), p));
    }
    if let Some((t, p)) = parse_table(s, pos) {
        return Some((Expression::TableE(t), p));
    }
    if let Some((b, p)) = parse_bag(s, pos) {
        return Some((Expression::BagE(b), p));
    }
    parse_named(s, pos)
}

/// A property access `a.b`, a call `f(x, y)`, or a variable.
fn parse_named(s: &Vec<char>, pos: usize) -> (r: Option<(Expression, usize)>)
    requires
        pos <= s@.len(),
    ensures
        r matches Some((e, p)) ==> pos < p <= s@.len() && crate::ast::well_weighted(e),
        grammar::expr_result(r, grammar::named(s@, pos as int)),
    decreases s@.len() - pos, 1nat,
{
    if let Some(x) = parse_property_access(s, pos) {
        return Some(x);
    }
    if let Some(x) = parse_call(s, pos) {
        return Some(x);
    }
    match parse_identifier(s, pos) {
        Some((name, p)) => Some((Expression::VariableE(name), p)),
        None => None,
    }
}

/// `s[a..b]` reads `name.key`, and `e` accesses property `key` of variable
/// `name`.
pub open spec fn property_text(s: Seq<char>, a: int, b: int, e: Expression) -> bool {
    match e {
        Expression::PropertyAccessE(base, key) => match *base {
            Expression::VariableE(name) => exists|m: int|
                a < m < b && s[m] == '.' && name@ == s.subrange(a, m) && key@ == s.subrange(m + 1, b),
            _ => false,
        },
        _ => false,
    }
}

/// A property access: `variable.property`.
pub fn parse_property_access(s: &Vec<char>, pos: usize) -> (r: Option<(Expression, usize)>)
    requires
        pos <= s@.len(),
    ensures
        r matches Some((e, p)) ==> pos < p <= s@.len() && crate::ast::well_weighted(e) && property_text(
            s@,
            pos as int,
            p as int,
            e,
        ),
        grammar::expr_result(r, grammar::property(s@, pos as int)),
{
    let (name, p) = match parse_identifier(s, pos) {
        Some(x) => x,
        None => return None,
    };
    let q = match eat(s, p, '.') {
        Some(q) => q,
        None => return None,
    };
    match parse_identifier(s, q) {
        Some((key, q2)) => {
            let ghost nv = name@;
            let base = Expression::VariableE(name);
            assert(crate::ast::well_weighted(base));
            assert(pos < p && s@[p as int] == '.' && nv == s@.subrange(pos as int, p as int) && key@ == s@.subrange(p + 1, q2 as int));
            let e = Expression::PropertyAccessE(Box::new(base), key);
            assert(property_text(s@, pos as int, q2 as int, e));
            Some((e, q2))
        },
        None => None,
    }
}

/// A call: `function(argument, ...)`.
pub fn parse_call(s: &Vec<char>, pos: usize) -> (r: Option<(Expression, usize)>)
    requires
        pos <= s@.len(),
    ensures
        r matches Some((e, p)) ==> pos < p <= s@.len() && crate::ast::well_weighted(e) && e is CallE && s@[p - 1] == ')',
        grammar::expr_result(r, grammar::call(s@, pos as int)),
    decreases s@.len() - pos, 0nat,
{
    let (name, p) = match parse_identifier(s, pos) {
        Some(x) => x,
        None => return None,
    };
    let q = match eat(s, p, '(') {
        Some(q) => q,
        None => return None,
    };
    let mut args: Vec<Expression> = Vec::new();
    let mut q = skip_ws(s, q);
    let ghost mut vs: Seq<grammar::ExprV> = Seq::empty();
    assert(grammar::call(s@, pos as int) == grammar::call_finish(s@, pos as int, p as int, if !grammar::adv(s@, pos as int, q as int) {
        None
    } else {
        match grammar::expr(s@, q as int) {
            Some((first, q2)) => if grammar::adv(s@, pos as int, q2) { grammar::call_args(s@, q2, seq![first]) } else { None },
            None => Some((Seq::empty(), q as int)),
        }
    }));
    if let Some((first, q2)) = parse_expression(s, q) {
        proof {
            vs = seq![grammar::expr(s@, q as int)->Some_0.0];
        }
        args.push(first);
        q = q2;
        assert(grammar::exprs_are(args@, vs));
        loop
            invariant
                pos < q <= s@.len(),
                forall|i: int| 0 <= i < args@.len() ==> crate::ast::well_weighted(#[trigger] args@[i]),
                grammar::exprs_are(args@, vs),
                grammar::call(s@, pos as int) == grammar::call_finish(s@, pos as int, p as int, grammar::call_args(s@, q as int, vs)),
            ensures
                pos < q <= s@.len(),
                forall|i: int| 0 <= i < args@.len() ==> crate::ast::well_weighted(#[trigger] args@[i]),
                grammar::exprs_are(args@, vs),
                grammar::call(s@, pos as int) == grammar::call_finish(s@, pos as int, p as int, Some((vs, q as int))),
            decreases s@.len() - q,
        {
            let q3 = skip_ws(s, q);
            let q4 = match eat(s, q3, ',') {
                Some(q4) => skip_ws(s, q4),
                None => {
                    assert(grammar::call_args(s@, q as int, vs) == Some((vs, q as int)));
                    break;
                },
            };
            match parse_expression(s, q4) {
                Some((arg, q5)) => {
                    let ghost old_vs = vs;
                    proof {
                        vs = vs.push(grammar::expr(s@, q4 as int)->Some_0.0);
                        assert(grammar::call_args(s@, q as int, old_vs) == grammar::call_args(s@, q5 as int, vs));
                    }
                    args.push(arg);
                    q = q5;
                    assert forall|i: int| 0 <= i < args@.len() implies grammar::expr_is(#[trigger] args@[i], vs[i]) by {
                        if i < args@.len() - 1 {
                        }
                    }
                },
                None => {
                    assert(grammar::call_args(s@, q as int, vs) is None);
                    return None;
                },
            }
        }
    }
    assert(grammar::call(s@, pos as int) == grammar::call_finish(s@, pos as int, p as int, Some((vs, q as int))));
    let q6 = skip_ws(s, q);
    match eat(s, q6, ')') {
        Some(end) => {
            let e = Expression::CallE(name, args);
            assert(grammar::expr_is(e, grammar::ExprV::Call(s@.subrange(pos as int, p as int), vs)));
            Some((e, end))
        },
        None => None,
    }
}

/// A pattern: expressions between braces.
pub fn parse_pattern(s: &Vec<char>, pos: usize) -> (r: Option<(Vec<Expression>, usize)>)
    requires
        pos <= s@.len(),
    ensures
        r matches Some((parts, p)) ==> pos + 2 <= p <= s@.len() && s@[pos as int] == '{' && s@[p - 1] == '}'
            && forall|i: int| 0 <= i < parts@.len() ==> crate::ast::well_weighted(#[trigger] parts@[i]),
        match grammar::pattern(s@, pos as int) {
            None => r is None,
            Some((vs, e)) => r matches Some((xs, q)) && q == e && grammar::exprs_are(xs@, vs),
        },
    decreases s@.len() - pos, 0nat,
{
    let mut q = match eat(s, pos, '{') {
        Some(q) => q,
        None => return None,
    };
    let mut parts: Vec<Expression> = Vec::new();
    let ghost mut vs: Seq<grammar::ExprV> = Seq::empty();
    loop
        invariant_except_break
            grammar::pattern(s@, pos as int) == grammar::pattern_rest(s@, q as int, vs),
        invariant
            pos < q <= s@.len(),
            s@[pos as int] == '{',
            grammar::exprs_are(parts@, vs),
            forall|i: int| 0 <= i < parts@.len() ==> crate::ast::well_weighted(#[trigger] parts@[i]),
        ensures
            grammar::pattern(s@, pos as int) == (if grammar::at(s@, q as int, '}') {
                Some((vs, q + 1))
            } else {
                None
            }),
        decreases s@.len() - q,
    {
        let q1 = skip_ws(s, q);
        match parse_expression(s, q1) {
            Some((e, q2)) => {
                let ghost old_vs = vs;
                proof {
                    vs = vs.push(grammar::expr(s@, q1 as int)->Some_0.0);
                    assert(grammar::pattern_rest(s@, q as int, old_vs) == grammar::pattern_rest(s@, q2 as int, vs));
                }
                parts.push(e);
                q = q2;
                assert forall|i: int| 0 <= i < parts@.len() implies grammar::expr_is(#[trigger] parts@[i], vs[i]) by {
                    if i < parts@.len() - 1 {
                    }
                }
            },
            None => {
                assert(grammar::pattern_rest(s@, q as int, vs) == (if grammar::at(s@, q1 as int, '}') {
                    Some((vs, q1 + 1))
                } else {
                    None
                }));
                q = q1;
                break;
            },
        }
    }
    match eat(s, q, '}') {
        Some(end) => Some((parts, end)),
        None => None,
    }
}

/// A bag entry: an optional weight and an expression.
pub fn parse_bag_entry(s: &Vec<char>, pos: usize) -> (r: Option<(BagEntry, usize)>)
    requires
        pos <= s@.len(),
    ensures
        r matches Some((b, p)) ==> pos < p <= s@.len() && crate::ast::weight_or_one(b.weight) > 0
            && crate::ast::well_weighted(*b.value),
        match grammar::bag_entry(s@, pos as int) {
            None => r is None,
            Some((wv, e)) => r matches Some((b, q)) && q == e && b.weight == wv.0 && grammar::expr_is(*b.value, wv.1),
        },
    decreases s@.len() - pos, 3nat,
{
    let q1 = skip_ws(s, pos);
    let (weight, q2) = match parse_weight(s, q1) {
        Some((w, q2)) => (Some(w), q2),
        None => (None, q1),
    };
    let q3 = skip_ws(s, q2);
    match parse_expression(s, q3) {
        Some((e, q4)) => Some((BagEntry { weight, value: Box::new(e) }, q4)),
        None => None,
    }
}

/// A bag: `bag [entry, ...]`, each entry an optional weight and an expression.
pub fn parse_bag(s: &Vec<char>, pos: usize) -> (r: Option<(Bag, usize)>)
    requires
        pos <= s@.len(),
    ensures
        r matches Some((b, p)) ==> pos < p <= s@.len() && crate::ast::well_weighted(Expression::BagE(b))
            && s@.subrange(pos as int, pos + 3) == "bag"@ && s@[p - 1] == ']',
        match grammar::bag(s@, pos as int) {
            None => r is None,
            Some((vs, e)) => r matches Some((b, q)) && q == e && grammar::entries_are(b.items@, vs),
        },
    decreases s@.len() - pos, 0nat,
{
    let q = match eat_word(s, pos, "bag") {
        Some(q) => q,
        None => return None,
    };
    proof {
        reveal_strlit("bag");
    }
    let q = skip_ws(s, q);
    let mut q = match eat(s, q, '[') {
        Some(q) => q,
        None => return None,
    };
    let mut items: Vec<BagEntry> = Vec::new();
    let mut first = true;
    let ghost mut vs: Seq<(Option<u32>, grammar::ExprV)> = Seq::empty();
    loop
        invariant
            pos < q <= s@.len(),
            forall|i: int|
                0 <= i < items@.len() ==> crate::ast::weight_or_one(#[trigger] items@[i].weight) > 0
                    && crate::ast::well_weighted(*items@[i].value),
            grammar::entries_are(items@, vs),
            grammar::bag(s@, pos as int) == grammar::bag_rest(s@, q as int, first, vs),
        ensures
            pos < q <= s@.len(),
            forall|i: int|
                0 <= i < items@.len() ==> crate::ast::weight_or_one(#[trigger] items@[i].weight) > 0
                    && crate::ast::well_weighted(*items@[i].value),
            grammar::entries_are(items@, vs),
            grammar::bag(s@, pos as int) == grammar::bag_close(s@, q as int, vs),
        decreases s@.len() - q,
    {
        let ghost q0 = q;
        let start = if first {
            q
        } else {
            match eat(s, q, ',') {
                Some(q1) => q1,
                None => {
                    assert(grammar::bag_rest(s@, q as int, first, vs) == grammar::bag_close(s@, q as int, vs));
                    break;
                },
            }
        };
        match parse_bag_entry(s, start) {
            Some((entry, q4)) => {
                let ghost old_vs = vs;
                let ghost old_first = first;
                proof {
                    vs = vs.push(grammar::bag_entry(s@, start as int)->Some_0.0);
                }
                items.push(entry);
                q = skip_ws(s, q4);
                first = false;
                proof {
                    assert(grammar::bag_rest(s@, q0 as int, old_first, old_vs) == grammar::bag_rest(s@, q as int, false, vs));
                }
                assert forall|i: int| 0 <= i < items@.len() implies (#[trigger] items@[i]).weight == vs[i].0 && grammar::expr_is(*items@[i].value, vs[i].1) by {
                    if i < items@.len() - 1 {
                    }
                }
            },
            None => {
                if first {
                    assert(grammar::bag_rest(s@, q as int, first, vs) == grammar::bag_close(s@, q as int, vs));
                    break;
                }
                assert(grammar::bag_rest(s@, q as int, first, vs) is None);
                return None;
            },
        }
    }
    if items.len() > u32::MAX as usize {
        return None;
    }
    match eat(s, q, ']') {
        Some(end) => Some((Bag { items }, end)),
        None => None,
    }
}

/// A column name: one or more ASCII letters.
pub open spec fn column_name(name: Seq<char>) -> bool {
    name.len() > 0 && forall|i: int| 0 <= i < name.len() ==> is_ascii_letter(#[trigger] name[i])
}

/// A table header: `[.name, ...]`, each name of ASCII letters.
pub fn parse_table_header(s: &Vec<char>, pos: usize) -> (r: Option<(Vec<String>, usize)>)
    requires
        pos <= s@.len(),
    ensures
        r matches Some((cols, p)) ==> pos + 2 <= p <= s@.len() && s@[pos as int] == '[' && s@[p - 1] == ']'
            && forall|i: int| 0 <= i < cols@.len() ==> column_name(#[trigger] cols@[i]@),
        match grammar::header(s@, pos as int) {
            None => r is None,
            Some((vs, e)) => r matches Some((cols, q)) && q == e && grammar::names_are(cols@, vs),
        },
{
    let mut q = match eat(s, pos, '[') {
        Some(q) => q,
        None => return None,
    };
    let mut columns: Vec<String> = Vec::new();
    let mut first = true;
    let ghost mut vs: Seq<Seq<char>> = Seq::empty();
    loop
        invariant
            pos < q <= s@.len(),
            s@[pos as int] == '[',
            forall|i: int| 0 <= i < columns@.len() ==> column_name(#[trigger] columns@[i]@),
            grammar::names_are(columns@, vs),
            grammar::header(s@, pos as int) == grammar::header_rest(s@, q as int, first, vs),
        ensures
            pos < q <= s@.len(),
            s@[pos as int] == '[',
            forall|i: int| 0 <= i < columns@.len() ==> column_name(#[trigger] columns@[i]@),
            grammar::names_are(columns@, vs),
            grammar::header(s@, pos as int) == (if grammar::at(s@, q as int, ']') {
                Some((vs, q + 1))
            } else {
                None
            }),
        decreases s@.len() - q,
    {
        let ghost q0 = q;
        let start = if first {
            q
        } else {
            match eat(s, q, ',') {
                Some(q1) => q1,
                None => break,
            }
        };
        let q1 = skip_ws(s, start);
        let q2 = match eat(s, q1, '.') {
            Some(q2) => q2,
            None => {
                if first {
                    break;
                }
                return None;
            },
        };
        let mut name = String::new();
        let mut q3 = q2;
        while q3 < s.len() && (('a' <= s[q3] && s[q3] <= 'z') || ('A' <= s[q3] && s[q3] <= 'Z'))
            invariant
                q2 <= q3 <= s@.len(),
                name@.len() == q3 - q2,
                forall|i: int| 0 <= i < name@.len() ==> is_ascii_letter(#[trigger] name@[i]),
                name@ == s@.subrange(q2 as int, q3 as int),
                grammar::letters_end(s@, q2 as int) == grammar::letters_end(s@, q3 as int),
            decreases s@.len() - q3,
        {
            push_char(&mut name, s[q3]);
            q3 = q3 + 1;
            assert(name@ =~= s@.subrange(q2 as int, q3 as int));
        }
        if q3 == q2 {
            return None;
        }
        let ghost old_vs = vs;
        let ghost old_first = first;
        proof {
            vs = vs.push(name@);
        }
        columns.push(name);
        q = skip_ws(s, q3);
        first = false;
        proof {
            assert(grammar::header_rest(s@, q0 as int, old_first, old_vs) == grammar::header_rest(s@, q as int, false, vs));
            assert forall|i: int| 0 <= i < columns@.len() implies (#[trigger] columns@[i])@ == vs[i] by {
                if i < columns@.len() - 1 {
                }
            }
        }
    }
    match eat(s, q, ']') {
        Some(end) => Some((columns, end)),
        None => None,
    }
}

/// A table entry: `_` for a hole, `+expr` to append to the row's first
/// entry, or an expression.
pub fn parse_table_entry(s: &Vec<char>, pos: usize) -> (r: Option<(TableEntry, usize)>)
    requires
        pos <= s@.len(),
    ensures
        r matches Some((t, p)) ==> pos < p <= s@.len() && crate::ast::entry_well_weighted(t) && (t is Hole <==> s@[pos as int]
            == '_') && (t is Append <==> s@[pos as int] == '+'),
        match grammar::entry(s@, pos as int) {
            None => r is None,
            Some((v, e)) => r matches Some((t, q)) && q == e && grammar::cell_is(t, v),
        },
    decreases s@.len() - pos, 3nat,
{
    if let Some(q) = eat(s, pos, '_') {
        return Some((TableEntry::Hole, skip_ws(s, q)));
    }
    if let Some(q) = eat(s, pos, '+') {
        let q1 = skip_ws(s, q);
        return match parse_expression(s, q1) {
            Some((e, q2)) => Some((TableEntry::Append(Box::new(e)), q2)),
            None => None,
        };
    }
    match parse_expression(s, pos) {
        Some((e, q)) => Some((TableEntry::Literal(Box::new(e)), q)),
        None => None,
    }
}

/// A table row: an optional weight and `[entry, ...]`.
pub fn parse_table_row(s: &Vec<char>, pos: usize) -> (r: Option<(TableRow, usize)>)
    requires
        pos <= s@.len(),
    ensures
        r matches Some((row, p)) ==> pos < p <= s@.len() && s@[p - 1] == ']' && crate::ast::weight_or_one(row.weight) > 0
            && forall|c: int| 0 <= c < row.items@.len() ==> crate::ast::entry_well_weighted(#[trigger] row.items@[c]),
        match grammar::row(s@, pos as int) {
            None => r is None,
            Some((v, e)) => r matches Some((x, q)) && q == e && x.weight == v.0 && grammar::cells_are(x.items@, v.1),
        },
    decreases s@.len() - pos, 0nat,
{
    let q = skip_ws(s, pos);
    let (weight, q) = match parse_weight(s, q) {
        Some((w, q1)) => (Some(w), q1),
        None => (None, q),
    };
    let q = skip_ws(s, q);
    let mut q = match eat(s, q, '[') {
        Some(q) => q,
        None => return None,
    };
    let mut items: Vec<TableEntry> = Vec::new();
    let mut first = true;
    let ghost mut vs: Seq<grammar::CellV> = Seq::empty();
    let ghost rowv = grammar::row(s@, pos as int);
    assert(rowv == (match grammar::row_rest(s@, q as int, true, vs) {
        Some((cells, e)) => Some(((weight, cells), e)),
        None => None,
    }));
    loop
        invariant_except_break
            rowv == (match grammar::row_rest(s@, q as int, first, vs) {
                Some((cells, e)) => Some(((weight, cells), e)),
                None => None,
            }),
        invariant
            pos < q <= s@.len(),
            forall|c: int| 0 <= c < items@.len() ==> crate::ast::entry_well_weighted(#[trigger] items@[c]),
            grammar::cells_are(items@, vs),
            rowv == grammar::row(s@, pos as int),
        ensures
            pos < q <= s@.len(),
            forall|c: int| 0 <= c < items@.len() ==> crate::ast::entry_well_weighted(#[trigger] items@[c]),
            grammar::cells_are(items@, vs),
            rowv == (match grammar::row_close(s@, q as int, vs) {
                Some((cells, e)) => Some(((weight, cells), e)),
                None => None,
            }),
        decreases s@.len() - q,
    {
        let ghost q0 = q;
        let start = if first {
            q
        } else {
            match eat(s, q, ',') {
                Some(q1) => q1,
                None => break,
            }
        };
        let q1 = skip_ws(s, start);
        match parse_table_entry(s, q1) {
            Some((t, q2)) => {
                let ghost old_vs = vs;
                let ghost old_first = first;
                proof {
                    vs = vs.push(grammar::entry(s@, q1 as int)->Some_0.0);
                }
                items.push(t);
                q = skip_ws(s, q2);
                first = false;
                proof {
                    assert(grammar::row_rest(s@, q0 as int, old_first, old_vs) == grammar::row_rest(s@, q as int, false, vs));
                    assert forall|i: int| 0 <= i < items@.len() implies grammar::cell_is(#[trigger] items@[i], vs[i]) by {
                        if i < items@.len() - 1 {
                        }
                    }
                }
            },
            None => {
                assert(grammar::row_rest(s@, q0 as int, first, vs) == grammar::row_close(s@, q1 as int, vs));
                q = q1;
                break;
            },
        }
    }
    match eat(s, q, ']') {
        Some(end) => Some((TableRow { weight, items }, end)),
        None => None,
    }
}

/// A table: `table [header, row, ...]`.
pub fn parse_table(s: &Vec<char>, pos: usize) -> (r: Option<(Table, usize)>)
    requires
        pos <= s@.len(),
    ensures
        r matches Some((t, p)) ==> pos < p <= s@.len() && crate::ast::well_weighted(Expression::TableE(t))
            && s@.subrange(pos as int, pos + 5) == "table"@ && s@[p - 1] == ']' && forall|i: int|
            0 <= i < t.columns@.len() ==> column_name(#[trigger] t.columns@[i]@),
        match grammar::table(s@, pos as int) {
            None => r is None,
            Some((cols, rows, e)) => r matches Some((t, q)) && q == e && grammar::names_are(t.columns@, cols)
                && grammar::rows_are(t.rows@, rows),
        },
    decreases s@.len() - pos, 0nat,
{
    let q = match eat_word(s, pos, "table") {
        Some(q) => q,
        None => return None,
    };
    proof {
        reveal_strlit("table");
    }
    let q = skip_ws(s, q);
    let q = match eat(s, q, '[') {
        Some(q) => skip_ws(s, q),
        None => return None,
    };
    let q_header = q;
    let (columns, q) = match parse_table_header(s, q) {
        Some(x) => x,
        None => return None,
    };
    let q = skip_ws(s, q);
    let mut q = match eat(s, q, ',') {
        Some(q) => q,
        None => return None,
    };
    let mut rows: Vec<TableRow> = Vec::new();
    let mut first = true;
    let ghost mut vs: Seq<(Option<u32>, Seq<grammar::CellV>)> = Seq::empty();
    let ghost tv = grammar::table(s@, pos as int);
    let ghost colv = grammar::header(s@, q_header as int)->Some_0.0;
    assert(tv == (match grammar::table_rows(s@, q as int, true, vs) {
        Some((rs, e)) => Some((colv, rs, e)),
        None => None,
    }));
    loop
        invariant_except_break
            tv == (match grammar::table_rows(s@, q as int, first, vs) {
                Some((rs, e)) => Some((colv, rs, e)),
                None => None,
            }),
        invariant
            pos < q <= s@.len(),
            forall|r: int|
                0 <= r < rows@.len() ==> crate::ast::weight_or_one(#[trigger] rows@[r].weight) > 0 && forall|c: int|
                    0 <= c < rows@[r].items@.len() ==> crate::ast::entry_well_weighted(#[trigger] rows@[r].items@[c]),
            grammar::rows_are(rows@, vs),
            tv == grammar::table(s@, pos as int),
        ensures
            pos < q <= s@.len(),
            forall|r: int|
                0 <= r < rows@.len() ==> crate::ast::weight_or_one(#[trigger] rows@[r].weight) > 0 && forall|c: int|
                    0 <= c < rows@[r].items@.len() ==> crate::ast::entry_well_weighted(#[trigger] rows@[r].items@[c]),
            grammar::rows_are(rows@, vs),
            tv == (match grammar::table_close(s@, q as int, vs) {
                Some((rs, e)) => Some((colv, rs, e)),
                None => None,
            }),
        decreases s@.len() - q,
    {
        let ghost q0 = q;
        let start = if first {
            q
        } else {
            match eat(s, skip_ws(s, q), ',') {
                Some(q1) => q1,
                None => break,
            }
        };
        match parse_table_row(s, start) {
            Some((row, q2)) => {
                let ghost old_vs = vs;
                let ghost old_first = first;
                proof {
                    vs = vs.push(grammar::row(s@, start as int)->Some_0.0);
                }
                rows.push(row);
                q = q2;
                first = false;
                proof {
                    assert(grammar::table_rows(s@, q0 as int, old_first, old_vs) == grammar::table_rows(s@, q as int, false, vs));
                    assert forall|i: int| 0 <= i < rows@.len() implies (#[trigger] rows@[i]).weight == vs[i].0
                        && grammar::cells_are(rows@[i].items@, vs[i].1) by {
                        if i < rows@.len() - 1 {
                        }
                    }
                }
            },
            None => {
                assert(grammar::table_rows(s@, q0 as int, first, vs) == grammar::table_close(s@, if first { q0 as int } else { start as int }, vs));
                if !first {
                    q = start;
                }
                break;
            },
        }
    }
    if rows.len() > u32::MAX as usize {
        return None;
    }
    let q = skip_ws(s, q);
    match eat(s, q, ']') {
        Some(end) => Some((Table { columns, rows }, end)),
        None => None,
    }
}

/// An assignment: `name = expression`.
pub fn parse_assignment(s: &Vec<char>, pos: usize) -> (r: Option<(Assignment, usize)>)
    requires
        pos <= s@.len(),
    ensures
        r matches Some((a, p)) ==> pos < p <= s@.len() && crate::ast::well_weighted(*a.value),
        match grammar::assignment(s@, pos as int) {
            None => r is None,
            Some((v, e)) => r matches Some((a, q)) && q == e && grammar::stmt_is(Statement::AssignmentS(a), v),
        },
{
    let (name, q) = match parse_identifier(s, pos) {
        Some(x) => x,
        None => return None,
    };
    let q = skip_ws(s, q);
    let q = match eat(s, q, '=') {
        Some(q) => skip_ws(s, q),
        None => return None,
    };
    match parse_expression(s, q) {
        Some((value, end)) => Some((Assignment { name, value: Box::new(value) }, end)),
        None => None,
    }
}

/// An assignment, as a statement.
pub fn parse_assignment_statement(s: &Vec<char>, pos: usize) -> (r: Option<(Statement, usize)>)
    requires
        pos <= s@.len(),
    ensures
        r matches Some((Statement::AssignmentS(a), p)) ==> pos < p <= s@.len() && crate::ast::well_weighted(*a.value),
        match grammar::assignment(s@, pos as int) {
            None => r is None,
            Some((v, e)) => r matches Some((st, q)) && q == e && grammar::stmt_is(st, v),
        },
{
    match parse_assignment(s, pos) {
        Some((a, p)) => Some((Statement::AssignmentS(a), p)),
        None => None,
    }
}

/// A statement: an assignment followed by `;`.
pub fn parse_statement(s: &Vec<char>, pos: usize) -> (r: Option<(Statement, usize)>)
    requires
        pos <= s@.len(),
    ensures
        r matches Some((Statement::AssignmentS(a), p)) ==> pos < p <= s@.len() && crate::ast::well_weighted(*a.value),
        match grammar::statement(s@, pos as int) {
            None => r is None,
            Some((v, e)) => r matches Some((st, q)) && q == e && grammar::stmt_is(st, v),
        },
{
    let q = skip_ws(s, pos);
    let (st, q) = match parse_assignment_statement(s, q) {
        Some(x) => x,
        None => return None,
    };
    let q = skip_ws(s, q);
    match eat(s, q, ';') {
        Some(end) => Some((st, end)),
        None => None,
    }
}

/// A whole program: one or more statements and nothing else but whitespace.
/// An error gives the position where parsing stopped.
pub fn parse_program(s: &Vec<char>) -> (r: Result<Vec<Statement>, usize>)
    ensures
        r matches Ok(stmts) ==> stmts@.len() > 0 && forall|i: int|
            0 <= i < stmts@.len() ==> (#[trigger] stmts@[i] matches Statement::AssignmentS(a) && crate::ast::well_weighted(*a.value)),
        r matches Err(p) ==> p <= s@.len(),
        match grammar::program_of(s@) {
            None => r is Err,
            Some(vs) => r matches Ok(stmts) && grammar::stmts_are(stmts@, vs),
        },
{
    let mut stmts: Vec<Statement> = Vec::new();
    let mut q: usize = 0;
    let ghost mut vs: Seq<(Seq<char>, grammar::ExprV)> = Seq::empty();
    loop
        invariant
            q <= s@.len(),
            forall|i: int|
                0 <= i < stmts@.len() ==> (#[trigger] stmts@[i] matches Statement::AssignmentS(a) && crate::ast::well_weighted(*a.value)),
            grammar::stmts_are(stmts@, vs),
            grammar::statements(s@, 0, Seq::empty()) == grammar::statements(s@, q as int, vs),
        ensures
            q <= s@.len(),
            forall|i: int|
                0 <= i < stmts@.len() ==> (#[trigger] stmts@[i] matches Statement::AssignmentS(a) && crate::ast::well_weighted(*a.value)),
            grammar::stmts_are(stmts@, vs),
            grammar::statements(s@, 0, Seq::empty()) == (vs, q as int),
        decreases s@.len() - q,
    {
        match parse_statement(s, q) {
            Some((st, q1)) => {
                let ghost old_vs = vs;
                let ghost q0 = q;
                proof {
                    vs = vs.push(grammar::statement(s@, q as int)->Some_0.0);
                }
                stmts.push(st);
                q = q1;
                proof {
                    assert(grammar::statements(s@, q0 as int, old_vs) == grammar::statements(s@, q as int, vs));
                    assert forall|i: int| 0 <= i < stmts@.len() implies grammar::stmt_is(#[trigger] stmts@[i], vs[i]) by {
                        if i < stmts@.len() - 1 {
                        }
                    }
                }
            },
            None => {
                assert(grammar::statements(s@, q as int, vs) == (vs, q as int));
                break;
            },
        }
    }
    let end = skip_ws(s, q);
    if stmts.len() == 0 || end != s.len() {
        return Err(end);
    }
    Ok(stmts)
}

} // verus!
