//! The runtime representation of a compiled script, its errors, and the
//! interpreter that samples it.
use crate::ast;
use crate::sampling::{alias_weights, draw_index, AliasTable};
use crate::string_utils::{capitalise_first, capitalised};
use vstd::prelude::*;
use vstd::string::*;

pub use crate::compile::compile_script;

verus! {

/// How deep evaluation may nest (variables, bag draws, pattern parts, call
/// arguments) before it gives up with `RecursionLimit`.
pub const EVAL_DEPTH_LIMIT: u32 = 512;

#[derive(Debug, Clone)]
pub enum NameHint {
    InAssignment(String),
    Repl,
}

impl NameHint {
    pub open spec fn name(self) -> Seq<char> {
        match self {
            NameHint::InAssignment(name) => name@,
            NameHint::Repl => "<repl>"@,
        }
    }

    pub fn get_name(&self) -> (r: String)
        ensures
            r@ == self.name(),
    {
        match self {
            NameHint::InAssignment(name) => name.clone(),
            NameHint::Repl => String::from_str("<repl>"),
        }
    }
}

/// The name that diagnostics use for an optional hint.
pub open spec fn hint_name(h: Option<NameHint>) -> Seq<char> {
    match h {
        Some(h) => h.name(),
        None => "<unknown>"@,
    }
}

pub(crate) fn get_name_or_default(h: &Option<NameHint>) -> (r: String)
    ensures
        r@ == hint_name(*h),
{
    match h {
        Some(hint) => hint.get_name(),
        None => String::from_str("<unknown>"),
    }
}

pub(crate) fn copy_hint(h: &Option<NameHint>) -> (r: Option<NameHint>)
    ensures
        r == *h,
{
    match h {
        Some(NameHint::InAssignment(name)) => Some(NameHint::InAssignment(name.clone())),
        Some(NameHint::Repl) => Some(NameHint::Repl),
        None => None,
    }
}

#[derive(Debug, Clone, Copy, PartialEq, Eq, Structural)]
pub enum BuiltInFunction {
    UpperFirst,
    MaybePrepend,
    MaybeAppend,
}

impl BuiltInFunction {
    pub open spec fn named(s: Seq<char>) -> Option<BuiltInFunction> {
        if s == "capitalise"@ {
            Some(BuiltInFunction::UpperFirst)
        } else if s == "maybePrepend"@ {
            Some(BuiltInFunction::MaybePrepend)
        } else if s == "maybeAppend"@ {
            Some(BuiltInFunction::MaybeAppend)
        } else {
            None
        }
    }

    pub fn try_parse(s: &str) -> (r: Option<BuiltInFunction>)
        ensures
            r == BuiltInFunction::named(s@),
    {
        if str_equal(s, "capitalise") {
            Some(BuiltInFunction::UpperFirst)
        } else if str_equal(s, "maybePrepend") {
            Some(BuiltInFunction::MaybePrepend)
        } else if str_equal(s, "maybeAppend") {
            Some(BuiltInFunction::MaybeAppend)
        } else {
            None
        }
    }

    /// How many arguments the function takes.
    pub open spec fn arity(self) -> u8 {
        match self {
            BuiltInFunction::UpperFirst => 1,
            _ => 2,
        }
    }
}

/// Compares two strings character by character.
pub(crate) fn str_equal(a: &str, b: &str) -> (r: bool)
    ensures
        r == (a@ == b@),
{
    let ac = chars_of(a);
    let bc = chars_of(b);
    if ac.len() != bc.len() {
        return false;
    }
    let mut i: usize = 0;
    while i < ac.len()
        invariant
            ac@ == a@,
            bc@ == b@,
            ac@.len() == bc@.len(),
            0 <= i <= ac@.len(),
            forall|j: int| 0 <= j < i ==> ac@[j] == bc@[j],
        decreases ac@.len() - i,
    {
        if ac[i] != bc[i] {
            return false;
        }
        i = i + 1;
    }
    assert(a@ =~= b@);
    true
}

/// Relies on `str::chars`, collected: the characters of the string in order.
#[verifier::external_body]
pub(crate) fn chars_of(s: &str) -> (r: Vec<char>)
    ensures
        r@ == s@,
{
    s.chars().collect()
}

#[derive(Debug, Clone)]
pub enum FunctionLike {
    BuiltIn(BuiltInFunction),
}

#[derive(Debug)]
pub enum FunctionError {
    UnexpectedArgumentType { n: u8, expected: &'static str, was: &'static str },
    WrongNumberOfArguments { expected: u8, was: u8 },
}

#[derive(Debug)]
pub enum InterpreterError {
    UnknownVariable(String),
    UnexpectedType { expected: &'static str, was: &'static str },
    CoercionError { target: &'static str, was: &'static str },
    CannotBeIndexed { was: &'static str, key: String },
    TableMissingProperty { columns: Vec<String>, key: String },
    FunctionError { function: BuiltInFunction, inner: FunctionError },
    /// Evaluation nested deeper than `EVAL_DEPTH_LIMIT`, as a variable that
    /// is defined in terms of itself does.
    RecursionLimit,
}

#[derive(Debug)]
pub enum CompilerError {
    EmptyTable { name: String },
    EmptyBag { name: String },
    EmptyTableColumn { column_name: String, in_variable: String },
    InvalidTableRow { expected_columns: Vec<String>, values: Vec<ast::TableEntry>, row_number: usize },
    AppendInFirstColumn { row_number: usize, in_variable: String },
    UnknownFunction(String),
    /// The source text does not follow the grammar; `position` counts the
    /// characters before the point where parsing stopped.
    ParseError { position: usize },
}

#[derive(Debug)]
pub enum ExecutionError {
    Compiler(CompilerError),
    Interpreter(InterpreterError),
}

/// What an evaluation error says, as plain values.
pub enum EvalFailure {
    UnknownVariable(Seq<char>),
    UnexpectedType { expected: Seq<char>, was: Seq<char> },
    Coercion { target: Seq<char>, was: Seq<char> },
    CannotBeIndexed { was: Seq<char>, key: Seq<char> },
    MissingProperty { columns: Seq<Seq<char>>, key: Seq<char> },
    ArgumentType { function: BuiltInFunction, n: u8, expected: Seq<char>, was: Seq<char> },
    ArgumentCount { function: BuiltInFunction, expected: u8, was: u8 },
    RecursionLimit,
    /// The draws ran out, or named no item of the bag being sampled. No
    /// evaluation error stands for this: it marks draw sequences that no
    /// sampling produces.
    NoDraw,
}

pub open spec fn strings_view(v: Seq<String>) -> Seq<Seq<char>> {
    v.map_values(|s: String| s@)
}

impl View for InterpreterError {
    type V = EvalFailure;

    open spec fn view(&self) -> EvalFailure {
        match self {
            InterpreterError::UnknownVariable(n) => EvalFailure::UnknownVariable(n@),
            InterpreterError::UnexpectedType { expected, was } => EvalFailure::UnexpectedType {
                expected: expected@,
                was: was@,
            },
            InterpreterError::CoercionError { target, was } => EvalFailure::Coercion {
                target: target@,
                was: was@,
            },
            InterpreterError::CannotBeIndexed { was, key } => EvalFailure::CannotBeIndexed {
                was: was@,
                key: key@,
            },
            InterpreterError::TableMissingProperty { columns, key } => EvalFailure::MissingProperty {
                columns: strings_view(columns@),
                key: key@,
            },
            InterpreterError::FunctionError { function, inner } => match inner {
                FunctionError::UnexpectedArgumentType { n, expected, was } => EvalFailure::ArgumentType {
                    function: *function,
                    n: *n,
                    expected: expected@,
                    was: was@,
                },
                FunctionError::WrongNumberOfArguments { expected, was } => EvalFailure::ArgumentCount {
                    function: *function,
                    expected: *expected,
                    was: *was,
                },
            },
            InterpreterError::RecursionLimit => EvalFailure::RecursionLimit,
        }
    }
}

pub struct Pattern {
    pub parts: Vec<Expression>,
}

/// A table: one bag per column. Where a name occurs twice, the later column
/// is the one that property access finds.
pub struct Table {
    pub name_hint: Option<NameHint>,
    pub bags: Vec<(String, Bag)>,
}

/// A weighted choice among expressions: `items[i]` is drawn with a
/// probability proportional to the `i`-th weight of `distribution`.
pub struct Bag {
    pub id: usize,
    pub name_hint: Option<NameHint>,
    pub items: Vec<Expression>,
    pub distribution: AliasTable,
}

impl Bag {
    /// The weights, one per item.
    pub open spec fn weights(self) -> Seq<u64> {
        alias_weights(self.distribution)
    }

    pub open spec fn wf(self) -> bool {
        &&& self.items@.len() > 0
        &&& self.weights().len() == self.items@.len()
    }

    /// Draws an item index, each with a probability proportional to its
    /// weight.
    pub fn sample_index(&self) -> (r: usize)
        requires
            self.wf(),
        ensures
            r < self.items@.len(),
    {
        draw_index(&self.distribution)
    }
}

pub enum Expression {
    LiteralE(String),
    VariableE(String),
    PatternE(Pattern),
    BagE(Bag),
    TableE(Table),
    PropertyAccessE(Box<Expression>, String),
    CallE(BuiltInFunction, Vec<Expression>),
}

/// Every bag in the expression, also those of its tables, has one weight
/// per item and at least one item.
pub open spec fn expr_wf(e: Expression) -> bool
    decreases e,
{
    match e {
        Expression::LiteralE(_) => true,
        Expression::VariableE(_) => true,
        Expression::PatternE(p) => forall|i: int|
            0 <= i < p.parts@.len() ==> expr_wf(#[trigger] p.parts@[i]),
        Expression::BagE(b) => bag_wf(b),
        Expression::TableE(t) => table_wf(t),
        Expression::PropertyAccessE(base, _) => expr_wf(*base),
        Expression::CallE(_, args) => forall|i: int|
            0 <= i < args@.len() ==> expr_wf(#[trigger] args@[i]),
    }
}

pub open spec fn bag_wf(b: Bag) -> bool
    decreases b,
{
    &&& b.wf()
    &&& forall|i: int| 0 <= i < b.items@.len() ==> expr_wf(#[trigger] b.items@[i])
}

pub open spec fn table_wf(t: Table) -> bool
    decreases t,
{
    forall|i: int| 0 <= i < t.bags@.len() ==> bag_wf(#[trigger] t.bags@[i].1)
}


/// A value as the interpreter sees it: a string, or a bag or table that has
/// not been sampled.
pub enum SValue {
    Str(Seq<char>),
    BagV(Bag),
    TableV(Table),
}

pub open spec fn kind_name(v: SValue) -> Seq<char> {
    match v {
        SValue::Str(_) => "string"@,
        SValue::BagV(_) => "bag"@,
        SValue::TableV(_) => "table"@,
    }
}

/// The expression bound to `name`: the last binding of it wins.
pub open spec fn lookup(vars: Seq<(String, Expression)>, name: Seq<char>) -> Option<Expression>
    decreases vars.len(),
{
    if vars.len() == 0 {
        None
    } else if vars.last().0@ == name {
        Some(vars.last().1)
    } else {
        lookup(vars.drop_last(), name)
    }
}

/// The bag of the column `key`: the last column of that name wins.
pub open spec fn column_of(cols: Seq<(String, Bag)>, key: Seq<char>) -> Option<Bag>
    decreases cols.len(),
{
    if cols.len() == 0 {
        None
    } else if cols.last().0@ == key {
        Some(cols.last().1)
    } else {
        column_of(cols.drop_last(), key)
    }
}

pub open spec fn column_names(cols: Seq<(String, Bag)>) -> Seq<Seq<char>> {
    cols.map_values(|c: (String, Bag)| c.0@)
}

pub open spec fn arg_count(n: nat) -> u8 {
    (n % 256) as u8
}

/// Evaluation of `e` where the bag draws are read, in order, from `d`: the
/// result and the draws left over. `fuel` bounds the depth of nesting.
pub open spec fn eval_s(vars: Seq<(String, Expression)>, e: Expression, fuel: nat, d: Seq<usize>) -> (
    Result<SValue, EvalFailure>,
    Seq<usize>,
)
    decreases fuel, 0nat,
{
    if fuel == 0 {
        (Err(EvalFailure::RecursionLimit), d)
    } else {
        let f = (fuel - 1) as nat;
        match e {
            Expression::LiteralE(s) => (Ok(SValue::Str(s@)), d),
            Expression::VariableE(n) => match lookup(vars, n@) {
                None => (Err(EvalFailure::UnknownVariable(n@)), d),
                Some(x) => eval_s(vars, x, f, d),
            },
            Expression::PatternE(p) => {
                let (r, d2) = parts_s(vars, p.parts@, f, d);
                match r {
                    Ok(s) => (Ok(SValue::Str(s)), d2),
                    Err(err) => (Err(err), d2),
                }
            },
            Expression::BagE(b) => (Ok(SValue::BagV(b)), d),
            Expression::TableE(t) => (Ok(SValue::TableV(t)), d),
            Expression::PropertyAccessE(base, key) => {
                let (r, d2) = eval_s(vars, *base, f, d);
                match r {
                    Err(err) => (Err(err), d2),
                    Ok(SValue::TableV(t)) => match column_of(t.bags@, key@) {
                        None => (
                            Err(
                                EvalFailure::MissingProperty {
                                    columns: column_names(t.bags@),
                                    key: key@,
                                },
                            ),
                            d2,
                        ),
                        Some(b) => (Ok(SValue::BagV(b)), d2),
                    },
                    Ok(v) => (Err(EvalFailure::CannotBeIndexed { was: kind_name(v), key: key@ }), d2),
                }
            },
            Expression::CallE(function, args) => {
                if args@.len() != function.arity() as nat {
                    (
                        Err(
                            EvalFailure::ArgumentCount {
                                function,
                                expected: function.arity(),
                                was: arg_count(args@.len()),
                            },
                        ),
                        d,
                    )
                } else {
                    match function {
                        BuiltInFunction::UpperFirst => {
                            let (r, d2) = string_s(vars, args@[0], f, d);
                            match r {
                                Ok(s) => (Ok(SValue::Str(capitalised(s))), d2),
                                Err(err) => (Err(err), d2),
                            }
                        },
                        BuiltInFunction::MaybePrepend => {
                            let (r, d2) = string_s(vars, args@[1], f, d);
                            match r {
                                Err(err) => (Err(err), d2),
                                Ok(c) => if c.len() == 0 {
                                    (Ok(SValue::Str(c)), d2)
                                } else {
                                    let (r2, d3) = string_s(vars, args@[0], f, d2);
                                    match r2 {
                                        Ok(p) => (Ok(SValue::Str(p + c)), d3),
                                        Err(err) => (Err(err), d3),
                                    }
                                },
                            }
                        },
                        BuiltInFunction::MaybeAppend => {
                            let (r, d2) = string_s(vars, args@[0], f, d);
                            match r {
                                Err(err) => (Err(err), d2),
                                Ok(c) => if c.len() == 0 {
                                    (Ok(SValue::Str(c)), d2)
                                } else {
                                    let (r2, d3) = string_s(vars, args@[1], f, d2);
                                    match r2 {
                                        Ok(x) => (Ok(SValue::Str(c + x)), d3),
                                        Err(err) => (Err(err), d3),
                                    }
                                },
                            }
                        },
                    }
                }
            },
        }
    }
}

/// Evaluates `e` and coerces the value to a string.
pub open spec fn string_s(vars: Seq<(String, Expression)>, e: Expression, fuel: nat, d: Seq<usize>) -> (
    Result<Seq<char>, EvalFailure>,
    Seq<usize>,
)
    decreases fuel, 1nat,
{
    let (r, d2) = eval_s(vars, e, fuel, d);
    match r {
        Err(err) => (Err(err), d2),
        Ok(v) => coerce_s(vars, v, fuel, d2),
    }
}

/// Coercion of a value to a string: a bag takes the next draw as the index
/// of its item and coerces that item's value; a table cannot be coerced.
pub open spec fn coerce_s(vars: Seq<(String, Expression)>, v: SValue, fuel: nat, d: Seq<usize>) -> (
    Result<Seq<char>, EvalFailure>,
    Seq<usize>,
)
    decreases fuel, 0nat,
{
    match v {
        SValue::Str(s) => (Ok(s), d),
        SValue::TableV(_) => (Err(EvalFailure::Coercion { target: "string"@, was: "table"@ }), d),
        SValue::BagV(b) => if fuel == 0 {
            (Err(EvalFailure::RecursionLimit), d)
        } else if d.len() == 0 || d[0] >= b.items@.len() {
            (Err(EvalFailure::NoDraw), d)
        } else {
            string_s(vars, b.items@[d[0] as int], (fuel - 1) as nat, d.drop_first())
        },
    }
}

/// The parts of a pattern, each evaluated and coerced in order and joined.
pub open spec fn parts_s(vars: Seq<(String, Expression)>, parts: Seq<Expression>, fuel: nat, d: Seq<usize>) -> (
    Result<Seq<char>, EvalFailure>,
    Seq<usize>,
)
    decreases fuel, 1nat + parts.len(),
{
    if parts.len() == 0 {
        (Ok(Seq::empty()), d)
    } else {
        let (r, d2) = string_s(vars, parts[0], fuel, d);
        match r {
            Err(err) => (Err(err), d2),
            Ok(s) => {
                let (r2, d3) = parts_s(vars, parts.drop_first(), fuel, d2);
                match r2 {
                    Ok(t) => (Ok(s + t), d3),
                    Err(err) => (Err(err), d3),
                }
            },
        }
    }
}


pub broadcast proof fn lemma_empty_concat<A>(s: Seq<A>)
    ensures
        #[trigger] (Seq::<A>::empty() + s) == s,
{
    assert(Seq::<A>::empty() + s =~= s);
}

pub broadcast proof fn lemma_concat_assoc<A>(a: Seq<A>, b: Seq<A>, c: Seq<A>)
    ensures
        #[trigger] ((a + b) + c) == a + (b + c),
{
    assert((a + b) + c =~= a + (b + c));
}

pub proof fn lemma_eval_pattern(vars: Seq<(String, Expression)>, p: Pattern, fuel: nat, d: Seq<usize>)
    requires
        fuel > 0,
    ensures
        eval_s(vars, Expression::PatternE(p), fuel, d) == (match parts_s(vars, p.parts@, (fuel - 1) as nat, d).0 {
            Ok(s) => Ok(SValue::Str(s)),
            Err(err) => Err(err),
        }, parts_s(vars, p.parts@, (fuel - 1) as nat, d).1),
{
}

pub enum Value<'a> {
    StringV(String),
    BagV(&'a Bag),
    TableV(&'a Table),
}

impl<'a> View for Value<'a> {
    type V = SValue;

    open spec fn view(&self) -> SValue {
        match self {
            Value::StringV(s) => SValue::Str(s@),
            Value::BagV(b) => SValue::BagV(**b),
            Value::TableV(t) => SValue::TableV(**t),
        }
    }
}

pub open spec fn value_wf(v: SValue) -> bool {
    match v {
        SValue::Str(_) => true,
        SValue::BagV(b) => bag_wf(b),
        SValue::TableV(t) => table_wf(t),
    }
}

pub open spec fn result_view<'a>(r: Result<Value<'a>, InterpreterError>) -> Result<SValue, EvalFailure> {
    match r {
        Ok(v) => Ok(v@),
        Err(e) => Err(e@),
    }
}

pub open spec fn string_result_view(r: Result<String, InterpreterError>) -> Result<Seq<char>, EvalFailure> {
    match r {
        Ok(s) => Ok(s@),
        Err(e) => Err(e@),
    }
}

/// `s` put in front of the string that a successful result holds.
pub open spec fn prepend(s: Seq<char>, r: (Result<Seq<char>, EvalFailure>, Seq<usize>)) -> (
    Result<Seq<char>, EvalFailure>,
    Seq<usize>,
) {
    match r.0 {
        Ok(t) => (Ok(s + t), r.1),
        Err(e) => (Err(e), r.1),
    }
}

impl<'a> Value<'a> {
    pub fn get_type_name(&self) -> (r: &'static str)
        ensures
            r@ == kind_name(self@),
    {
        match self {
            Value::StringV(_) => "string",
            Value::BagV(_) => "bag",
            Value::TableV(_) => "table",
        }
    }

    pub fn try_as_string(self) -> (r: Result<String, InterpreterError>)
        ensures
            match self@ {
                SValue::Str(s) => r matches Ok(x) && x@ == s,
                v => r matches Err(e) && e@ == (EvalFailure::UnexpectedType {
                    expected: "string"@,
                    was: kind_name(v),
                }),
            },
    {
        match self {
            Value::StringV(s) => Ok(s),
            otherwise => {
                let was = otherwise.get_type_name();
                Err(InterpreterError::UnexpectedType { expected: "string", was })
            },
        }
    }
}

/// The last column named `key`, if any.
fn find_column<'a>(t: &'a Table, key: &String) -> (r: Option<&'a Bag>)
    requires
        table_wf(*t),
    ensures
        match column_of(t.bags@, key@) {
            None => r is None,
            Some(b) => r matches Some(x) && *x == b,
        },
        r matches Some(x) ==> bag_wf(*x),
{
    let mut i = t.bags.len();
    assert(t.bags@.subrange(0, i as int) =~= t.bags@);
    while i > 0
        invariant
            0 <= i <= t.bags@.len(),
            table_wf(*t),
            column_of(t.bags@, key@) == column_of(t.bags@.subrange(0, i as int), key@),
        decreases i,
    {
        let ghost sub = t.bags@.subrange(0, i as int);
        assert(sub.drop_last() =~= t.bags@.subrange(0, i - 1));
        if t.bags[i - 1].0 == *key {
            return Some(&t.bags[i - 1].1);
        }
        i = i - 1;
    }
    None
}

/// The names of the table's columns, in order.
fn column_list(t: &Table) -> (r: Vec<String>)
    ensures
        strings_view(r@) == column_names(t.bags@),
{
    let mut out: Vec<String> = Vec::new();
    let mut i: usize = 0;
    while i < t.bags.len()
        invariant
            0 <= i <= t.bags@.len(),
            out@.len() == i,
            forall|j: int| 0 <= j < i ==> (#[trigger] out@[j])@ == t.bags@[j].0@,
        decreases t.bags@.len() - i,
    {
        out.push(t.bags[i].0.clone());
        i = i + 1;
    }
    assert(strings_view(out@) =~= column_names(t.bags@));
    out
}

pub struct CompiledScript {
    variables: Vec<(String, Expression)>,
    id_counter: usize,
}

impl CompiledScript {
    /// The bindings, in the order they were made.
    pub closed spec fn vars(self) -> Seq<(String, Expression)> {
        self.variables@
    }

    /// The last id handed to a bag.
    pub closed spec fn last_id(self) -> usize {
        self.id_counter
    }

    pub closed spec fn wf(self) -> bool {
        forall|i: int| 0 <= i < self.variables@.len() ==> expr_wf(#[trigger] self.variables@[i].1)
    }

    pub fn new() -> (r: Self)
        ensures
            r.wf(),
            r.vars().len() == 0,
            r.last_id() == 0,
    {
        CompiledScript { variables: Vec::new(), id_counter: 0 }
    }

    /// Hands out the next bag id; the counter stops at `usize::MAX`.
    pub(crate) fn next_id(&mut self) -> (r: usize)
        ensures
            final(self).vars() == old(self).vars(),
            final(self).wf() == old(self).wf(),
            r == final(self).last_id(),
            old(self).last_id() <= final(self).last_id(),
            old(self).last_id() < usize::MAX ==> final(self).last_id() == old(self).last_id() + 1,
    {
        if self.id_counter < usize::MAX {
            self.id_counter = self.id_counter + 1;
        }
        self.id_counter
    }

    pub(crate) fn define_variable(&mut self, name: String, value: Expression)
        requires
            old(self).wf(),
            expr_wf(value),
        ensures
            final(self).wf(),
            final(self).vars() == old(self).vars().push((name, value)),
            final(self).last_id() == old(self).last_id(),
    {
        self.variables.push((name, value));
    }

    fn find_variable(&self, name: &String) -> (r: Option<&Expression>)
        requires
            self.wf(),
        ensures
            match lookup(self.vars(), name@) {
                None => r is None,
                Some(x) => r matches Some(y) && *y == x,
            },
            r matches Some(y) ==> expr_wf(*y),
    {
        let mut i = self.variables.len();
        assert(self.variables@.subrange(0, i as int) =~= self.variables@);
        while i > 0
            invariant
                0 <= i <= self.variables@.len(),
                self.wf(),
                lookup(self.variables@, name@) == lookup(self.variables@.subrange(0, i as int), name@),
            decreases i,
        {
            let ghost sub = self.variables@.subrange(0, i as int);
            assert(sub.drop_last() =~= self.variables@.subrange(0, i - 1));
            if self.variables[i - 1].0 == *name {
                return Some(&self.variables[i - 1].1);
            }
            i = i - 1;
        }
        None
    }

    fn eval_in<'a>(&'a self, e: &'a Expression, fuel: u32) -> (r: (Result<Value<'a>, InterpreterError>, Ghost<Seq<usize>>))
        requires
            self.wf(),
            expr_wf(*e),
        ensures
            forall|rest: Seq<usize>|
                #[trigger] eval_s(self.vars(), *e, fuel as nat, r.1@ + rest) == (result_view(r.0), rest),
            r.0 matches Ok(v) ==> value_wf(v@),
        decreases fuel, 0nat,
    {
        broadcast use lemma_empty_concat, lemma_concat_assoc;

        if fuel == 0 {
            let res: Result<Value<'a>, InterpreterError> = Err(InterpreterError::RecursionLimit);
            assert forall|rest: Seq<usize>|
                #[trigger] eval_s(self.vars(), *e, fuel as nat, Seq::empty() + rest) == (result_view(res), rest) by {
                assert(Seq::<usize>::empty() + rest == rest);
            }
            return (res, Ghost(Seq::empty()));
        }
        let f = fuel - 1;
        match e {
            Expression::LiteralE(s) => {
                let out = s.clone();
                assert forall|rest: Seq<usize>|
                    #[trigger] eval_s(self.vars(), *e, fuel as nat, Seq::empty() + rest) == (result_view(Ok::<Value<'a>, InterpreterError>(Value::StringV(out))), rest) by {
                    assert(Seq::<usize>::empty() + rest == rest);
                    assert(eval_s(self.vars(), *e, fuel as nat, rest) == (Ok::<SValue, EvalFailure>(SValue::Str(s@)), rest));
                }
                (Ok(Value::StringV(out)), Ghost(Seq::empty()))
            },
            Expression::VariableE(n) => match self.find_variable(n) {
                None => {
                    let res: Result<Value<'a>, InterpreterError> = Err(InterpreterError::UnknownVariable(n.clone()));
                    assert forall|rest: Seq<usize>|
                        #[trigger] eval_s(self.vars(), *e, fuel as nat, Seq::empty() + rest) == (result_view(res), rest) by {
                        assert(Seq::<usize>::empty() + rest == rest);
                    }
                    (res, Ghost(Seq::empty()))
                },
                Some(x) => {
                    let (r, l) = self.eval_in(x, f);
                    assert forall|rest: Seq<usize>|
                        #[trigger] eval_s(self.vars(), *e, fuel as nat, l@ + rest) == (result_view(r), rest) by {
                        assert(eval_s(self.vars(), *x, f as nat, l@ + rest) == (result_view(r), rest));
                    }
                    (r, l)
                },
            },
            Expression::PatternE(p) => {
                let mut combined = String::new();
                let ghost mut log: Seq<usize> = Seq::empty();
                let mut i: usize = 0;
                assert(p.parts@.subrange(0, p.parts@.len() as int) =~= p.parts@);
                while i < p.parts.len()
                    invariant
                        self.wf(),
                        expr_wf(*e),
                        *e == Expression::PatternE(*p),
                        forall|j: int| 0 <= j < p.parts@.len() ==> expr_wf(#[trigger] p.parts@[j]),
                        f == fuel - 1,
                        0 <= i <= p.parts@.len(),
                        forall|rest: Seq<usize>|
                            #[trigger] parts_s(self.vars(), p.parts@, f as nat, log + rest) == prepend(
                                combined@,
                                parts_s(self.vars(), p.parts@.subrange(i as int, p.parts@.len() as int), f as nat, rest),
                            ),
                    decreases p.parts@.len() - i,
                {
                    let ghost sub = p.parts@.subrange(i as int, p.parts@.len() as int);
                    assert(sub.drop_first() =~= p.parts@.subrange(i + 1, p.parts@.len() as int));
                    assert(sub[0] == p.parts@[i as int]);
                    let (r, l) = self.string_in(&p.parts[i], f);
                    match r {
                        Err(err) => {
                            assert forall|rest: Seq<usize>|
                                #[trigger] eval_s(self.vars(), *e, fuel as nat, (log + l@) + rest)
                                    == (result_view(Err::<Value<'a>, InterpreterError>(err)), rest) by {
                                assert(parts_s(self.vars(), p.parts@, f as nat, log + (l@ + rest)) == prepend(
                                    combined@,
                                    parts_s(self.vars(), sub, f as nat, l@ + rest),
                                ));
                                assert(string_s(self.vars(), sub[0], f as nat, l@ + rest) == (string_result_view(Err::<String, InterpreterError>(err)), rest));
                                assert(parts_s(self.vars(), sub, f as nat, l@ + rest) == (string_result_view(Err::<String, InterpreterError>(err)), rest));
                                lemma_eval_pattern(self.vars(), *p, fuel as nat, log + (l@ + rest));
                                assert((log + l@) + rest == log + (l@ + rest));
                            }
                            return (Err(err), Ghost(log + l@));
                        },
                        Ok(s) => {
                            proof {
                                assert forall|rest: Seq<usize>|
                                    #[trigger] parts_s(self.vars(), p.parts@, f as nat, (log + l@) + rest) == prepend(
                                        combined@ + s@,
                                        parts_s(self.vars(), p.parts@.subrange(i + 1, p.parts@.len() as int), f as nat, rest),
                                    ) by {
                                    assert(parts_s(self.vars(), p.parts@, f as nat, log + (l@ + rest)) == prepend(
                                        combined@,
                                        parts_s(self.vars(), sub, f as nat, l@ + rest),
                                    ));
                                    assert(string_s(self.vars(), sub[0], f as nat, l@ + rest) == (string_result_view(Ok::<String, InterpreterError>(s)), rest));
                                    assert((log + l@) + rest == log + (l@ + rest));
                                    let tail = parts_s(self.vars(), p.parts@.subrange(i + 1, p.parts@.len() as int), f as nat, rest);
                                    assert(parts_s(self.vars(), sub, f as nat, l@ + rest) == prepend(s@, tail));
                                    match tail.0 {
                                        Ok(t) => {
                                            assert(combined@ + (s@ + t) == (combined@ + s@) + t);
                                        },
                                        Err(_) => {},
                                    }
                                }
                                log = log + l@;
                            }
                            combined.append(s.as_str());
                            i = i + 1;
                        },
                    }
                }
                assert forall|rest: Seq<usize>|
                    #[trigger] eval_s(self.vars(), *e, fuel as nat, log + rest)
                        == (result_view(Ok::<Value<'a>, InterpreterError>(Value::StringV(combined))), rest) by {
                    assert(parts_s(self.vars(), p.parts@, f as nat, log + rest) == prepend(
                        combined@,
                        parts_s(self.vars(), p.parts@.subrange(i as int, p.parts@.len() as int), f as nat, rest),
                    ));
                    assert(combined@ + Seq::<char>::empty() =~= combined@);
                    lemma_eval_pattern(self.vars(), *p, fuel as nat, log + rest);
                }
                (Ok(Value::StringV(combined)), Ghost(log))
            },
            Expression::BagE(b) => {
                let res: Result<Value<'a>, InterpreterError> = Ok(Value::BagV(b));
                assert forall|rest: Seq<usize>|
                    #[trigger] eval_s(self.vars(), *e, fuel as nat, Seq::empty() + rest) == (result_view(res), rest) by {
                    assert(Seq::<usize>::empty() + rest == rest);
                }
                (res, Ghost(Seq::empty()))
            },
            Expression::TableE(t) => {
                let res: Result<Value<'a>, InterpreterError> = Ok(Value::TableV(t));
                assert forall|rest: Seq<usize>|
                    #[trigger] eval_s(self.vars(), *e, fuel as nat, Seq::empty() + rest) == (result_view(res), rest) by {
                    assert(Seq::<usize>::empty() + rest == rest);
                }
                (res, Ghost(Seq::empty()))
            },
            Expression::PropertyAccessE(base, key) => {
                let (r, l) = self.eval_in(base, f);
                let ghost rv = result_view(r);
                let res: Result<Value<'a>, InterpreterError> = match r {
                    Err(err) => Err(err),
                    Ok(Value::TableV(t)) => match find_column(t, key) {
                        None => Err(InterpreterError::TableMissingProperty { columns: column_list(t), key: key.clone() }),
                        Some(b) => Ok(Value::BagV(b)),
                    },
                    Ok(v) => {
                        let was = v.get_type_name();
                        Err(InterpreterError::CannotBeIndexed { was, key: key.clone() })
                    },
                };
                assert forall|rest: Seq<usize>|
                    #[trigger] eval_s(self.vars(), *e, fuel as nat, l@ + rest) == (result_view(res), rest) by {
                    assert(eval_s(self.vars(), **base, f as nat, l@ + rest) == (rv, rest));
                }
                (res, l)
            },
            Expression::CallE(function, args) => {
                let (r, l) = self.call_in(*function, args, f);
                assert forall|rest: Seq<usize>|
                    #[trigger] eval_s(self.vars(), *e, fuel as nat, l@ + rest) == (result_view(r), rest) by {
                    assert(eval_s(self.vars(), Expression::CallE(*function, *args), f as nat + 1, l@ + rest) == (result_view(r), rest));
                }
                (r, l)
            },
        }
    }

    fn call_in<'a>(&'a self, function: BuiltInFunction, args: &'a Vec<Expression>, f: u32) -> (r: (Result<Value<'a>, InterpreterError>, Ghost<Seq<usize>>))
        requires
            self.wf(),
            f < u32::MAX,
            forall|i: int| 0 <= i < args@.len() ==> expr_wf(#[trigger] args@[i]),
        ensures
            forall|rest: Seq<usize>|
                #[trigger] eval_s(self.vars(), Expression::CallE(function, *args), f as nat + 1, r.1@ + rest)
                    == (result_view(r.0), rest),
            r.0 matches Ok(v) ==> value_wf(v@),
        decreases f, 2nat,
    {
        broadcast use lemma_empty_concat, lemma_concat_assoc;

        let expected: u8 = match function {
            BuiltInFunction::UpperFirst => 1,
            _ => 2,
        };
        if args.len() != expected as usize {
            let was = (args.len() % 256) as u8;
            return (
                Err(
                    InterpreterError::FunctionError {
                        function,
                        inner: FunctionError::WrongNumberOfArguments { expected, was },
                    },
                ),
                Ghost(Seq::empty()),
            );
        }
        let ghost vars = self.vars();
        let ghost call = Expression::CallE(function, *args);
        match function {
            BuiltInFunction::UpperFirst => {
                let (r, l) = self.string_in(&args[0], f);
                match r {
                    Err(err) => {
                        assert forall|rest: Seq<usize>|
                            #[trigger] eval_s(vars, call, f as nat + 1, l@ + rest) == (result_view(Err::<Value<'a>, InterpreterError>(err)), rest) by {
                            assert(string_s(vars, args@[0], f as nat, l@ + rest) == (string_result_view(Err::<String, InterpreterError>(err)), rest));
                        }
                        (Err(err), l)
                    },
                    Ok(s) => {
                        let ghost sv = s@;
                        let out = capitalise_first(s.as_str());
                        assert forall|rest: Seq<usize>|
                            #[trigger] eval_s(vars, call, f as nat + 1, l@ + rest) == (result_view(Ok::<Value<'a>, InterpreterError>(Value::StringV(out))), rest) by {
                            assert(string_s(vars, args@[0], f as nat, l@ + rest) == (Ok::<Seq<char>, EvalFailure>(sv), rest));
                        }
                        (Ok(Value::StringV(out)), l)
                    },
                }
            },
            BuiltInFunction::MaybePrepend => {
                let (r, l) = self.string_in(&args[1], f);
                match r {
                    Err(err) => {
                        assert forall|rest: Seq<usize>|
                            #[trigger] eval_s(vars, call, f as nat + 1, l@ + rest) == (result_view(Err::<Value<'a>, InterpreterError>(err)), rest) by {
                            assert(string_s(vars, args@[1], f as nat, l@ + rest) == (string_result_view(Err::<String, InterpreterError>(err)), rest));
                        }
                        (Err(err), l)
                    },
                    Ok(c) => {
                        let ghost cv = c@;
                        if c.as_str().is_empty() {
                            assert forall|rest: Seq<usize>|
                                #[trigger] eval_s(vars, call, f as nat + 1, l@ + rest) == (result_view(Ok::<Value<'a>, InterpreterError>(Value::StringV(c))), rest) by {
                                assert(string_s(vars, args@[1], f as nat, l@ + rest) == (Ok::<Seq<char>, EvalFailure>(cv), rest));
                            }
                            (Ok(Value::StringV(c)), l)
                        } else {
                            let (r2, l2) = self.string_in(&args[0], f);
                            let res = match r2 {
                                Err(err) => Err(err),
                                Ok(p) => Ok(Value::StringV(p.concat(c.as_str()))),
                            };
                            assert forall|rest: Seq<usize>|
                                #[trigger] eval_s(vars, call, f as nat + 1, (l@ + l2@) + rest) == (result_view(res), rest) by {
                                assert(string_s(vars, args@[1], f as nat, l@ + (l2@ + rest)) == (Ok::<Seq<char>, EvalFailure>(cv), l2@ + rest));
                                assert(string_s(vars, args@[0], f as nat, l2@ + rest) == (string_result_view(r2), rest));
                            }
                            (res, Ghost(l@ + l2@))
                        }
                    },
                }
            },
            BuiltInFunction::MaybeAppend => {
                let (r, l) = self.string_in(&args[0], f);
                match r {
                    Err(err) => {
                        assert forall|rest: Seq<usize>|
                            #[trigger] eval_s(vars, call, f as nat + 1, l@ + rest) == (result_view(Err::<Value<'a>, InterpreterError>(err)), rest) by {
                            assert(string_s(vars, args@[0], f as nat, l@ + rest) == (string_result_view(Err::<String, InterpreterError>(err)), rest));
                        }
                        (Err(err), l)
                    },
                    Ok(c) => {
                        let ghost cv = c@;
                        if c.as_str().is_empty() {
                            assert forall|rest: Seq<usize>|
                                #[trigger] eval_s(vars, call, f as nat + 1, l@ + rest) == (result_view(Ok::<Value<'a>, InterpreterError>(Value::StringV(c))), rest) by {
                                assert(string_s(vars, args@[0], f as nat, l@ + rest) == (Ok::<Seq<char>, EvalFailure>(cv), rest));
                            }
                            (Ok(Value::StringV(c)), l)
                        } else {
                            let (r2, l2) = self.string_in(&args[1], f);
                            let res = match r2 {
                                Err(err) => Err(err),
                                Ok(x) => Ok(Value::StringV(c.concat(x.as_str()))),
                            };
                            assert forall|rest: Seq<usize>|
                                #[trigger] eval_s(vars, call, f as nat + 1, (l@ + l2@) + rest) == (result_view(res), rest) by {
                                assert(string_s(vars, args@[0], f as nat, l@ + (l2@ + rest)) == (Ok::<Seq<char>, EvalFailure>(cv), l2@ + rest));
                                assert(string_s(vars, args@[1], f as nat, l2@ + rest) == (string_result_view(r2), rest));
                            }
                            (res, Ghost(l@ + l2@))
                        }
                    },
                }
            },
        }
    }

    fn string_in<'a>(&'a self, e: &'a Expression, fuel: u32) -> (r: (Result<String, InterpreterError>, Ghost<Seq<usize>>))
        requires
            self.wf(),
            expr_wf(*e),
        ensures
            forall|rest: Seq<usize>|
                #[trigger] string_s(self.vars(), *e, fuel as nat, r.1@ + rest) == (string_result_view(r.0), rest),
        decreases fuel, 1nat,
    {
        broadcast use lemma_empty_concat, lemma_concat_assoc;

        let (r, l) = self.eval_in(e, fuel);
        match r {
            Err(err) => {
                assert forall|rest: Seq<usize>|
                    #[trigger] string_s(self.vars(), *e, fuel as nat, l@ + rest) == (string_result_view(Err::<String, InterpreterError>(err)), rest) by {
                    assert(eval_s(self.vars(), *e, fuel as nat, l@ + rest) == (result_view(Err::<Value<'a>, InterpreterError>(err)), rest));
                }
                (Err(err), l)
            },
            Ok(v) => {
                let ghost vv = v@;
                let (r2, l2) = self.coerce_in(v, fuel);
                assert forall|rest: Seq<usize>|
                    #[trigger] string_s(self.vars(), *e, fuel as nat, (l@ + l2@) + rest) == (string_result_view(r2), rest) by {
                    assert(eval_s(self.vars(), *e, fuel as nat, l@ + (l2@ + rest)) == (Ok::<SValue, EvalFailure>(vv), l2@ + rest));
                    assert(coerce_s(self.vars(), vv, fuel as nat, l2@ + rest) == (string_result_view(r2), rest));
                }
                (r2, Ghost(l@ + l2@))
            },
        }
    }

    fn coerce_in<'a>(&'a self, v: Value<'a>, fuel: u32) -> (r: (Result<String, InterpreterError>, Ghost<Seq<usize>>))
        requires
            self.wf(),
            value_wf(v@),
        ensures
            forall|rest: Seq<usize>|
                #[trigger] coerce_s(self.vars(), v@, fuel as nat, r.1@ + rest) == (string_result_view(r.0), rest),
        decreases fuel, 0nat,
    {
        broadcast use lemma_empty_concat, lemma_concat_assoc;

        match v {
            Value::StringV(s) => (Ok(s), Ghost(Seq::empty())),
            Value::TableV(_) => (
                Err(InterpreterError::CoercionError { target: "string", was: "table" }),
                Ghost(Seq::empty()),
            ),
            Value::BagV(b) => {
                if fuel == 0 {
                    return (Err(InterpreterError::RecursionLimit), Ghost(Seq::empty()));
                }
                let i = b.sample_index();
                let (r, l) = self.string_in(&b.items[i], fuel - 1);
                proof {
                    assert forall|rest: Seq<usize>|
                        #[trigger] coerce_s(self.vars(), v@, fuel as nat, (seq![i] + l@) + rest)
                            == (string_result_view(r), rest) by {
                        let d = seq![i] + (l@ + rest);
                        assert(d.drop_first() =~= l@ + rest);
                        assert(d[0] == i);
                        assert(string_s(self.vars(), b.items@[i as int], (fuel - 1) as nat, l@ + rest) == (string_result_view(r), rest));
                    }
                }
                (r, Ghost(seq![i] + l@))
            },
        }
    }

    /// Evaluates an expression; bags and tables come back unsampled.
    pub fn eval_expression<'a>(&'a self, expression: &'a Expression) -> (r: Result<Value<'a>, InterpreterError>)
        requires
            self.wf(),
            expr_wf(*expression),
        ensures
            exists|d: Seq<usize>|
                eval_s(self.vars(), *expression, EVAL_DEPTH_LIMIT as nat, d) == (result_view(r), Seq::<usize>::empty()),
            r matches Ok(v) ==> value_wf(v@),
    {
        let (r, l) = self.eval_in(expression, EVAL_DEPTH_LIMIT);
        assert(l@ + Seq::<usize>::empty() =~= l@);
        assert(eval_s(self.vars(), *expression, EVAL_DEPTH_LIMIT as nat, l@ + Seq::<usize>::empty()) == (result_view(r), Seq::<usize>::empty()));
        r
    }

    /// Coerces a value to a string, sampling bags as it goes.
    pub fn try_coerce_to_string<'a>(&'a self, value: Value<'a>) -> (r: Result<String, InterpreterError>)
        requires
            self.wf(),
            value_wf(value@),
        ensures
            exists|d: Seq<usize>|
                coerce_s(self.vars(), value@, EVAL_DEPTH_LIMIT as nat, d) == (string_result_view(r), Seq::<usize>::empty()),
            value@ matches SValue::BagV(b) ==> exists|i: int, d: Seq<usize>|
                0 <= i < b.items@.len() && #[trigger] string_s(self.vars(), b.items@[i], (EVAL_DEPTH_LIMIT - 1) as nat, d)
                    == (string_result_view(r), Seq::<usize>::empty()),
            value@ matches SValue::BagV(b) ==> (crate::laws::all_literals(b.items@) ==> r is Ok && exists|i: int|
                0 <= i < b.items@.len() && r->Ok_0@ == crate::laws::literal_text(#[trigger] b.items@[i])),
    {
        let ghost v = value@;
        let (r, l) = self.coerce_in(value, EVAL_DEPTH_LIMIT);
        assert(l@ + Seq::<usize>::empty() =~= l@);
        assert(coerce_s(self.vars(), v, EVAL_DEPTH_LIMIT as nat, l@ + Seq::<usize>::empty()) == (string_result_view(r), Seq::<usize>::empty()));
        proof {
            if v is BagV {
                let b = v->BagV_0;
                let d0 = l@;
                assert(d0.len() > 0 && d0[0] < b.items@.len()) by {
                    if d0.len() == 0 || d0[0] >= b.items@.len() {
                        assert(coerce_s(self.vars(), v, EVAL_DEPTH_LIMIT as nat, d0).0 == Err::<Seq<char>, EvalFailure>(EvalFailure::NoDraw));
                    }
                }
                let i = d0[0] as int;
                assert(string_s(self.vars(), b.items@[i], (EVAL_DEPTH_LIMIT - 1) as nat, d0.drop_first()) == (string_result_view(r), Seq::<usize>::empty()));
                if crate::laws::all_literals(b.items@) {
                    assert(b.items@[i] is LiteralE);
                    let t = b.items@[i]->LiteralE_0;
                    crate::laws::law_literal_coercion(self.vars(), t, (EVAL_DEPTH_LIMIT - 1) as nat, d0.drop_first());
                }
            }
        }
        r
    }

    /// Renders the `result` binding: evaluates it and coerces the value to a
    /// string; a table is an unexpected type here.
    pub fn run(&self) -> (r: Result<String, InterpreterError>)
        requires
            self.wf(),
            lookup(self.vars(), "result"@) is Some,
        ensures
            exists|d: Seq<usize>| run_s(self.vars(), d) == (string_result_view(r), Seq::<usize>::empty()),
    {
        broadcast use lemma_empty_concat, lemma_concat_assoc;

        let key = String::from_str("result");
        let entry = match self.find_variable(&key) {
            Some(x) => x,
            None => {
                // `result` is bound, by the precondition.
                assert(false);
                return Err(InterpreterError::UnknownVariable(key));
            },
        };
        let (r, l) = self.eval_in(entry, EVAL_DEPTH_LIMIT);
        assert(eval_s(self.vars(), *entry, EVAL_DEPTH_LIMIT as nat, l@ + Seq::<usize>::empty()) == (result_view(r), Seq::<usize>::empty()));
        match r {
            Err(err) => {
                assert(l@ + Seq::<usize>::empty() =~= l@);
                assert(run_s(self.vars(), l@) == (string_result_view(Err::<String, InterpreterError>(err)), Seq::<usize>::empty()));
                Err(err)
            },
            Ok(Value::TableV(t)) => {
                assert(l@ + Seq::<usize>::empty() =~= l@);
                let res: Result<String, InterpreterError> = Err(InterpreterError::UnexpectedType { expected: "string", was: "table" });
                assert(run_s(self.vars(), l@) == (string_result_view(res), Seq::<usize>::empty()));
                res
            },
            Ok(v) => {
                let ghost vv = v@;
                let (r2, l2) = self.coerce_in(v, EVAL_DEPTH_LIMIT);
                assert(l2@ + Seq::<usize>::empty() =~= l2@);
                assert(eval_s(self.vars(), *entry, EVAL_DEPTH_LIMIT as nat, l@ + (l2@ + Seq::<usize>::empty())) == (Ok::<SValue, EvalFailure>(vv), l2@));
                assert(coerce_s(self.vars(), vv, EVAL_DEPTH_LIMIT as nat, l2@ + Seq::<usize>::empty()) == (string_result_view(r2), Seq::<usize>::empty()));
                assert(run_s(self.vars(), (l@ + l2@)) == (string_result_view(r2), Seq::<usize>::empty()));
                r2
            },
        }
    }
}

/// What `run` yields where the draws are read from `d`.
pub open spec fn run_s(vars: Seq<(String, Expression)>, d: Seq<usize>) -> (Result<Seq<char>, EvalFailure>, Seq<usize>) {
    match lookup(vars, "result"@) {
        None => (Err(EvalFailure::UnknownVariable("result"@)), d),
        Some(entry) => {
            let (r, d2) = eval_s(vars, entry, EVAL_DEPTH_LIMIT as nat, d);
            match r {
                Err(err) => (Err(err), d2),
                Ok(SValue::TableV(_)) => (
                    Err(EvalFailure::UnexpectedType { expected: "string"@, was: "table"@ }),
                    d2,
                ),
                Ok(v) => coerce_s(vars, v, EVAL_DEPTH_LIMIT as nat, d2),
            }
        },
    }

}

impl CompiledScript {
    /// Whether `name` is bound.
    pub fn has_variable(&self, name: &str) -> (r: bool)
        requires
            self.wf(),
        ensures
            r == (lookup(self.vars(), name@) is Some),
    {
        let key = String::from_str(name);
        self.find_variable(&key).is_some()
    }
}

} // verus!
