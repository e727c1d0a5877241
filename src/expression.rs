//! Expression trees and their evaluation to text against one record.
use vstd::prelude::*;

use crate::object::{lookup, GQLObject, Record};
use crate::text::{
    bool_text, bool_to_string, compare_text, contains_text, contains_text_exec, ends_with_text,
    is_prefix, is_suffix, lex_less, starts_with_text, text_equal,
};

verus! {

/// Whether `pattern` is a regular expression that the regex crate accepts.
pub uninterp spec fn regex_compiles(pattern: Seq<char>) -> bool;

/// Whether the regular expression `pattern` matches somewhere in `haystack`.
pub uninterp spec fn regex_finds(pattern: Seq<char>, haystack: Seq<char>) -> bool;

/// The text mapped to lower case, character by character.
pub uninterp spec fn lowercase_of(s: Seq<char>) -> Seq<char>;

/// The text mapped to upper case, character by character.
pub uninterp spec fn uppercase_of(s: Seq<char>) -> Seq<char>;

/// The text without leading and trailing white space.
pub uninterp spec fn trimmed_of(s: Seq<char>) -> Seq<char>;

/// Relies on `regex::Regex::new`, which compiles `pattern` or fails on a
/// pattern it refuses, and on `regex::Regex::is_match`, which tells whether
/// the compiled expression matches anywhere in `text`.
#[verifier::external_body]
fn regex_match(pattern: &str, text: &str) -> (r: Option<bool>)
    ensures
        r is Some == regex_compiles(pattern@),
        r is Some ==> r->0 == regex_finds(pattern@, text@),
{
    match regex::Regex::new(pattern) {
        Ok(re) => Some(re.is_match(text)),
        Err(_) => None,
    }
}

/// Relies on `str::to_lowercase`, whose result depends on the characters alone.
#[verifier::external_body]
fn to_lowercase(s: &str) -> (r: String)
    ensures
        r@ == lowercase_of(s@),
{
    s.to_lowercase()
}

/// Relies on `str::to_uppercase`, whose result depends on the characters alone.
#[verifier::external_body]
fn to_uppercase(s: &str) -> (r: String)
    ensures
        r@ == uppercase_of(s@),
{
    s.to_uppercase()
}

/// Relies on `str::trim`, which drops leading and trailing white space.
#[verifier::external_body]
fn trim(s: &str) -> (r: String)
    ensures
        r@ == trimmed_of(s@),
{
    s.trim().to_string()
}

/// A named unary text transformation that call expressions apply.
#[derive(Clone, Copy, Debug, PartialEq, Eq, Structural)]
pub enum Transformation {
    Lowercase,
    Uppercase,
    Trim,
}

pub open spec fn transformed(t: Transformation, s: Seq<char>) -> Seq<char> {
    match t {
        Transformation::Lowercase => lowercase_of(s),
        Transformation::Uppercase => uppercase_of(s),
        Transformation::Trim => trimmed_of(s),
    }
}

impl Transformation {
    pub fn apply(&self, s: &str) -> (r: String)
        ensures
            r@ == transformed(*self, s@),
    {
        match self {
            Transformation::Lowercase => to_lowercase(s),
            Transformation::Uppercase => to_uppercase(s),
            Transformation::Trim => trim(s),
        }
    }
}

/// The lookup table from function names to transformations.
pub struct TransformationRegistry {
    pub entries: Vec<(String, Transformation)>,
}

pub type RegistryView = Seq<(Seq<char>, Transformation)>;

impl View for TransformationRegistry {
    type V = RegistryView;

    open spec fn view(&self) -> RegistryView {
        self.entries@.map_values(|e: (String, Transformation)| (e.0@, e.1))
    }
}

/// The transformation of the first entry named `name`.
pub open spec fn find_transformation(reg: RegistryView, name: Seq<char>) -> Option<Transformation>
    decreases reg.len(),
{
    if reg.len() == 0 {
        None
    } else if reg[0].0 == name {
        Some(reg[0].1)
    } else {
        find_transformation(reg.drop_first(), name)
    }
}

impl TransformationRegistry {
    /// The registry of `lower`, `upper` and `trim`.
    pub fn standard() -> (r: TransformationRegistry)
        ensures
            r@ == seq![
                ("lower"@, Transformation::Lowercase),
                ("upper"@, Transformation::Uppercase),
                ("trim"@, Transformation::Trim),
            ],
    {
        let mut entries: Vec<(String, Transformation)> = Vec::new();
        entries.push((String::from_str("lower"), Transformation::Lowercase));
        entries.push((String::from_str("upper"), Transformation::Uppercase));
        entries.push((String::from_str("trim"), Transformation::Trim));
        let r = TransformationRegistry { entries };
        assert(r@ =~= seq![
            ("lower"@, Transformation::Lowercase),
            ("upper"@, Transformation::Uppercase),
            ("trim"@, Transformation::Trim),
        ]);
        r
    }

    /// The transformation registered under `name`, if any.
    pub fn lookup(&self, name: &str) -> (r: Option<Transformation>)
        ensures
            r == find_transformation(self@, name@),
    {
        let mut i: usize = 0;
        assert(self@.skip(0) =~= self@);
        while i < self.entries.len()
            invariant
                i <= self@.len(),
                self@.len() == self.entries@.len(),
                find_transformation(self@, name@) == find_transformation(
                    self@.skip(i as int),
                    name@,
                ),
            decreases self@.len() - i,
        {
            proof {
                assert(self@.skip(i as int).drop_first() =~= self@.skip(i + 1));
            }
            if text_equal(self.entries[i].0.as_str(), name) {
                return Some(self.entries[i].1);
            }
            i += 1;
        }
        assert(self@.skip(i as int) =~= Seq::<(Seq<char>, Transformation)>::empty());
        None
    }
}

/// Why an evaluation failed.
#[derive(Debug)]
pub enum EvaluationError {
    FieldNotFound(String),
    UnknownFunction(String),
}

/// A failed evaluation as a mathematical value.
pub enum Failure {
    FieldNotFound(Seq<char>),
    UnknownFunction(Seq<char>),
}

impl View for EvaluationError {
    type V = Failure;

    open spec fn view(&self) -> Failure {
        match self {
            EvaluationError::FieldNotFound(n) => Failure::FieldNotFound(n@),
            EvaluationError::UnknownFunction(n) => Failure::UnknownFunction(n@),
        }
    }
}

pub open spec fn outcome(r: Result<String, EvaluationError>) -> Result<Seq<char>, Failure> {
    match r {
        Ok(v) => Ok(v@),
        Err(e) => Err(e@),
    }
}

/// A node of an expression tree; each composite node owns its operands.
pub enum Expression {
    String(StringExpression),
    Symbol(SymbolExpression),
    Not(NotExpression),
    Comparison(ComparisonExpression),
    Check(CheckExpression),
    Logical(LogicalExpression),
    Call(CallExpression),
}

pub struct StringExpression {
    pub value: String,
}

pub struct SymbolExpression {
    pub value: String,
}

pub struct NotExpression {
    pub right: Box<Expression>,
}

#[derive(Clone, Copy, Debug, PartialEq, Eq, Structural)]
pub enum ComparisonOperator {
    Greater,
    GreaterEqual,
    Less,
    LessEqual,
    Equal,
    NotEqual,
}

pub struct ComparisonExpression {
    pub left: Box<Expression>,
    pub operator: ComparisonOperator,
    pub right: Box<Expression>,
}

#[derive(Clone, Copy, Debug, PartialEq, Eq, Structural)]
pub enum CheckOperator {
    Contains,
    StartsWith,
    EndsWith,
    Matches,
}

pub struct CheckExpression {
    pub left: Box<Expression>,
    pub operator: CheckOperator,
    pub right: Box<Expression>,
}

#[derive(Clone, Copy, Debug, PartialEq, Eq, Structural)]
pub enum LogicalOperator {
    Or,
    And,
    Xor,
}

pub struct LogicalExpression {
    pub left: Box<Expression>,
    pub operator: LogicalOperator,
    pub right: Box<Expression>,
}

pub struct CallExpression {
    pub left: Box<Expression>,
    pub function_name: String,
}

/// Whether `a` stands to `b` as `op` asks, in lexicographic order.
pub open spec fn compares(op: ComparisonOperator, a: Seq<char>, b: Seq<char>) -> bool {
    match op {
        ComparisonOperator::Greater => lex_less(b, a),
        ComparisonOperator::GreaterEqual => !lex_less(a, b),
        ComparisonOperator::Less => lex_less(a, b),
        ComparisonOperator::LessEqual => !lex_less(b, a),
        ComparisonOperator::Equal => a == b,
        ComparisonOperator::NotEqual => a != b,
    }
}

/// Whether `value` passes the check `op` against `expected`; a pattern that
/// does not compile matches nothing.
pub open spec fn checks(op: CheckOperator, value: Seq<char>, expected: Seq<char>) -> bool {
    match op {
        CheckOperator::Contains => contains_text(value, expected),
        CheckOperator::StartsWith => is_prefix(expected, value),
        CheckOperator::EndsWith => is_suffix(expected, value),
        CheckOperator::Matches => regex_compiles(expected) && regex_finds(expected, value),
    }
}

pub open spec fn combines(op: LogicalOperator, a: bool, b: bool) -> bool {
    match op {
        LogicalOperator::And => a && b,
        LogicalOperator::Or => a || b,
        LogicalOperator::Xor => a != b,
    }
}

pub open spec fn is_true(v: Seq<char>) -> bool {
    v == "true"@
}

/// The value of `e` on the record `r`, with the transformations of `reg`.
pub open spec fn eval(e: Expression, r: Record, reg: RegistryView) -> Result<Seq<char>, Failure>
    decreases e,
{
    match e {
        Expression::String(x) => Ok(x.value@),
        Expression::Symbol(x) => match lookup(r, x.value@) {
            Some(v) => Ok(v),
            None => Err(Failure::FieldNotFound(x.value@)),
        },
        Expression::Not(x) => match eval(*x.right, r, reg) {
            Ok(v) => Ok(bool_text(!is_true(v))),
            Err(f) => Err(f),
        },
        Expression::Comparison(x) => match eval(*x.left, r, reg) {
            Err(f) => Err(f),
            Ok(a) => match eval(*x.right, r, reg) {
                Err(f) => Err(f),
                Ok(b) => Ok(bool_text(compares(x.operator, a, b))),
            },
        },
        Expression::Check(x) => match eval(*x.left, r, reg) {
            Err(f) => Err(f),
            Ok(a) => match eval(*x.right, r, reg) {
                Err(f) => Err(f),
                Ok(b) => Ok(bool_text(checks(x.operator, a, b))),
            },
        },
        Expression::Logical(x) => match eval(*x.left, r, reg) {
            Err(f) => Err(f),
            Ok(a) => if x.operator == LogicalOperator::And && !is_true(a) {
                Ok(bool_text(false))
            } else if x.operator == LogicalOperator::Or && is_true(a) {
                Ok(bool_text(true))
            } else {
                match eval(*x.right, r, reg) {
                    Err(f) => Err(f),
                    Ok(b) => Ok(bool_text(combines(x.operator, is_true(a), is_true(b)))),
                }
            },
        },
        Expression::Call(x) => match eval(*x.left, r, reg) {
            Err(f) => Err(f),
            Ok(a) => match find_transformation(reg, x.function_name@) {
                None => Err(Failure::UnknownFunction(x.function_name@)),
                Some(t) => Ok(transformed(t, a)),
            },
        },
    }
}

impl Expression {
    /// The value of this expression on `object`; fails on a field that the
    /// record lacks or a function name that the registry lacks.
    pub fn evaluate(&self, object: &GQLObject, registry: &TransformationRegistry) -> (r: Result<
        String,
        EvaluationError,
    >)
        ensures
            outcome(r) == eval(*self, object@, registry@),
        decreases self,
    {
        match self {
            Expression::String(x) => x.evaluate(object, registry),
            Expression::Symbol(x) => x.evaluate(object, registry),
            Expression::Not(x) => x.evaluate(object, registry),
            Expression::Comparison(x) => x.evaluate(object, registry),
            Expression::Check(x) => x.evaluate(object, registry),
            Expression::Logical(x) => x.evaluate(object, registry),
            Expression::Call(x) => x.evaluate(object, registry),
        }
    }
}

impl StringExpression {
    /// The literal value, unchanged.
    pub fn evaluate(&self, object: &GQLObject, registry: &TransformationRegistry) -> (r: Result<
        String,
        EvaluationError,
    >)
        ensures
            outcome(r) == eval(Expression::String(*self), object@, registry@),
    {
        Ok(self.value.clone())
    }
}

impl SymbolExpression {
    /// The value of the field named by this symbol.
    pub fn evaluate(&self, object: &GQLObject, registry: &TransformationRegistry) -> (r: Result<
        String,
        EvaluationError,
    >)
        ensures
            outcome(r) == eval(Expression::Symbol(*self), object@, registry@),
    {
        match object.get(self.value.as_str()) {
            Some(v) => Ok(v),
            None => Err(EvaluationError::FieldNotFound(self.value.clone())),
        }
    }
}

impl NotExpression {
    /// `"true"` exactly when the operand is not `"true"`.
    pub fn evaluate(&self, object: &GQLObject, registry: &TransformationRegistry) -> (r: Result<
        String,
        EvaluationError,
    >)
        ensures
            outcome(r) == eval(Expression::Not(*self), object@, registry@),
        decreases self,
    {
        let value = match self.right.evaluate(object, registry) {
            Ok(v) => v,
            Err(e) => return Err(e),
        };
        Ok(bool_to_string(!text_equal(value.as_str(), "true")))
    }
}

impl ComparisonExpression {
    /// Compares the two operands as text, in lexicographic order.
    pub fn evaluate(&self, object: &GQLObject, registry: &TransformationRegistry) -> (r: Result<
        String,
        EvaluationError,
    >)
        ensures
            outcome(r) == eval(Expression::Comparison(*self), object@, registry@),
        decreases self,
    {
        let value = match self.left.evaluate(object, registry) {
            Ok(v) => v,
            Err(e) => return Err(e),
        };
        let expected = match self.right.evaluate(object, registry) {
            Ok(v) => v,
            Err(e) => return Err(e),
        };
        let ord = compare_text(value.as_str(), expected.as_str());
        let result = match self.operator {
            ComparisonOperator::Greater => matches!(ord, core::cmp::Ordering::Greater),
            ComparisonOperator::GreaterEqual => !matches!(ord, core::cmp::Ordering::Less),
            ComparisonOperator::Less => matches!(ord, core::cmp::Ordering::Less),
            ComparisonOperator::LessEqual => !matches!(ord, core::cmp::Ordering::Greater),
            ComparisonOperator::Equal => matches!(ord, core::cmp::Ordering::Equal),
            ComparisonOperator::NotEqual => !matches!(ord, core::cmp::Ordering::Equal),
        };
        Ok(bool_to_string(result))
    }
}

impl CheckExpression {
    /// Tests the left operand against the right one: substring tests, or a
    /// regular expression that yields `"false"` when it does not compile.
    pub fn evaluate(&self, object: &GQLObject, registry: &TransformationRegistry) -> (r: Result<
        String,
        EvaluationError,
    >)
        ensures
            outcome(r) == eval(Expression::Check(*self), object@, registry@),
        decreases self,
    {
        let value = match self.left.evaluate(object, registry) {
            Ok(v) => v,
            Err(e) => return Err(e),
        };
        let expected = match self.right.evaluate(object, registry) {
            Ok(v) => v,
            Err(e) => return Err(e),
        };
        let result = match self.operator {
            CheckOperator::Contains => contains_text_exec(value.as_str(), expected.as_str()),
            CheckOperator::StartsWith => starts_with_text(value.as_str(), expected.as_str()),
            CheckOperator::EndsWith => ends_with_text(value.as_str(), expected.as_str()),
            CheckOperator::Matches => match regex_match(expected.as_str(), value.as_str()) {
                Some(m) => m,
                None => false,
            },
        };
        Ok(bool_to_string(result))
    }
}

impl LogicalExpression {
    /// Combines the operands as booleans; `and` and `or` do not evaluate the
    /// right operand when the left one decides.
    pub fn evaluate(&self, object: &GQLObject, registry: &TransformationRegistry) -> (r: Result<
        String,
        EvaluationError,
    >)
        ensures
            outcome(r) == eval(Expression::Logical(*self), object@, registry@),
        decreases self,
    {
        let left = match self.left.evaluate(object, registry) {
            Ok(v) => v,
            Err(e) => return Err(e),
        };
        let lhs = text_equal(left.as_str(), "true");
        if self.operator == LogicalOperator::And && !lhs {
            return Ok(bool_to_string(false));
        }
        if self.operator == LogicalOperator::Or && lhs {
            return Ok(bool_to_string(true));
        }
        let right = match self.right.evaluate(object, registry) {
            Ok(v) => v,
            Err(e) => return Err(e),
        };
        let rhs = text_equal(right.as_str(), "true");
        let result = match self.operator {
            LogicalOperator::And => lhs && rhs,
            LogicalOperator::Or => lhs || rhs,
            LogicalOperator::Xor => lhs != rhs,
        };
        Ok(bool_to_string(result))
    }
}

impl CallExpression {
    /// Applies the registered transformation to the operand's value.
    pub fn evaluate(&self, object: &GQLObject, registry: &TransformationRegistry) -> (r: Result<
        String,
        EvaluationError,
    >)
        ensures
            outcome(r) == eval(Expression::Call(*self), object@, registry@),
        decreases self,
    {
        let value = match self.left.evaluate(object, registry) {
            Ok(v) => v,
            Err(e) => return Err(e),
        };
        match registry.lookup(self.function_name.as_str()) {
            Some(t) => Ok(t.apply(value.as_str())),
            None => Err(EvaluationError::UnknownFunction(self.function_name.clone())),
        }
    }
}

pub open spec fn logical(left: Expression, op: LogicalOperator, right: Expression) -> Expression {
    Expression::Logical(LogicalExpression { left: Box::new(left), operator: op, right: Box::new(right) })
}

/// `and` with a left operand that is not `"true"` gives `"false"`, and `or`
/// with a left operand that is `"true"` gives `"true"`, whatever the right
/// operand would give, a failure included: it is not evaluated.
pub proof fn lemma_short_circuit(left: Expression, right: Expression, r: Record, reg: RegistryView)
    ensures
        eval(left, r, reg) is Ok && !is_true(eval(left, r, reg)->Ok_0) ==> eval(
            logical(left, LogicalOperator::And, right),
            r,
            reg,
        ) == Ok::<Seq<char>, Failure>("false"@),
        eval(left, r, reg) is Ok && is_true(eval(left, r, reg)->Ok_0) ==> eval(
            logical(left, LogicalOperator::Or, right),
            r,
            reg,
        ) == Ok::<Seq<char>, Failure>("true"@),
{
}

pub open spec fn check(left: Expression, op: CheckOperator, right: Expression) -> Expression {
    Expression::Check(CheckExpression { left: Box::new(left), operator: op, right: Box::new(right) })
}

/// A `matches` check whose pattern does not compile gives `"false"` on every
/// value, rather than failing.
pub proof fn lemma_bad_pattern_is_false(left: Expression, right: Expression, r: Record, reg: RegistryView)
    requires
        eval(left, r, reg) is Ok,
        eval(right, r, reg) is Ok,
        !regex_compiles(eval(right, r, reg)->Ok_0),
    ensures
        eval(check(left, CheckOperator::Matches, right), r, reg) == Ok::<Seq<char>, Failure>(
            "false"@,
        ),
{
}

} // verus!
