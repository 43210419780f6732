//! Expressions on database rows, used by queries to select and compute
//! values.

use crate::category::str_equal;
use crate::table::{column_index, has_named, Row, RowView};
use crate::text::{append_str, concat2, string_from_chars};
use crate::value::{spec_from_bool, spec_to_bool, value_less, value_text, Value, ValueView};
use vstd::prelude::*;
use vstd::std_specs::ops::{
    AddSpecImpl, BitAndSpecImpl, BitOrSpecImpl, BitXorSpecImpl, DivSpecImpl, MulSpecImpl, NegSpecImpl,
    ShlSpecImpl, ShrSpecImpl, SubSpecImpl,
};

verus! {

/// A unary operation.
#[derive(Clone, Copy, Debug, Eq, PartialEq, Structural)]
pub enum UnOp {
    /// Arithmetic negation.
    Neg,
    /// Bitwise inversion.
    BitNot,
    /// Logical negation.
    BoolNot,
}

/// A binary operation.
#[derive(Clone, Copy, Debug, Eq, PartialEq, Structural)]
pub enum BinOp {
    /// Equality.
    Eq,
    /// Inequality.
    Ne,
    /// Less than.
    Lt,
    /// Less than or equal.
    Le,
    /// Greater than.
    Gt,
    /// Greater than or equal.
    Ge,
    /// Addition of integers, concatenation of strings.
    Add,
    /// Subtraction.
    Sub,
    /// Multiplication.
    Mul,
    /// Integer division.
    Div,
    /// Bitwise and.
    BitAnd,
    /// Bitwise or.
    BitOr,
    /// Bitwise exclusive or.
    BitXor,
    /// Left shift.
    Shl,
    /// Arithmetic right shift.
    Shr,
}

/// An abstract syntax tree for expressions.
enum Ast {
    Literal(Value),
    Column(String),
    UnOp(UnOp, Box<Ast>),
    BinOp(BinOp, Box<Ast>, Box<Ast>),
    And(Box<Ast>, Box<Ast>),
    Or(Box<Ast>, Box<Ast>),
}

/// The mathematical model of an expression.
pub enum AstView {
    /// A constant value.
    Literal(ValueView),
    /// The value of the named column.
    Column(Seq<char>),
    /// A unary operation on a subexpression.
    UnOp(UnOp, Box<AstView>),
    /// A binary operation on two subexpressions.
    BinOp(BinOp, Box<AstView>, Box<AstView>),
    /// Logical conjunction.
    And(Box<AstView>, Box<AstView>),
    /// Logical disjunction.
    Or(Box<AstView>, Box<AstView>),
}

spec fn ast_view(a: &Ast) -> AstView
    decreases a,
{
    match a {
        Ast::Literal(v) => AstView::Literal(v@),
        Ast::Column(n) => AstView::Column(n@),
        Ast::UnOp(op, x) => AstView::UnOp(*op, Box::new(ast_view(x))),
        Ast::BinOp(op, x, y) => AstView::BinOp(*op, Box::new(ast_view(x)), Box::new(ast_view(y))),
        Ast::And(x, y) => AstView::And(Box::new(ast_view(x)), Box::new(ast_view(y))),
        Ast::Or(x, y) => AstView::Or(Box::new(ast_view(x)), Box::new(ast_view(y))),
    }
}

/// The value of an integer computation: the integer when it fits in 32
/// bits, and null when it overflows.
pub open spec fn int_result(n: int) -> ValueView {
    if i32::MIN <= n <= i32::MAX {
        ValueView::Int(n as i32)
    } else {
        ValueView::Null
    }
}

/// The absolute value of an integer.
pub open spec fn abs_int(a: int) -> int {
    if a < 0 {
        -a
    } else {
        a
    }
}

/// Integer division that rounds toward zero.
pub open spec fn trunc_div(a: int, b: int) -> int {
    if (a < 0) == (b < 0) {
        abs_int(a) / abs_int(b)
    } else {
        -(abs_int(a) / abs_int(b))
    }
}

/// The result of a unary operation.  Arithmetic on a non-number, or that
/// overflows, gives null.
pub open spec fn spec_unop(op: UnOp, v: ValueView) -> ValueView {
    match op {
        UnOp::Neg => match v {
            ValueView::Int(n) => int_result(-n),
            _ => ValueView::Null,
        },
        UnOp::BitNot => match v {
            ValueView::Int(n) => ValueView::Int(!n),
            _ => ValueView::Null,
        },
        UnOp::BoolNot => spec_from_bool(!spec_to_bool(v)),
    }
}

/// The result of a binary operation.  Comparisons follow the order of
/// values; arithmetic on non-numbers (other than the concatenation of two
/// strings), division by zero, overflow and shifts by an amount outside
/// `0..32` give null.
pub open spec fn spec_binop(op: BinOp, a: ValueView, b: ValueView) -> ValueView {
    match op {
        BinOp::Eq => spec_from_bool(a == b),
        BinOp::Ne => spec_from_bool(a != b),
        BinOp::Lt => spec_from_bool(value_less(a, b)),
        BinOp::Le => spec_from_bool(value_less(a, b) || a == b),
        BinOp::Gt => spec_from_bool(value_less(b, a)),
        BinOp::Ge => spec_from_bool(value_less(b, a) || a == b),
        BinOp::Add => match (a, b) {
            (ValueView::Int(x), ValueView::Int(y)) => int_result(x + y),
            (ValueView::Str(x), ValueView::Str(y)) => ValueView::Str(x + y),
            _ => ValueView::Null,
        },
        BinOp::Sub => match (a, b) {
            (ValueView::Int(x), ValueView::Int(y)) => int_result(x - y),
            _ => ValueView::Null,
        },
        BinOp::Mul => match (a, b) {
            (ValueView::Int(x), ValueView::Int(y)) => int_result(x * y),
            _ => ValueView::Null,
        },
        BinOp::Div => match (a, b) {
            (ValueView::Int(x), ValueView::Int(y)) => if y == 0 {
                ValueView::Null
            } else {
                int_result(trunc_div(x as int, y as int))
            },
            _ => ValueView::Null,
        },
        BinOp::BitAnd => match (a, b) {
            (ValueView::Int(x), ValueView::Int(y)) => ValueView::Int(x & y),
            _ => ValueView::Null,
        },
        BinOp::BitOr => match (a, b) {
            (ValueView::Int(x), ValueView::Int(y)) => ValueView::Int(x | y),
            _ => ValueView::Null,
        },
        BinOp::BitXor => match (a, b) {
            (ValueView::Int(x), ValueView::Int(y)) => ValueView::Int(x ^ y),
            _ => ValueView::Null,
        },
        BinOp::Shl => match (a, b) {
            (ValueView::Int(x), ValueView::Int(y)) => if 0 <= y < 32 {
                ValueView::Int(x << (y as u32))
            } else {
                ValueView::Null
            },
            _ => ValueView::Null,
        },
        BinOp::Shr => match (a, b) {
            (ValueView::Int(x), ValueView::Int(y)) => if 0 <= y < 32 {
                ValueView::Int(x >> (y as u32))
            } else {
                ValueView::Null
            },
            _ => ValueView::Null,
        },
    }
}

/// The value of an expression on a row.
pub open spec fn eval_ast(a: AstView, row: RowView) -> ValueView
    decreases a,
{
    match a {
        AstView::Literal(v) => v,
        AstView::Column(name) => match column_index(row.table.columns, name) {
            Some(i) => row.values[i],
            None => ValueView::Null,
        },
        AstView::UnOp(op, x) => spec_unop(op, eval_ast(*x, row)),
        AstView::BinOp(op, x, y) => spec_binop(op, eval_ast(*x, row), eval_ast(*y, row)),
        AstView::And(x, y) => if spec_to_bool(eval_ast(*x, row)) {
            spec_from_bool(spec_to_bool(eval_ast(*y, row)))
        } else {
            spec_from_bool(false)
        },
        AstView::Or(x, y) => if spec_to_bool(eval_ast(*x, row)) {
            spec_from_bool(true)
        } else {
            spec_from_bool(spec_to_bool(eval_ast(*y, row)))
        },
    }
}

/// The names of the columns an expression refers to.
pub open spec fn ast_names(a: AstView) -> Set<Seq<char>>
    decreases a,
{
    match a {
        AstView::Literal(_) => Set::empty(),
        AstView::Column(name) => set![name],
        AstView::UnOp(_, x) => ast_names(*x),
        AstView::BinOp(_, x, y) => ast_names(*x).union(ast_names(*y)),
        AstView::And(x, y) => ast_names(*x).union(ast_names(*y)),
        AstView::Or(x, y) => ast_names(*x).union(ast_names(*y)),
    }
}

/// Whether a row has every column that an expression refers to.
pub open spec fn columns_present(a: AstView, row: RowView) -> bool {
    forall|n: Seq<char>| ast_names(a).contains(n) ==> has_named(row.table.columns, n)
}

/// Whether a row has every column that evaluating an expression reads:
/// the right operand of `AND` is read only when the left one is true, and
/// that of `OR` only when the left one is false.
pub open spec fn evaluable(a: AstView, row: RowView) -> bool
    decreases a,
{
    match a {
        AstView::Literal(_) => true,
        AstView::Column(name) => has_named(row.table.columns, name),
        AstView::UnOp(_, x) => evaluable(*x, row),
        AstView::BinOp(_, x, y) => evaluable(*x, row) && evaluable(*y, row),
        AstView::And(x, y) => evaluable(*x, row) && (spec_to_bool(eval_ast(*x, row)) ==> evaluable(*y, row)),
        AstView::Or(x, y) => evaluable(*x, row) && (!spec_to_bool(eval_ast(*x, row)) ==> evaluable(*y, row)),
    }
}

/// A row that has every column an expression refers to has every column
/// that evaluating it reads.
pub proof fn lemma_present_evaluable(a: AstView, row: RowView)
    requires
        columns_present(a, row),
    ensures
        evaluable(a, row),
    decreases a,
{
    match a {
        AstView::Literal(_) => {},
        AstView::Column(name) => {
            assert(ast_names(a).contains(name));
        },
        AstView::UnOp(_, x) => {
            assert(ast_names(a) =~= ast_names(*x).union(ast_names(*x)));
            lemma_sub_present(a, *x, *x, row);
            lemma_present_evaluable(*x, row);
        },
        AstView::BinOp(_, x, y) => {
            lemma_sub_present(a, *x, *y, row);
            lemma_present_evaluable(*x, row);
            lemma_present_evaluable(*y, row);
        },
        AstView::And(x, y) => {
            lemma_sub_present(a, *x, *y, row);
            lemma_present_evaluable(*x, row);
            lemma_present_evaluable(*y, row);
        },
        AstView::Or(x, y) => {
            lemma_sub_present(a, *x, *y, row);
            lemma_present_evaluable(*x, row);
            lemma_present_evaluable(*y, row);
        },
    }
}

/// The expression for a unary operation, folded into a constant when its
/// operand is one.
pub open spec fn fold_unop(op: UnOp, a: AstView) -> AstView {
    match a {
        AstView::Literal(v) => AstView::Literal(spec_unop(op, v)),
        _ => AstView::UnOp(op, Box::new(a)),
    }
}

/// The expression for a binary operation, folded into a constant when both
/// operands are constants.
pub open spec fn fold_binop(op: BinOp, a: AstView, b: AstView) -> AstView {
    match (a, b) {
        (AstView::Literal(x), AstView::Literal(y)) => AstView::Literal(spec_binop(op, x, y)),
        _ => AstView::BinOp(op, Box::new(a), Box::new(b)),
    }
}

/// The text of a unary operator.
pub open spec fn unop_text(op: UnOp) -> Seq<char> {
    match op {
        UnOp::Neg => "-"@,
        UnOp::BitNot => "~"@,
        UnOp::BoolNot => "NOT "@,
    }
}

/// The text of a binary operator, with the spaces around it.
pub open spec fn binop_text(op: BinOp) -> Seq<char> {
    match op {
        BinOp::Eq => " = "@,
        BinOp::Ne => " != "@,
        BinOp::Lt => " < "@,
        BinOp::Le => " <= "@,
        BinOp::Gt => " > "@,
        BinOp::Ge => " >= "@,
        BinOp::Add => " + "@,
        BinOp::Sub => " - "@,
        BinOp::Mul => " * "@,
        BinOp::Div => " / "@,
        BinOp::BitAnd => " & "@,
        BinOp::BitOr => " | "@,
        BinOp::BitXor => " ^ "@,
        BinOp::Shl => " << "@,
        BinOp::Shr => " >> "@,
    }
}

/// How tightly a binary operator binds: the higher, the tighter.
pub open spec fn precedence(op: BinOp) -> int {
    match op {
        BinOp::Eq | BinOp::Ne | BinOp::Lt | BinOp::Le | BinOp::Gt | BinOp::Ge => 3,
        BinOp::BitOr => 4,
        BinOp::BitXor => 5,
        BinOp::BitAnd => 6,
        BinOp::Shl | BinOp::Shr => 7,
        BinOp::Add | BinOp::Sub => 8,
        BinOp::Mul | BinOp::Div => 9,
    }
}

/// Text in parentheses when `wrap` holds.
pub open spec fn parenthesized(wrap: bool, s: Seq<char>) -> Seq<char> {
    if wrap {
        "("@ + s + ")"@
    } else {
        s
    }
}

/// The text of an expression inside an operator of precedence `parent`:
/// operands of an operator that binds less tightly than its context are
/// put in parentheses, and binary operators group to the left.
pub open spec fn format_ast(a: AstView, parent: int) -> Seq<char>
    decreases a,
{
    match a {
        AstView::Literal(v) => value_text(v),
        AstView::Column(name) => name,
        AstView::UnOp(op, x) => unop_text(op) + format_ast(*x, 10),
        AstView::BinOp(op, x, y) => parenthesized(
            precedence(op) < parent,
            format_ast(*x, precedence(op)) + binop_text(op) + format_ast(*y, precedence(op) + 1),
        ),
        AstView::And(x, y) => parenthesized(
            2 < parent,
            format_ast(*x, 2) + " AND "@ + format_ast(*y, 3),
        ),
        AstView::Or(x, y) => parenthesized(
            1 < parent,
            format_ast(*x, 1) + " OR "@ + format_ast(*y, 2),
        ),
    }
}

/// An integer result as a value: the integer when it fits in 32 bits, and
/// null when it overflows.
fn int_value(n: i64) -> (r: Value)
    ensures
        r@ == int_result(n as int),
{
    if n >= i32::MIN as i64 && n <= i32::MAX as i64 {
        Value::Int(n as i32)
    } else {
        Value::Null
    }
}

/// Integer division rounding toward zero, as an `i64`.
fn trunc_quotient(x: i32, y: i32) -> (r: i64)
    requires
        y != 0,
    ensures
        r == trunc_div(x as int, y as int),
{
    let ax: i64 = if x < 0 {
        -(x as i64)
    } else {
        x as i64
    };
    let ay: i64 = if y < 0 {
        -(y as i64)
    } else {
        y as i64
    };
    assert(ax == abs_int(x as int) && ay == abs_int(y as int));
    let q: i64 = ax / ay;
    assert(0 <= q <= ax) by (nonlinear_arith)
        requires
            ax >= 0,
            ay > 0,
            q == ax / ay,
    ;
    if (x < 0) == (y < 0) {
        q
    } else {
        -q
    }
}

impl UnOp {
    /// Applies the operation to a value.
    pub fn eval(self, arg: Value) -> (r: Value)
        ensures
            r@ == spec_unop(self, arg@),
    {
        match self {
            UnOp::Neg => match arg {
                Value::Int(number) => int_value(-(number as i64)),
                _ => Value::Null,
            },
            UnOp::BitNot => match arg {
                Value::Int(number) => Value::Int(!number),
                _ => Value::Null,
            },
            UnOp::BoolNot => Value::from_bool(!arg.to_bool()),
        }
    }
}

impl BinOp {
    /// Applies the operation to two values.
    pub fn eval(self, arg1: Value, arg2: Value) -> (r: Value)
        ensures
            r@ == spec_binop(self, arg1@, arg2@),
    {
        match self {
            BinOp::Eq => Value::from_bool(arg1.equals(&arg2)),
            BinOp::Ne => Value::from_bool(!arg1.equals(&arg2)),
            BinOp::Lt => Value::from_bool(arg1.less_than(&arg2)),
            BinOp::Le => Value::from_bool(arg1.less_than(&arg2) || arg1.equals(&arg2)),
            BinOp::Gt => Value::from_bool(arg2.less_than(&arg1)),
            BinOp::Ge => Value::from_bool(arg2.less_than(&arg1) || arg1.equals(&arg2)),
            BinOp::Add => match (arg1, arg2) {
                (Value::Int(num1), Value::Int(num2)) => int_value(num1 as i64 + num2 as i64),
                (Value::Str(str1), Value::Str(str2)) => Value::Str(concat2(str1.as_str(), str2.as_str())),
                _ => Value::Null,
            },
            BinOp::Sub => match (arg1, arg2) {
                (Value::Int(num1), Value::Int(num2)) => int_value(num1 as i64 - num2 as i64),
                _ => Value::Null,
            },
            BinOp::Mul => match (arg1, arg2) {
                (Value::Int(num1), Value::Int(num2)) => {
                    let a = num1 as i64;
                    let b = num2 as i64;
                    assert(-0x4000_0000_0000_0000 <= a * b <= 0x4000_0000_0000_0000) by (nonlinear_arith)
                        requires
                            -0x8000_0000 <= a <= 0x8000_0000,
                            -0x8000_0000 <= b <= 0x8000_0000,
                    ;
                    int_value(a * b)
                },
                _ => Value::Null,
            },
            BinOp::Div => match (arg1, arg2) {
                (Value::Int(num1), Value::Int(num2)) => {
                    if num2 == 0 {
                        Value::Null
                    } else {
                        int_value(trunc_quotient(num1, num2))
                    }
                },
                _ => Value::Null,
            },
            BinOp::BitAnd => match (arg1, arg2) {
                (Value::Int(num1), Value::Int(num2)) => Value::Int(num1 & num2),
                _ => Value::Null,
            },
            BinOp::BitOr => match (arg1, arg2) {
                (Value::Int(num1), Value::Int(num2)) => Value::Int(num1 | num2),
                _ => Value::Null,
            },
            BinOp::BitXor => match (arg1, arg2) {
                (Value::Int(num1), Value::Int(num2)) => Value::Int(num1 ^ num2),
                _ => Value::Null,
            },
            BinOp::Shl => match (arg1, arg2) {
                (Value::Int(num1), Value::Int(num2)) => {
                    if 0 <= num2 && num2 < 32 {
                        Value::Int(num1 << (num2 as u32))
                    } else {
                        Value::Null
                    }
                },
                _ => Value::Null,
            },
            BinOp::Shr => match (arg1, arg2) {
                (Value::Int(num1), Value::Int(num2)) => {
                    if 0 <= num2 && num2 < 32 {
                        Value::Int(num1 >> (num2 as u32))
                    } else {
                        Value::Null
                    }
                },
                _ => Value::Null,
            },
        }
    }

    /// How tightly the operator binds: the higher, the tighter.
    pub fn precedence(self) -> (r: i32)
        ensures
            r == precedence(self),
    {
        match self {
            BinOp::Eq | BinOp::Ne | BinOp::Lt | BinOp::Le | BinOp::Gt | BinOp::Ge => 3,
            BinOp::BitOr => 4,
            BinOp::BitXor => 5,
            BinOp::BitAnd => 6,
            BinOp::Shl | BinOp::Shr => 7,
            BinOp::Add | BinOp::Sub => 8,
            BinOp::Mul | BinOp::Div => 9,
        }
    }

    /// The text of the operator, with the spaces around it.
    fn text(self) -> (r: &'static str)
        ensures
            r@ == binop_text(self),
    {
        proof {
            reveal_strlit(" = ");
            reveal_strlit(" != ");
            reveal_strlit(" < ");
            reveal_strlit(" <= ");
            reveal_strlit(" > ");
            reveal_strlit(" >= ");
            reveal_strlit(" + ");
            reveal_strlit(" - ");
            reveal_strlit(" * ");
            reveal_strlit(" / ");
            reveal_strlit(" & ");
            reveal_strlit(" | ");
            reveal_strlit(" ^ ");
            reveal_strlit(" << ");
            reveal_strlit(" >> ");
        }
        match self {
            BinOp::Eq => " = ",
            BinOp::Ne => " != ",
            BinOp::Lt => " < ",
            BinOp::Le => " <= ",
            BinOp::Gt => " > ",
            BinOp::Ge => " >= ",
            BinOp::Add => " + ",
            BinOp::Sub => " - ",
            BinOp::Mul => " * ",
            BinOp::Div => " / ",
            BinOp::BitAnd => " & ",
            BinOp::BitOr => " | ",
            BinOp::BitXor => " ^ ",
            BinOp::Shl => " << ",
            BinOp::Shr => " >> ",
        }
    }
}

/// The texts of a list of names.
pub open spec fn names_view(v: Seq<&str>) -> Seq<Seq<char>> {
    v.map_values(|s: &str| s@)
}

impl Ast {
    fn eval(&self, row: &Row) -> (r: Value)
        requires
            evaluable(ast_view(self), row@),
        ensures
            r@ == eval_ast(ast_view(self), row@),
        decreases self,
    {
        match self {
            Ast::Literal(value) => value.duplicate(),
            Ast::Column(name) => row.get_named(name.as_str()).duplicate(),
            Ast::UnOp(op, arg) => op.eval(arg.eval(row)),
            Ast::BinOp(op, arg1, arg2) => op.eval(arg1.eval(row), arg2.eval(row)),
            Ast::And(arg1, arg2) => {
                if arg1.eval(row).to_bool() {
                    Value::from_bool(arg2.eval(row).to_bool())
                } else {
                    Value::from_bool(false)
                }
            },
            Ast::Or(arg1, arg2) => {
                if arg1.eval(row).to_bool() {
                    Value::from_bool(true)
                } else {
                    Value::from_bool(arg2.eval(row).to_bool())
                }
            },
        }
    }

    fn populate_column_names<'a>(&'a self, names: &mut Vec<&'a str>)
        requires
            names_view(old(names)@).no_duplicates(),
        ensures
            names_view(final(names)@).no_duplicates(),
            names_view(final(names)@).to_set() == names_view(old(names)@).to_set().union(
                ast_names(ast_view(self)),
            ),
        decreases self,
    {
        match self {
            Ast::Literal(_) => {
                assert(names_view(names@).to_set().union(Set::empty()) =~= names_view(names@).to_set());
            },
            Ast::Column(name) => {
                let ghost before = names_view(names@);
                let mut i: usize = 0;
                let mut found = false;
                while i < names.len()
                    invariant
                        i <= names@.len(),
                        before == names_view(names@),
                        found ==> before.contains(name@),
                        !found ==> forall|k: int| 0 <= k < i ==> before[k] != name@,
                    decreases names@.len() - i,
                {
                    if str_equal(names[i], name.as_str()) {
                        found = true;
                        assert(before[i as int] == name@);
                    }
                    i = i + 1;
                }
                if found {
                    assert(before.to_set().union(set![name@]) =~= before.to_set());
                } else {
                    names.push(name.as_str());
                    assert(names_view(names@) =~= before.push(name@));
                    proof {
                        before.lemma_push_to_set_commute(name@);
                    }
                    assert(before.to_set().union(set![name@]) =~= before.to_set().insert(name@));
                }
            },
            Ast::UnOp(_, arg) => arg.populate_column_names(names),
            Ast::BinOp(_, arg1, arg2) | Ast::And(arg1, arg2) | Ast::Or(arg1, arg2) => {
                let ghost before = names_view(names@).to_set();
                arg1.populate_column_names(names);
                arg2.populate_column_names(names);
                assert(before.union(ast_names(ast_view(arg1))).union(ast_names(ast_view(arg2)))
                    =~= before.union(ast_names(ast_view(arg1)).union(ast_names(ast_view(arg2)))));
            },
        }
    }

    fn format_with_precedence(&self, out: &mut Vec<char>, parent_prec: i32)
        requires
            0 <= parent_prec <= 10,
        ensures
            final(out)@ == old(out)@ + format_ast(ast_view(self), parent_prec as int),
        decreases self,
    {
        let ghost before = out@;
        match self {
            Ast::Literal(value) => {
                let text = value.to_string();
                append_str(out, text.as_str());
            },
            Ast::Column(name) => {
                append_str(out, name.as_str());
            },
            Ast::UnOp(op, arg) => {
                proof {
                    reveal_strlit("-");
                    reveal_strlit("~");
                    reveal_strlit("NOT ");
                }
                match op {
                    UnOp::Neg => append_str(out, "-"),
                    UnOp::BitNot => append_str(out, "~"),
                    UnOp::BoolNot => append_str(out, "NOT "),
                }
                arg.format_with_precedence(out, 10);
                assert(out@ =~= before + format_ast(ast_view(self), parent_prec as int));
            },
            Ast::BinOp(op, arg1, arg2) => {
                let op_prec = op.precedence();
                let mut left: Vec<char> = Vec::new();
                arg1.format_with_precedence(&mut left, op_prec);
                let mut right: Vec<char> = Vec::new();
                arg2.format_with_precedence(&mut right, op_prec + 1);
                append_infix(out, op_prec < parent_prec, &left, op.text(), &right);
            },
            Ast::And(arg1, arg2) => {
                proof {
                    reveal_strlit(" AND ");
                }
                let mut left: Vec<char> = Vec::new();
                arg1.format_with_precedence(&mut left, 2);
                let mut right: Vec<char> = Vec::new();
                arg2.format_with_precedence(&mut right, 3);
                append_infix(out, 2 < parent_prec, &left, " AND ", &right);
            },
            Ast::Or(arg1, arg2) => {
                proof {
                    reveal_strlit(" OR ");
                }
                let mut left: Vec<char> = Vec::new();
                arg1.format_with_precedence(&mut left, 1);
                let mut right: Vec<char> = Vec::new();
                arg2.format_with_precedence(&mut right, 2);
                append_infix(out, 1 < parent_prec, &left, " OR ", &right);
            },
        }
    }
}

/// Appends two operands joined by an operator, in parentheses when `wrap`
/// holds.
fn append_infix(out: &mut Vec<char>, wrap: bool, left: &Vec<char>, op_text: &str, right: &Vec<char>)
    ensures
        final(out)@ == old(out)@ + parenthesized(wrap, left@ + op_text@ + right@),
{
    let ghost before = out@;
    proof {
        reveal_strlit("(");
        reveal_strlit(")");
    }
    if wrap {
        append_str(out, "(");
    }
    crate::text::append_chars(out, left);
    append_str(out, op_text);
    crate::text::append_chars(out, right);
    if wrap {
        append_str(out, ")");
    }
    assert(out@ =~= before + parenthesized(wrap, left@ + op_text@ + right@));
}

/// The operands of an operator refer only to columns that the whole
/// expression refers to.
proof fn lemma_sub_present(a: AstView, x: AstView, y: AstView, row: RowView)
    requires
        columns_present(a, row),
        ast_names(a) == ast_names(x).union(ast_names(y)),
    ensures
        columns_present(x, row),
        columns_present(y, row),
{
    assert forall|n: Seq<char>| ast_names(x).contains(n) implies has_named(row.table.columns, n) by {
        assert(ast_names(a).contains(n));
    }
    assert forall|n: Seq<char>| ast_names(y).contains(n) implies has_named(row.table.columns, n) by {
        assert(ast_names(a).contains(n));
    }
}

/// An expression on database rows that can be used in queries.
pub struct Expr {
    ast: Ast,
}

impl View for Expr {
    type V = AstView;

    closed spec fn view(&self) -> AstView {
        ast_view(&self.ast)
    }
}

impl Expr {
    fn unop(op: UnOp, ast: Ast) -> (r: Expr)
        ensures
            r@ == fold_unop(op, ast_view(&ast)),
    {
        Expr {
            ast: match ast {
                Ast::Literal(value) => Ast::Literal(op.eval(value)),
                ast => Ast::UnOp(op, Box::new(ast)),
            },
        }
    }

    fn binop(op: BinOp, ast1: Ast, ast2: Ast) -> (r: Expr)
        ensures
            r@ == fold_binop(op, ast_view(&ast1), ast_view(&ast2)),
    {
        Expr {
            ast: match (ast1, ast2) {
                (Ast::Literal(value1), Ast::Literal(value2)) => Ast::Literal(op.eval(value1, value2)),
                (ast1, ast2) => Ast::BinOp(op, Box::new(ast1), Box::new(ast2)),
            },
        }
    }

    /// Returns an expression that evaluates to the value of the specified
    /// column.
    pub fn col(column_name: &str) -> (r: Expr)
        ensures
            r@ == AstView::Column(column_name@),
    {
        Expr { ast: Ast::Column(column_name.to_owned()) }
    }

    /// Returns an expression that evaluates to a null value.
    pub fn null() -> (r: Expr)
        ensures
            r@ == AstView::Literal(ValueView::Null),
    {
        Expr { ast: Ast::Literal(Value::Null) }
    }

    /// Returns an expression that evaluates to the given boolean value.
    pub fn boolean(boolean: bool) -> (r: Expr)
        ensures
            r@ == AstView::Literal(spec_from_bool(boolean)),
    {
        Expr { ast: Ast::Literal(Value::from_bool(boolean)) }
    }

    /// Returns an expression that evaluates to the given integer value.
    pub fn integer(integer: i32) -> (r: Expr)
        ensures
            r@ == AstView::Literal(ValueView::Int(integer)),
    {
        Expr { ast: Ast::Literal(Value::Int(integer)) }
    }

    /// Returns an expression that evaluates to the given string value.
    pub fn string(string: &str) -> (r: Expr)
        ensures
            r@ == AstView::Literal(ValueView::Str(string@)),
    {
        Expr { ast: Ast::Literal(Value::Str(string.to_owned())) }
    }

    /// Returns an expression that evaluates to true if the two subexpressions
    /// evaluate to equal values.
    pub fn eq(self, rhs: Expr) -> (r: Expr)
        ensures
            r@ == fold_binop(BinOp::Eq, self@, rhs@),
    {
        Expr::binop(BinOp::Eq, self.ast, rhs.ast)
    }

    /// Returns an expression that evaluates to true if the two subexpressions
    /// evaluate to unequal values.
    pub fn ne(self, rhs: Expr) -> (r: Expr)
        ensures
            r@ == fold_binop(BinOp::Ne, self@, rhs@),
    {
        Expr::binop(BinOp::Ne, self.ast, rhs.ast)
    }

    /// Returns an expression that evaluates to true if the left-hand
    /// subexpression evaluates to a strictly lesser value than the right-hand
    /// subexpression.
    pub fn lt(self, rhs: Expr) -> (r: Expr)
        ensures
            r@ == fold_binop(BinOp::Lt, self@, rhs@),
    {
        Expr::binop(BinOp::Lt, self.ast, rhs.ast)
    }

    /// Returns an expression that evaluates to true if the left-hand
    /// subexpression evaluates to a lesser-or-equal value than the right-hand
    /// subexpression.
    pub fn le(self, rhs: Expr) -> (r: Expr)
        ensures
            r@ == fold_binop(BinOp::Le, self@, rhs@),
    {
        Expr::binop(BinOp::Le, self.ast, rhs.ast)
    }

    /// Returns an expression that evaluates to true if the left-hand
    /// subexpression evaluates to a strictly greater value than the right-hand
    /// subexpression.
    pub fn gt(self, rhs: Expr) -> (r: Expr)
        ensures
            r@ == fold_binop(BinOp::Gt, self@, rhs@),
    {
        Expr::binop(BinOp::Gt, self.ast, rhs.ast)
    }

    /// Returns an expression that evaluates to true if the left-hand
    /// subexpression evaluates to a greater-or-equal value than the right-hand
    /// subexpression.
    pub fn ge(self, rhs: Expr) -> (r: Expr)
        ensures
            r@ == fold_binop(BinOp::Ge, self@, rhs@),
    {
        Expr::binop(BinOp::Ge, self.ast, rhs.ast)
    }

    /// Returns an expression that computes the bitwise inverse of the
    /// subexpression.  If the subexpression evaluates to a non-number, the
    /// result will be a null value.
    pub fn bitinv(self) -> (r: Expr)
        ensures
            r@ == fold_unop(UnOp::BitNot, self@),
    {
        Expr::unop(UnOp::BitNot, self.ast)
    }

    /// Returns an expression that evaluates to true if both subexpressions
    /// evaluate to true.
    pub fn and(self, rhs: Expr) -> (r: Expr)
        ensures
            r@ == AstView::And(Box::new(self@), Box::new(rhs@)),
    {
        Expr { ast: Ast::And(Box::new(self.ast), Box::new(rhs.ast)) }
    }

    /// Returns an expression that evaluates to true if either subexpression
    /// evaluates to true.
    pub fn or(self, rhs: Expr) -> (r: Expr)
        ensures
            r@ == AstView::Or(Box::new(self@), Box::new(rhs@)),
    {
        Expr { ast: Ast::Or(Box::new(self.ast), Box::new(rhs.ast)) }
    }

    /// Returns an expression that evaluates to true if the subexpression
    /// evaluates to false.
    pub fn not(self) -> (r: Expr)
        ensures
            r@ == fold_unop(UnOp::BoolNot, self@),
    {
        Expr::unop(UnOp::BoolNot, self.ast)
    }

    /// Evaluates the expression against the given row, which must have every
    /// column that the evaluation reads (the right operand of `AND` and `OR`
    /// is evaluated only when the left one does not decide).  Any errors in
    /// the expression (such as dividing a number by zero, or applying a
    /// bitwise operator to a string) will result in a null value.
    pub fn eval(&self, row: &Row) -> (r: Value)
        requires
            evaluable(self@, row@),
        ensures
            r@ == eval_ast(self@, row@),
    {
        self.ast.eval(row)
    }

    /// Returns the names of all the columns referenced by this expression,
    /// each once.
    pub fn column_names(&self) -> (r: Vec<&str>)
        ensures
            names_view(r@).no_duplicates(),
            names_view(r@).to_set() == ast_names(self@),
    {
        let mut names: Vec<&str> = Vec::new();
        assert(names_view(names@).to_set() =~= Set::empty());
        self.ast.populate_column_names(&mut names);
        assert(Set::<Seq<char>>::empty().union(ast_names(self@)) =~= ast_names(self@));
        names
    }

    /// Returns the text of the expression (what `Display` writes).
    pub fn to_string(&self) -> (r: String)
        ensures
            r@ == format_ast(self@, 0),
    {
        let mut out: Vec<char> = Vec::new();
        self.ast.format_with_precedence(&mut out, 0);
        assert(out@ =~= format_ast(self@, 0));
        string_from_chars(out.as_slice())
    }
}

/// Produces an expression that evaluates to the sum of the two subexpressions
/// (if they are integers) or concatenation (if they are strings).  If the two
/// subexpressions evaluate to different types, or if either evaluates to a
/// null value, the result will be a null value.
impl core::ops::Add for Expr {
    type Output = Expr;

    fn add(self, rhs: Expr) -> (r: Expr)
        ensures
            r@ == fold_binop(BinOp::Add, self@, rhs@),
    {
        Expr::binop(BinOp::Add, self.ast, rhs.ast)
    }
}

/// The contract of `+` on expressions is the `ensures` of `add` above:
/// folding two constants makes a new constant whose text spec code cannot
/// build, so no spec function gives the result and `obeys_add_spec` is
/// false.
impl AddSpecImpl for Expr {
    open spec fn obeys_add_spec() -> bool {
        false
    }

    open spec fn add_req(self, rhs: Expr) -> bool {
        true
    }

    closed spec fn add_spec(self, rhs: Expr) -> Expr {
        Expr { ast: Ast::BinOp(BinOp::Add, Box::new(self.ast), Box::new(rhs.ast)) }
    }
}

/// Produces an expression that evaluates to the difference of the two
/// subexpressions.  If either subexpression evaluates to a non-number, the
/// result will be a null value.
impl core::ops::Sub for Expr {
    type Output = Expr;

    fn sub(self, rhs: Expr) -> (r: Expr)
        ensures
            r@ == fold_binop(BinOp::Sub, self@, rhs@),
    {
        Expr::binop(BinOp::Sub, self.ast, rhs.ast)
    }
}

/// The contract of this operator is the `ensures` of its method above, as
/// for `+`.
impl SubSpecImpl for Expr {
    open spec fn obeys_sub_spec() -> bool {
        false
    }

    open spec fn sub_req(self, rhs: Expr) -> bool {
        true
    }

    closed spec fn sub_spec(self, rhs: Expr) -> Expr {
        Expr { ast: Ast::BinOp(BinOp::Sub, Box::new(self.ast), Box::new(rhs.ast)) }
    }
}

/// Produces an expression that evaluates to the product of the two
/// subexpressions.  If either subexpression evaluates to a non-number, the
/// result will be a null value.
impl core::ops::Mul for Expr {
    type Output = Expr;

    fn mul(self, rhs: Expr) -> (r: Expr)
        ensures
            r@ == fold_binop(BinOp::Mul, self@, rhs@),
    {
        Expr::binop(BinOp::Mul, self.ast, rhs.ast)
    }
}

/// The contract of this operator is the `ensures` of its method above, as
/// for `+`.
impl MulSpecImpl for Expr {
    open spec fn obeys_mul_spec() -> bool {
        false
    }

    open spec fn mul_req(self, rhs: Expr) -> bool {
        true
    }

    closed spec fn mul_spec(self, rhs: Expr) -> Expr {
        Expr { ast: Ast::BinOp(BinOp::Mul, Box::new(self.ast), Box::new(rhs.ast)) }
    }
}

/// Produces an expression that evaluates to the integer quotient of the two
/// subexpressions.  If either subexpression evaluates to a non-number, or
/// if the divisor evalulates to zero, the result will be a null value.
impl core::ops::Div for Expr {
    type Output = Expr;

    fn div(self, rhs: Expr) -> (r: Expr)
        ensures
            r@ == fold_binop(BinOp::Div, self@, rhs@),
    {
        Expr::binop(BinOp::Div, self.ast, rhs.ast)
    }
}

/// The contract of this operator is the `ensures` of its method above, as
/// for `+`.
impl DivSpecImpl for Expr {
    open spec fn obeys_div_spec() -> bool {
        false
    }

    open spec fn div_req(self, rhs: Expr) -> bool {
        true
    }

    closed spec fn div_spec(self, rhs: Expr) -> Expr {
        Expr { ast: Ast::BinOp(BinOp::Div, Box::new(self.ast), Box::new(rhs.ast)) }
    }
}

/// Produces an expression that evaluates to the bitwise-and of the two
/// subexpressions.  If either subexpression evaluates to a non-number, the
/// result will be a null value.
impl core::ops::BitAnd for Expr {
    type Output = Expr;

    fn bitand(self, rhs: Expr) -> (r: Expr)
        ensures
            r@ == fold_binop(BinOp::BitAnd, self@, rhs@),
    {
        Expr::binop(BinOp::BitAnd, self.ast, rhs.ast)
    }
}

/// The contract of this operator is the `ensures` of its method above, as
/// for `+`.
impl BitAndSpecImpl for Expr {
    open spec fn obeys_bitand_spec() -> bool {
        false
    }

    open spec fn bitand_req(self, rhs: Expr) -> bool {
        true
    }

    closed spec fn bitand_spec(self, rhs: Expr) -> Expr {
        Expr { ast: Ast::BinOp(BinOp::BitAnd, Box::new(self.ast), Box::new(rhs.ast)) }
    }
}

/// Produces an expression that evaluates to the bitwise-or of the two
/// subexpressions.  If either subexpression evaluates to a non-number, the
/// result will be a null value.
impl core::ops::BitOr for Expr {
    type Output = Expr;

    fn bitor(self, rhs: Expr) -> (r: Expr)
        ensures
            r@ == fold_binop(BinOp::BitOr, self@, rhs@),
    {
        Expr::binop(BinOp::BitOr, self.ast, rhs.ast)
    }
}

/// The contract of this operator is the `ensures` of its method above, as
/// for `+`.
impl BitOrSpecImpl for Expr {
    open spec fn obeys_bitor_spec() -> bool {
        false
    }

    open spec fn bitor_req(self, rhs: Expr) -> bool {
        true
    }

    closed spec fn bitor_spec(self, rhs: Expr) -> Expr {
        Expr { ast: Ast::BinOp(BinOp::BitOr, Box::new(self.ast), Box::new(rhs.ast)) }
    }
}

/// Produces an expression that evaluates to the bitwise-xor of the two
/// subexpressions.  If either subexpression evaluates to a non-number, the
/// result will be a null value.
impl core::ops::BitXor for Expr {
    type Output = Expr;

    fn bitxor(self, rhs: Expr) -> (r: Expr)
        ensures
            r@ == fold_binop(BinOp::BitXor, self@, rhs@),
    {
        Expr::binop(BinOp::BitXor, self.ast, rhs.ast)
    }
}

/// The contract of this operator is the `ensures` of its method above, as
/// for `+`.
impl BitXorSpecImpl for Expr {
    open spec fn obeys_bitxor_spec() -> bool {
        false
    }

    open spec fn bitxor_req(self, rhs: Expr) -> bool {
        true
    }

    closed spec fn bitxor_spec(self, rhs: Expr) -> Expr {
        Expr { ast: Ast::BinOp(BinOp::BitXor, Box::new(self.ast), Box::new(rhs.ast)) }
    }
}

/// Produces an expression that evaluates to the value of the left-hand
/// subexpression bit-shifted left by the value of the right-hand
/// subexpression.  If either subexpression evaluates to a non-number, the
/// result will be a null value.
impl core::ops::Shl for Expr {
    type Output = Expr;

    fn shl(self, rhs: Expr) -> (r: Expr)
        ensures
            r@ == fold_binop(BinOp::Shl, self@, rhs@),
    {
        Expr::binop(BinOp::Shl, self.ast, rhs.ast)
    }
}

/// The contract of this operator is the `ensures` of its method above, as
/// for `+`.
impl ShlSpecImpl for Expr {
    open spec fn obeys_shl_spec() -> bool {
        false
    }

    open spec fn shl_req(self, rhs: Expr) -> bool {
        true
    }

    closed spec fn shl_spec(self, rhs: Expr) -> Expr {
        Expr { ast: Ast::BinOp(BinOp::Shl, Box::new(self.ast), Box::new(rhs.ast)) }
    }
}

/// Produces an expression that evaluates to the value of the left-hand
/// subexpression bit-shifted right by the value of the right-hand
/// subexpression.  If either subexpression evaluates to a non-number, the
/// result will be a null value.
impl core::ops::Shr for Expr {
    type Output = Expr;

    fn shr(self, rhs: Expr) -> (r: Expr)
        ensures
            r@ == fold_binop(BinOp::Shr, self@, rhs@),
    {
        Expr::binop(BinOp::Shr, self.ast, rhs.ast)
    }
}

/// The contract of this operator is the `ensures` of its method above, as
/// for `+`.
impl ShrSpecImpl for Expr {
    open spec fn obeys_shr_spec() -> bool {
        false
    }

    open spec fn shr_req(self, rhs: Expr) -> bool {
        true
    }

    closed spec fn shr_spec(self, rhs: Expr) -> Expr {
        Expr { ast: Ast::BinOp(BinOp::Shr, Box::new(self.ast), Box::new(rhs.ast)) }
    }
}

/// Produces an expression that evaluates to the negative of the subexpression.
/// If the subexpression evaluates to a non-number, the result will be a null
/// value.
impl core::ops::Neg for Expr {
    type Output = Expr;

    fn neg(self) -> (r: Expr)
        ensures
            r@ == fold_unop(UnOp::Neg, self@),
    {
        Expr::unop(UnOp::Neg, self.ast)
    }
}

/// The contract of `-` on one expression is the `ensures` of `neg` above,
/// as for `+`.
impl NegSpecImpl for Expr {
    open spec fn obeys_neg_spec() -> bool {
        false
    }

    open spec fn neg_req(self) -> bool {
        true
    }

    closed spec fn neg_spec(self) -> Expr {
        Expr { ast: Ast::UnOp(UnOp::Neg, Box::new(self.ast)) }
    }
}

/// Folding constants does not change what an expression evaluates to: a
/// binary operation built from two expressions evaluates, on every row, to
/// the operation applied to what they evaluate to.
pub proof fn lemma_fold_binop_eval(op: BinOp, a: AstView, b: AstView, row: RowView)
    ensures
        eval_ast(fold_binop(op, a, b), row) == spec_binop(op, eval_ast(a, row), eval_ast(b, row)),
        ast_names(fold_binop(op, a, b)) <= ast_names(a).union(ast_names(b)),
{
}

/// Folding constants does not change what an expression evaluates to: a
/// unary operation built from an expression evaluates, on every row, to
/// the operation applied to what it evaluates to.
pub proof fn lemma_fold_unop_eval(op: UnOp, a: AstView, row: RowView)
    ensures
        eval_ast(fold_unop(op, a), row) == spec_unop(op, eval_ast(a, row)),
        ast_names(fold_unop(op, a)) <= ast_names(a),
{
}

/// A comparison or a logical operation always evaluates to a boolean: the
/// integer 0 or 1.
pub proof fn lemma_logical_results_are_booleans(a: AstView, row: RowView)
    requires
        a is And || a is Or || (a matches AstView::UnOp(op, _) && op == UnOp::BoolNot) || (a matches AstView::BinOp(
            op,
            _,
            _,
        ) && (op == BinOp::Eq || op == BinOp::Ne || op == BinOp::Lt || op == BinOp::Le || op == BinOp::Gt
            || op == BinOp::Ge)),
    ensures
        eval_ast(a, row) == ValueView::Int(0) || eval_ast(a, row) == ValueView::Int(1),
{
}

/// Whether a comparison holds of two values.
pub open spec fn compares(op: BinOp, a: ValueView, b: ValueView) -> bool {
    spec_to_bool(spec_binop(op, a, b))
}

/// The comparison operators compare values by one strict total order: `=`
/// holds exactly of equal values; exactly one of `<`, `=` and `>` holds of
/// any two values; `<=` is `<` or `=`, `>=` is `>` or `=`, and `!=` is not
/// `=`; swapping the operands turns `<` into `>` and `<=` into `>=`; and
/// each comparison gives 0 or 1.
pub proof fn lemma_comparisons(a: ValueView, b: ValueView)
    ensures
        compares(BinOp::Eq, a, b) <==> a == b,
        compares(BinOp::Lt, a, b) as int + compares(BinOp::Eq, a, b) as int + compares(BinOp::Gt, a, b) as int == 1,
        compares(BinOp::Le, a, b) <==> compares(BinOp::Lt, a, b) || compares(BinOp::Eq, a, b),
        compares(BinOp::Ge, a, b) <==> compares(BinOp::Gt, a, b) || compares(BinOp::Eq, a, b),
        compares(BinOp::Ne, a, b) <==> !compares(BinOp::Eq, a, b),
        compares(BinOp::Gt, a, b) <==> compares(BinOp::Lt, b, a),
        compares(BinOp::Ge, a, b) <==> compares(BinOp::Le, b, a),
        compares(BinOp::Le, a, a) && compares(BinOp::Ge, a, a) && !compares(BinOp::Lt, a, a),
        forall|op: BinOp|
            #![trigger spec_binop(op, a, b)]
            op is Eq || op is Ne || op is Lt || op is Le || op is Gt || op is Ge ==> spec_binop(op, a, b)
                == ValueView::Int(0) || spec_binop(op, a, b) == ValueView::Int(1),
{
    crate::value::lemma_value_less_order(a, b, a);
    crate::value::lemma_value_less_order(b, a, b);
    crate::value::lemma_value_less_order(a, a, a);
}

/// Arithmetic on numbers: `+`, `*`, `&`, `|` and `^` do not depend on the
/// order of their operands; `-` undoes `+` and `+` undoes `-`; negation
/// gives what adds to zero; `~` undoes itself; division by zero gives null,
/// and otherwise a quotient that truncates toward zero, with a remainder
/// smaller than the divisor and of the sign of the dividend; shifting by a
/// negative amount or by 32 or more gives null.
pub proof fn lemma_arithmetic(x: i32, y: i32)
    ensures
        spec_binop(BinOp::Add, ValueView::Int(x), ValueView::Int(y)) == spec_binop(
            BinOp::Add,
            ValueView::Int(y),
            ValueView::Int(x),
        ),
        spec_binop(BinOp::Mul, ValueView::Int(x), ValueView::Int(y)) == spec_binop(
            BinOp::Mul,
            ValueView::Int(y),
            ValueView::Int(x),
        ),
        spec_binop(BinOp::BitAnd, ValueView::Int(x), ValueView::Int(y)) == spec_binop(
            BinOp::BitAnd,
            ValueView::Int(y),
            ValueView::Int(x),
        ),
        spec_binop(BinOp::BitOr, ValueView::Int(x), ValueView::Int(y)) == spec_binop(
            BinOp::BitOr,
            ValueView::Int(y),
            ValueView::Int(x),
        ),
        spec_binop(BinOp::BitXor, ValueView::Int(x), ValueView::Int(y)) == spec_binop(
            BinOp::BitXor,
            ValueView::Int(y),
            ValueView::Int(x),
        ),
        spec_binop(BinOp::Add, ValueView::Int(x), ValueView::Int(y)) matches ValueView::Int(z) ==> spec_binop(
            BinOp::Sub,
            ValueView::Int(z),
            ValueView::Int(y),
        ) == ValueView::Int(x),
        spec_binop(BinOp::Sub, ValueView::Int(x), ValueView::Int(y)) matches ValueView::Int(z) ==> spec_binop(
            BinOp::Add,
            ValueView::Int(z),
            ValueView::Int(y),
        ) == ValueView::Int(x),
        spec_unop(UnOp::Neg, ValueView::Int(x)) matches ValueView::Int(z) ==> spec_binop(
            BinOp::Add,
            ValueView::Int(x),
            ValueView::Int(z),
        ) == ValueView::Int(0),
        spec_unop(UnOp::BitNot, spec_unop(UnOp::BitNot, ValueView::Int(x))) == ValueView::Int(x),
        spec_binop(BinOp::Div, ValueView::Int(x), ValueView::Int(0)) == ValueView::Null,
        spec_binop(BinOp::Div, ValueView::Int(x), ValueView::Int(y)) matches ValueView::Int(q) ==> {
            let r = x - q * y;
            &&& abs_int(r) < abs_int(y as int)
            &&& r == 0 || (r < 0) == (x < 0)
        },
        (y < 0 || y >= 32) ==> spec_binop(BinOp::Shl, ValueView::Int(x), ValueView::Int(y)) == ValueView::Null
            && spec_binop(BinOp::Shr, ValueView::Int(x), ValueView::Int(y)) == ValueView::Null,
{
    assert(x & y == y & x) by (bit_vector);
    assert(x | y == y | x) by (bit_vector);
    assert(x ^ y == y ^ x) by (bit_vector);
    assert(!(!x) == x) by (bit_vector);
    assert(x * y == y * x) by (nonlinear_arith);
    if y != 0 {
        let ax = abs_int(x as int);
        let ay = abs_int(y as int);
        let d = ax / ay;
        assert(ax == d * ay + ax % ay && 0 <= ax % ay < ay) by (nonlinear_arith)
            requires
                ay > 0,
                ax >= 0,
                d == ax / ay,
        ;
        let q = trunc_div(x as int, y as int);
        let r = x - q * y;
        if x >= 0 && y > 0 {
            assert(q * y == d * ay);
        } else if x >= 0 && y < 0 {
            assert(q * y == d * ay) by (nonlinear_arith)
                requires
                    q == -d,
                    ay == -y,
            ;
        } else if x < 0 && y > 0 {
            assert(q * y == -(d * ay)) by (nonlinear_arith)
                requires
                    q == -d,
                    ay == y,
            ;
        } else {
            assert(q * y == -(d * ay)) by (nonlinear_arith)
                requires
                    q == d,
                    ay == -y,
            ;
        }
    }
}

/// The identities of arithmetic on numbers: adding or shifting by zero and
/// multiplying or dividing by one give the number back; multiplying by
/// zero, subtracting a number from itself and xoring it with itself give
/// zero; anding or oring a number with itself gives it back; and negating
/// twice gives it back where the negation fits.
pub proof fn lemma_arithmetic_identities(x: i32)
    ensures
        spec_binop(BinOp::Add, ValueView::Int(x), ValueView::Int(0)) == ValueView::Int(x),
        spec_binop(BinOp::Mul, ValueView::Int(x), ValueView::Int(1)) == ValueView::Int(x),
        spec_binop(BinOp::Mul, ValueView::Int(x), ValueView::Int(0)) == ValueView::Int(0),
        spec_binop(BinOp::Div, ValueView::Int(x), ValueView::Int(1)) == ValueView::Int(x),
        spec_binop(BinOp::Sub, ValueView::Int(x), ValueView::Int(x)) == ValueView::Int(0),
        spec_binop(BinOp::BitXor, ValueView::Int(x), ValueView::Int(x)) == ValueView::Int(0),
        spec_binop(BinOp::BitAnd, ValueView::Int(x), ValueView::Int(x)) == ValueView::Int(x),
        spec_binop(BinOp::BitOr, ValueView::Int(x), ValueView::Int(x)) == ValueView::Int(x),
        spec_binop(BinOp::Shl, ValueView::Int(x), ValueView::Int(0)) == ValueView::Int(x),
        spec_binop(BinOp::Shr, ValueView::Int(x), ValueView::Int(0)) == ValueView::Int(x),
        x != i32::MIN ==> spec_unop(UnOp::Neg, spec_unop(UnOp::Neg, ValueView::Int(x))) == ValueView::Int(x),
{
    assert(x ^ x == 0) by (bit_vector);
    assert(x & x == x) by (bit_vector);
    assert(x | x == x) by (bit_vector);
    assert(x << 0u32 == x) by (bit_vector);
    assert(x >> 0u32 == x) by (bit_vector);
    assert(x * 1 == x && x * 0 == 0);
    assert(abs_int(x as int) / 1 == abs_int(x as int));
    assert(trunc_div(x as int, 1) == x);
}

/// The logical operators follow boolean logic on what their operands
/// evaluate to: `AND` is true exactly when both operands are, `OR` exactly
/// when either is, and `NOT` exactly when its operand is not; so `NOT (x AND
/// y)` and `(NOT x) OR (NOT y)` agree on every row.
pub proof fn lemma_logic(x: AstView, y: AstView, row: RowView)
    ensures
        spec_to_bool(eval_ast(AstView::And(Box::new(x), Box::new(y)), row)) <==> spec_to_bool(eval_ast(x, row))
            && spec_to_bool(eval_ast(y, row)),
        spec_to_bool(eval_ast(AstView::Or(Box::new(x), Box::new(y)), row)) <==> spec_to_bool(eval_ast(x, row))
            || spec_to_bool(eval_ast(y, row)),
        spec_to_bool(eval_ast(AstView::UnOp(UnOp::BoolNot, Box::new(x)), row)) <==> !spec_to_bool(eval_ast(x, row)),
        eval_ast(
            AstView::UnOp(UnOp::BoolNot, Box::new(AstView::And(Box::new(x), Box::new(y)))),
            row,
        ) == eval_ast(
            AstView::Or(
                Box::new(AstView::UnOp(UnOp::BoolNot, Box::new(x))),
                Box::new(AstView::UnOp(UnOp::BoolNot, Box::new(y))),
            ),
            row,
        ),
{
    let nx = AstView::UnOp(UnOp::BoolNot, Box::new(x));
    let ny = AstView::UnOp(UnOp::BoolNot, Box::new(y));
    let both = AstView::And(Box::new(x), Box::new(y));
    assert(eval_ast(nx, row) == spec_from_bool(!spec_to_bool(eval_ast(x, row))));
    assert(eval_ast(ny, row) == spec_from_bool(!spec_to_bool(eval_ast(y, row))));
    assert(eval_ast(both, row) == spec_from_bool(spec_to_bool(eval_ast(x, row)) && spec_to_bool(eval_ast(y, row))));
}

} // verus!
