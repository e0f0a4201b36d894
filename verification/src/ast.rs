//! The expression tree, and the tree as contracts see it.

use vstd::prelude::*;
use crate::text::{lowercase_of, same_text, to_lowercase};

verus! {

/// The binary operators.
#[derive(Debug, Clone, Copy, PartialEq, Eq, Structural)]
pub enum BinOp {
    Add,
    Subtract,
    Multiply,
    Divide,
    Power,
}

/// The prefix operators `-` and `+` and the postfix operator `!`.
#[derive(Debug, Clone, Copy, PartialEq, Eq, Structural)]
pub enum UnOp {
    Negate,
    Positive,
    Factorial,
}

/// The functions that can be called by name.
#[derive(Debug, Clone, Copy, PartialEq, Eq, Structural)]
pub enum Function {
    Sin,
    Cos,
    Tan,
    Asin,
    Acos,
    Atan,
    Log,
    Ln,
    Exp,
    Sqrt,
    Abs,
    Floor,
    Ceil,
    Round,
    Pow,
    Max,
    Min,
}

/// The function written by the lowercase name `name`, if there is one.
pub open spec fn function_named(name: Seq<char>) -> Option<Function> {
    if name == "sin"@ {
        Some(Function::Sin)
    } else if name == "cos"@ {
        Some(Function::Cos)
    } else if name == "tan"@ {
        Some(Function::Tan)
    } else if name == "asin"@ {
        Some(Function::Asin)
    } else if name == "acos"@ {
        Some(Function::Acos)
    } else if name == "atan"@ {
        Some(Function::Atan)
    } else if name == "log"@ {
        Some(Function::Log)
    } else if name == "ln"@ {
        Some(Function::Ln)
    } else if name == "exp"@ {
        Some(Function::Exp)
    } else if name == "sqrt"@ {
        Some(Function::Sqrt)
    } else if name == "abs"@ {
        Some(Function::Abs)
    } else if name == "floor"@ {
        Some(Function::Floor)
    } else if name == "ceil"@ {
        Some(Function::Ceil)
    } else if name == "round"@ {
        Some(Function::Round)
    } else if name == "pow"@ {
        Some(Function::Pow)
    } else if name == "max"@ {
        Some(Function::Max)
    } else if name == "min"@ {
        Some(Function::Min)
    } else {
        None
    }
}

impl Function {
    /// The name under which the function is called.
    pub open spec fn name_spec(self) -> Seq<char> {
        match self {
            Function::Sin => "sin"@,
            Function::Cos => "cos"@,
            Function::Tan => "tan"@,
            Function::Asin => "asin"@,
            Function::Acos => "acos"@,
            Function::Atan => "atan"@,
            Function::Log => "log"@,
            Function::Ln => "ln"@,
            Function::Exp => "exp"@,
            Function::Sqrt => "sqrt"@,
            Function::Abs => "abs"@,
            Function::Floor => "floor"@,
            Function::Ceil => "ceil"@,
            Function::Round => "round"@,
            Function::Pow => "pow"@,
            Function::Max => "max"@,
            Function::Min => "min"@,
        }
    }

    /// The name under which the function is called.
    pub fn name(&self) -> (r: &'static str)
        ensures
            r@ == self.name_spec(),
    {
        match self {
            Function::Sin => "sin",
            Function::Cos => "cos",
            Function::Tan => "tan",
            Function::Asin => "asin",
            Function::Acos => "acos",
            Function::Atan => "atan",
            Function::Log => "log",
            Function::Ln => "ln",
            Function::Exp => "exp",
            Function::Sqrt => "sqrt",
            Function::Abs => "abs",
            Function::Floor => "floor",
            Function::Ceil => "ceil",
            Function::Round => "round",
            Function::Pow => "pow",
            Function::Max => "max",
            Function::Min => "min",
        }
    }

    /// The function written by `name`, which is matched as it stands.
    pub fn from_lowercase(name: &str) -> (r: Option<Function>)
        ensures
            r == function_named(name@),
    {
        if same_text(name, "sin") {
            Some(Function::Sin)
        } else if same_text(name, "cos") {
            Some(Function::Cos)
        } else if same_text(name, "tan") {
            Some(Function::Tan)
        } else if same_text(name, "asin") {
            Some(Function::Asin)
        } else if same_text(name, "acos") {
            Some(Function::Acos)
        } else if same_text(name, "atan") {
            Some(Function::Atan)
        } else if same_text(name, "log") {
            Some(Function::Log)
        } else if same_text(name, "ln") {
            Some(Function::Ln)
        } else if same_text(name, "exp") {
            Some(Function::Exp)
        } else if same_text(name, "sqrt") {
            Some(Function::Sqrt)
        } else if same_text(name, "abs") {
            Some(Function::Abs)
        } else if same_text(name, "floor") {
            Some(Function::Floor)
        } else if same_text(name, "ceil") {
            Some(Function::Ceil)
        } else if same_text(name, "round") {
            Some(Function::Round)
        } else if same_text(name, "pow") {
            Some(Function::Pow)
        } else if same_text(name, "max") {
            Some(Function::Max)
        } else if same_text(name, "min") {
            Some(Function::Min)
        } else {
            None
        }
    }

    /// The function written by `s`, whatever the case of its letters.
    pub fn from_str(s: &str) -> (r: Option<Function>)
        ensures
            r == function_named(lowercase_of(s@)),
    {
        let lower = to_lowercase(s);
        Function::from_lowercase(lower.as_str())
    }
}

/// An expression tree.  Each node owns its children.
#[derive(Debug, PartialEq)]
#[allow(inconsistent_fields)]
pub enum Expr {
    /// A numeric literal, as written.
    Number(String),
    BinaryOp { left: Box<Expr>, op: BinOp, right: Box<Expr> },
    UnaryOp { op: UnOp, expr: Box<Expr> },
    FunctionCall { func: Function, args: Vec<Expr> },
    Variable(String),
    PostfixOp { expr: Box<Expr>, op: UnOp },
    Assignment { name: String, value: Box<Expr> },
}

/// An expression tree as contracts see it.
pub enum Term {
    Number(Seq<char>),
    Binary(Box<Term>, BinOp, Box<Term>),
    Unary(UnOp, Box<Term>),
    Call(Function, Seq<Term>),
    Variable(Seq<char>),
    Postfix(Box<Term>, UnOp),
    Assign(Seq<char>, Box<Term>),
}

impl View for Expr {
    type V = Term;

    open spec fn view(&self) -> Term
        decreases self,
    {
        match self {
            Expr::Number(text) => Term::Number(text@),
            Expr::BinaryOp { left, op, right } => Term::Binary(
                Box::new((**left).view()),
                *op,
                Box::new((**right).view()),
            ),
            Expr::UnaryOp { op, expr } => Term::Unary(*op, Box::new((**expr).view())),
            Expr::FunctionCall { func, args } => Term::Call(
                *func,
                Seq::new(
                    args.len() as nat,
                    |i: int|
                        if 0 <= i < args.len() {
                            args[i].view()
                        } else {
                            Term::Number(seq![])
                        },
                ),
            ),
            Expr::Variable(name) => Term::Variable(name@),
            Expr::PostfixOp { expr, op } => Term::Postfix(Box::new((**expr).view()), *op),
            Expr::Assignment { name, value } => Term::Assign(name@, Box::new((**value).view())),
        }
    }
}

/// The views of the expressions in a vector.
pub open spec fn terms(args: Seq<Expr>) -> Seq<Term> {
    Seq::new(args.len(), |i: int| args[i]@)
}

impl Expr {
    /// A copy of the tree.
    pub fn duplicate(expr: &Expr) -> (r: Expr)
        ensures
            r@ == expr@,
        decreases expr,
    {
        match expr {
            Expr::Number(text) => Expr::Number(text.clone()),
            Expr::BinaryOp { left, op, right } => Expr::BinaryOp {
                left: Box::new(Self::duplicate(left)),
                op: *op,
                right: Box::new(Self::duplicate(right)),
            },
            Expr::UnaryOp { op, expr } => Expr::UnaryOp {
                op: *op,
                expr: Box::new(Self::duplicate(expr)),
            },
            Expr::FunctionCall { func, args } => {
                let mut copies: Vec<Expr> = Vec::new();
                let mut i: usize = 0;
                while i < args.len()
                    invariant
                        i <= args.len(),
                        copies@.len() == i,
                        expr == (Expr::FunctionCall { func: *func, args: *args }),
                        forall|j: int| 0 <= j < i ==> copies@[j]@ == args@[j]@,
                    decreases args.len() - i,
                {
                    proof {
                        assert(expr->args == *args);
                        assert(decreases_to!(args => args[i as int]));
                    }
                    let copy = Self::duplicate(&args[i]);
                    copies.push(copy);
                    i += 1;
                }
                let r = Expr::FunctionCall { func: *func, args: copies };
                proof {
                    assert(r@ matches Term::Call(f, s) && f == *func && s =~= terms(args@));
                    assert(expr@ matches Term::Call(f, s) && f == *func && s =~= terms(args@));
                }
                r
            },
            Expr::Variable(name) => Expr::Variable(name.clone()),
            Expr::PostfixOp { expr, op } => Expr::PostfixOp {
                expr: Box::new(Self::duplicate(expr)),
                op: *op,
            },
            Expr::Assignment { name, value } => Expr::Assignment {
                name: name.clone(),
                value: Box::new(Self::duplicate(value)),
            },
        }
    }
}

impl Clone for Expr {
    fn clone(&self) -> (r: Expr)
        ensures
            r@ == self@,
    {
        Expr::duplicate(self)
    }
}

} // verus!
