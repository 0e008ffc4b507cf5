//! The abstract syntax tree.
use vstd::prelude::*;

verus! {

/// A node of the syntax tree. Each node owns its children.
#[derive(Debug, PartialEq)]
pub enum Expr {
    /// A number literal, held as it was written.
    Number(String),
    /// A reference to a variable.
    Variable(String),
    /// A binary operation: operator, left operand, right operand.
    Binary(char, Box<Expr>, Box<Expr>),
    /// A call of `callee` with `args`, which may be empty.
    Call { callee: String, args: Vec<Expr> },
    /// A function signature. The name is empty for the wrapper of a
    /// top-level expression.
    Prototype { func_name: String, arg_names: Vec<String> },
    /// A function: its prototype and its body.
    Function { prototype: Box<Expr>, body: Box<Expr> },
}

/// A syntax tree over sequences of characters.
pub enum ExprView {
    Number(Seq<char>),
    Variable(Seq<char>),
    Binary(char, Box<ExprView>, Box<ExprView>),
    Call { callee: Seq<char>, args: Seq<ExprView> },
    Prototype { func_name: Seq<char>, arg_names: Seq<Seq<char>> },
    Function { prototype: Box<ExprView>, body: Box<ExprView> },
}

/// The views of a list of expressions, in order.
pub open spec fn expr_views(exprs: Seq<Expr>) -> Seq<ExprView>
    decreases exprs,
{
    if exprs.len() == 0 {
        Seq::empty()
    } else {
        expr_views(exprs.drop_last()).push(exprs.last()@)
    }
}

/// The views of a list of names.
pub open spec fn name_views(names: Seq<String>) -> Seq<Seq<char>> {
    Seq::new(names.len(), |i: int| names[i]@)
}

impl View for Expr {
    type V = ExprView;

    open spec fn view(&self) -> ExprView
        decreases self,
    {
        match self {
            Expr::Number(text) => ExprView::Number(text@),
            Expr::Variable(name) => ExprView::Variable(name@),
            Expr::Binary(op, lhs, rhs) => ExprView::Binary(*op, Box::new((**lhs)@), Box::new((**rhs)@)),
            Expr::Call { callee, args } => ExprView::Call {
                callee: callee@,
                args: expr_views(args@),
            },
            Expr::Prototype { func_name, arg_names } => ExprView::Prototype {
                func_name: func_name@,
                arg_names: name_views(arg_names@),
            },
            Expr::Function { prototype, body } => ExprView::Function {
                prototype: Box::new((**prototype)@),
                body: Box::new((**body)@),
            },
        }
    }
}

/// The view of a parse result.
pub open spec fn expr_result_view<E>(r: Result<Expr, E>) -> Result<ExprView, E> {
    match r {
        Ok(e) => Ok(e@),
        Err(e) => Err(e),
    }
}

/// The kinds of top-level form.
#[derive(Debug, Clone, Copy, PartialEq, Eq)]
pub enum FormKind {
    /// `def` prototype expr
    Definition,
    /// `extern` prototype
    Extern,
    /// A free-standing expression.
    TopLevelExpr,
}

impl FormKind {
    /// The line that reports a form of this kind.
    pub fn acknowledgment(&self) -> (text: &'static str)
        ensures
            text@ == self.spec_acknowledgment(),
    {
        match self {
            FormKind::Definition => "Parsed a function definition.",
            FormKind::Extern => "Parsed an extern",
            FormKind::TopLevelExpr => "Parsed a top-level expr",
        }
    }

    /// The text of the line that reports a form of this kind.
    pub open spec fn spec_acknowledgment(&self) -> Seq<char> {
        match self {
            FormKind::Definition => "Parsed a function definition."@,
            FormKind::Extern => "Parsed an extern"@,
            FormKind::TopLevelExpr => "Parsed a top-level expr"@,
        }
    }
}

/// A top-level form that was parsed.
#[derive(Debug, PartialEq)]
pub struct Form {
    pub kind: FormKind,
    /// A `Function` for a definition or a top-level expression, a
    /// `Prototype` for an extern.
    pub tree: Expr,
}

/// A top-level form over sequences of characters.
pub struct FormView {
    pub kind: FormKind,
    pub tree: ExprView,
}

impl View for Form {
    type V = FormView;

    open spec fn view(&self) -> FormView {
        FormView { kind: self.kind, tree: self.tree@ }
    }
}

/// The views of a list of forms, in order.
pub open spec fn form_views(forms: Seq<Form>) -> Seq<FormView> {
    Seq::new(forms.len(), |i: int| forms[i]@)
}

/// The view of a result that holds a form.
pub open spec fn form_result_view<E>(r: Result<Form, E>) -> Result<FormView, E> {
    match r {
        Ok(f) => Ok(f@),
        Err(e) => Err(e),
    }
}

} // verus!
