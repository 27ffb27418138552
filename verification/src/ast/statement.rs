//! Statements.

use vstd::prelude::*;
use vstd::string::StringSliceAdditionalSpecFns;

use super::expr::{Expr, SpecExpr};
use super::ident::{is_name, Ident};

verus! {

/// `let var = expr;`
#[derive(Debug, PartialEq, Eq)]
pub struct LetStatement<'a> {
    pub var: Ident<'a>,
    pub expr: Expr<'a>,
}

/// Statements between braces, in source order.
#[derive(Debug, PartialEq, Eq)]
pub struct BlockStatement<'a>(pub Vec<Statement<'a>>);

/// The parameters of a function, each a name and the name of its type, in
/// the order in which they were declared.
#[derive(Debug, PartialEq, Eq)]
pub struct ParamList<'a>(pub Vec<(Ident<'a>, Ident<'a>)>);

/// `fn name(params): return_type { body }`
#[derive(Debug, PartialEq, Eq)]
pub struct FunctionDef<'a> {
    pub name: Ident<'a>,
    pub params: ParamList<'a>,
    pub body: BlockStatement<'a>,
    pub return_type: Ident<'a>,
}

/// A statement.
#[derive(Debug, PartialEq, Eq)]
pub enum Statement<'a> {
    Let(LetStatement<'a>),
    Block(BlockStatement<'a>),
    FunctionDef(FunctionDef<'a>),
}

/// A `let` statement as a mathematical value.
pub struct SpecLetStatement {
    pub var: Seq<u8>,
    pub expr: SpecExpr,
}

/// A function definition as a mathematical value.
pub struct SpecFunctionDef {
    pub name: Seq<u8>,
    pub params: Seq<(Seq<u8>, Seq<u8>)>,
    pub body: Seq<SpecStatement>,
    pub return_type: Seq<u8>,
}

/// A statement as a mathematical value. Names stand as their bytes, a block
/// as the sequence of its statements.
pub enum SpecStatement {
    Let(SpecLetStatement),
    Block(Seq<SpecStatement>),
    FunctionDef(SpecFunctionDef),
}

/// Whether each parameter is a name with the name of a type.
pub open spec fn params_in_source_form(params: Seq<(Seq<u8>, Seq<u8>)>) -> bool {
    forall|i: int|
        0 <= i < params.len() ==> is_name((#[trigger] params[i]).0) && is_name(params[i].1)
}

impl SpecStatement {
    /// Whether the statement is one that parsing gives: a `let` statement
    /// or a function definition, with names for names, expressions that
    /// parsing gives, and in a function's body statements of that form
    /// again.
    pub open spec fn in_source_form(self) -> bool
        decreases self,
    {
        match self {
            SpecStatement::Let(stmt) => is_name(stmt.var) && stmt.expr.in_source_form(),
            SpecStatement::Block(_) => false,
            SpecStatement::FunctionDef(def) => {
                &&& is_name(def.name)
                &&& params_in_source_form(def.params)
                &&& is_name(def.return_type)
                &&& forall|i: int|
                    0 <= i < def.body.len() ==> (#[trigger] def.body[i]).in_source_form()
            },
        }
    }
}

/// Whether each statement of `stmts` is one that parsing gives.
pub open spec fn all_in_source_form(stmts: Seq<SpecStatement>) -> bool {
    forall|i: int| 0 <= i < stmts.len() ==> (#[trigger] stmts[i]).in_source_form()
}

impl<'a> View for LetStatement<'a> {
    type V = SpecLetStatement;

    open spec fn view(&self) -> SpecLetStatement {
        SpecLetStatement { var: self.var.spec_bytes(), expr: self.expr@ }
    }
}

impl<'a> View for ParamList<'a> {
    type V = Seq<(Seq<u8>, Seq<u8>)>;

    open spec fn view(&self) -> Seq<(Seq<u8>, Seq<u8>)> {
        Seq::new(
            self.0@.len(),
            |i: int| (self.0@[i].0.spec_bytes(), self.0@[i].1.spec_bytes()),
        )
    }
}

impl<'a> Statement<'a> {
    /// The mathematical value of the statement.
    pub open spec fn model(&self) -> SpecStatement
        decreases self,
    {
        match self {
            Statement::Let(stmt) => SpecStatement::Let(stmt@),
            Statement::Block(block) => SpecStatement::Block(block.model()),
            Statement::FunctionDef(def) => SpecStatement::FunctionDef(
                SpecFunctionDef {
                    name: def.name.spec_bytes(),
                    params: def.params@,
                    body: def.body.model(),
                    return_type: def.return_type.spec_bytes(),
                },
            ),
        }
    }
}

impl<'a> BlockStatement<'a> {
    /// The mathematical values of the statements of the block, in order.
    pub open spec fn model(&self) -> Seq<SpecStatement>
        decreases self,
    {
        Seq::new(
            self.0.len() as nat,
            |i: int|
                if 0 <= i < self.0.len() {
                    self.0[i].model()
                } else {
                    arbitrary()
                },
        )
    }
}

impl<'a> View for Statement<'a> {
    type V = SpecStatement;

    open spec fn view(&self) -> SpecStatement {
        self.model()
    }
}

impl<'a> View for BlockStatement<'a> {
    type V = Seq<SpecStatement>;

    open spec fn view(&self) -> Seq<SpecStatement> {
        self.model()
    }
}

impl<'a> View for FunctionDef<'a> {
    type V = SpecFunctionDef;

    open spec fn view(&self) -> SpecFunctionDef {
        SpecFunctionDef {
            name: self.name.spec_bytes(),
            params: self.params@,
            body: self.body@,
            return_type: self.return_type.spec_bytes(),
        }
    }
}

} // verus!
