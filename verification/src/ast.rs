//! The syntax tree: statements and expressions, and the values that stand
//! for them in contracts.

pub mod expr;
pub mod ident;
pub mod program;
pub mod statement;

pub use self::expr::{BinOp, BinaryExpr, Expr, IntLitParseError, SpecBinaryExpr, SpecExpr};
pub use self::ident::{is_name, Ident};
pub use self::program::{Program, SpecProgram};
pub use self::statement::{
    all_in_source_form, params_in_source_form, BlockStatement, FunctionDef, LetStatement,
    ParamList, SpecFunctionDef, SpecLetStatement, SpecStatement, Statement,
};
