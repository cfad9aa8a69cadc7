pub mod ast;
pub mod json;
pub mod codec;
pub mod text;
pub mod parse;
pub mod return_value;

pub use ast::ASTNode;
pub use ast::ASTNodeData;
pub use ast::While;
pub use ast::If;
pub use ast::IfElse;
pub use ast::VariableAssignment;
pub use ast::Function;
pub use return_value::ReturnValue;
pub use ast::ast_example;
pub use codec::DecodeError;
pub use codec::encode;
pub use codec::decode;
