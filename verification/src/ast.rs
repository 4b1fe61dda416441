mod binary;
mod expr;
mod num;
mod op;
mod unary;

pub use binary::Binary;
pub use binary::Bop;
pub use expr::Expr;
pub use num::dec_digits;
pub use num::digit_char;
pub use num::push_digits;
pub use num::Num;
pub use op::Assoc;
pub use op::DefaultOperator;
pub use op::Operator;
pub use unary::Unary;
pub use unary::Uop;
