pub mod ir;
pub mod parser;
pub mod translator;
