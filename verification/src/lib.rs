pub mod access;
pub mod apply;
pub mod bitwise;
pub mod cast;
pub mod comparison;
pub mod conditional;
pub mod context;
pub mod data;
pub mod execute;
pub mod expression_data;
pub mod input;
pub mod invoke;
pub mod iterate;
pub mod laws;
pub mod link;
pub mod instruction;
pub mod instruction_iter;
pub mod lists;
pub mod logical;
pub mod math;
pub mod put;
pub mod range;
pub mod pair;
pub mod resolve;
pub mod result;
pub mod runtime;
