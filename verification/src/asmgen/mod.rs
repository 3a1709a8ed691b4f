pub mod register;
pub mod codegen_util;
pub mod ag;
pub mod ag_impl;
pub mod compare_sem;
