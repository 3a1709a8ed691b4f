pub mod type_;
pub mod user;
pub mod value;
pub mod module;
pub mod user_impl;
pub mod value_impl;
pub mod bb_impl;
pub mod func_impl;
pub mod inst_impl;
pub mod const_impl;
pub mod gv_impl;
pub mod ir_printer;
pub mod inst_builder;
pub mod printable;
pub mod func_remove;
