pub mod type_expr;
pub mod typemap;
pub mod templates;
pub mod binder;
pub mod laws;
pub mod handle_table;
