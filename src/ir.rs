pub mod ir;
pub mod semantical_analizer;
pub mod symbol_table;
