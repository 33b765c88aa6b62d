pub mod ir_to_c;
pub mod ir_to_html;
