pub mod name_object;
pub mod operator_object;
pub mod string_object;
