pub mod fll;
pub mod sl;
pub mod pl;
pub mod lpl;
