pub mod common;
pub mod detect1;
pub mod detect10;
pub mod detect2;
pub mod detect3;
pub mod detect4;
pub mod detect5;
pub mod detect6;
pub mod detect7;
pub mod detect8;
pub mod detect9;
