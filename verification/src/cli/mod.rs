//! What the commands of the program compute, without their input and
//! output.
pub mod add;
pub mod all;
pub mod fix_db;
pub mod info;
pub mod remove;
pub mod reset;
pub mod review;
pub mod run;
pub mod stats;
pub mod text;
