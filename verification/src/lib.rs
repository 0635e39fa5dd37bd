use vstd::prelude::*;

pub mod cli;
pub mod cli_laws;
pub mod duration;
pub mod duration_laws;
pub mod inhibit;
pub mod run;
pub mod sig;
pub mod text;
