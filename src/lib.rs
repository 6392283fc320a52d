pub mod cli;
pub mod discovery;
pub mod name;
pub mod run;
pub mod stored;
