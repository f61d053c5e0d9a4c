pub mod ilint;
pub mod io;
pub mod tags;
