//! Reading Ren'Py compiled scripts (`.rpyc`) and archives (`.rpa`).
pub mod pickle;
pub mod ast;
pub mod reader;
pub mod rpa;
