//! Sheet export core: picks a sheet of a workbook, decides which columns hold
//! calendar serials, renders every typed cell as text and assembles the
//! records that a delimited writer takes.

pub mod cell;
pub mod export;
pub mod order;
pub mod record;
pub mod sheet;
pub mod text;
pub mod whitelist;
