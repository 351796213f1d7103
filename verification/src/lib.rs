pub mod addr;
pub mod address_book;
pub mod bitvec;
pub mod channel;
pub mod client;
pub mod control;
pub mod io;
pub mod msg;
pub mod server;
pub mod util;
