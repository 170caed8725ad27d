//! Frame codec, LED command codec and interception policy for the serial bus
//! between an arcade I/O controller and its LED board.
pub mod capture;
pub mod command;
pub mod frame;
pub mod proxy;
