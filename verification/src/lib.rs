//! The core of `dirt`, which watches a file server for changes below its shares.
//!
//! The server's file operations are probed at their entry ([`entry`]) and at
//! their return ([`exit`]). The entry probe keeps what an operation was called
//! with ([`event`]), the return probe reports it if the operation succeeded in a
//! share of interest ([`share`]).
//!
//! The server is a stripped binary, so the probes have to be told where its
//! functions lie in the file. [`shfs`] finds that out: from the name of a
//! function as a string in the binary, through the instructions that refer to it
//! ([`disasm`]), to the function start before those ([`prologue`]).

pub mod analysis;
pub mod bytes;
pub mod disasm;
pub mod elf_file;
pub mod entry;
pub mod error;
pub mod event;
pub mod exit;
pub mod halt;
pub mod hex;
pub mod offsets;
pub mod prologue;
pub mod share;
pub mod shfs;
