//! A sans-I/O core for mounting a remote 9p2000.L file system.

pub mod attrs;
pub mod bookkeeping;
pub mod calls;
pub mod client;
pub mod effects;
pub mod frame;
pub mod fuse9p;
pub mod invalidate;
pub mod mount9p;
pub mod ninep;
pub mod readdirplus;
pub mod session;
pub mod step;
pub mod text;
pub mod transport;
pub mod tuning;
pub mod wire;
pub mod writeback;

pub use client::NineClient;
pub use fuse9p::Fuse9p;
pub use tuning::Tuning;
