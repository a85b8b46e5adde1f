//! Driver-framework core: a declarative command-line argument dispatcher, a
//! command-queue execution engine, and linker input resolution (file-type
//! sniffing, linker-script parsing, library search-path resolution).

pub mod argproc;
pub mod command_queue;
pub mod filetype;
pub mod ldtools;
pub mod options;
pub mod repo;
pub mod table;
pub mod text;
pub mod toolchain;
