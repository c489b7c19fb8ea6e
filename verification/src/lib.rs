//! The headless engine of a file pager.
use vstd::prelude::*;

pub mod block;
pub mod context;
pub mod document;
pub mod glyph;
pub mod index;
pub mod layout_laws;
pub mod line;
pub mod meter;
pub mod nav;
pub mod nav_laws;
pub mod scan;
pub mod search;
pub mod text;
pub mod utf8;
pub mod viewport;
pub mod width;

verus! {

/// Tunable engine parameters. Defaults target high-latency network filesystems.
#[derive(Debug, Clone)]
pub struct Config {
    /// Size of an interactive read in bytes.
    pub block_size: usize,
    /// Columns a tab advances to the next multiple of.
    pub tab_stop: usize,
    /// Total bytes of file data that the shared block cache may hold.
    pub cache_bytes: usize,
    /// Byte budget for one navigation scan.
    pub nav_scan_budget: usize,
    /// Blocks to keep warm ahead of the viewport in the scroll direction.
    pub prefetch_depth: usize,
}

impl Default for Config {
    fn default() -> (c: Config)
        ensures
            c.block_size == 0x10_0000,
            c.tab_stop == 8,
            c.cache_bytes == 0x1000_0000,
            c.nav_scan_budget == 0x80_0000,
            c.prefetch_depth == 8,
    {
        Config {
            block_size: 0x10_0000,
            tab_stop: 8,
            cache_bytes: 0x1000_0000,
            nav_scan_budget: 0x80_0000,
            prefetch_depth: 8,
        }
    }
}

}
