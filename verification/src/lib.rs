//! A small personal note-and-plan manager's data-access layer: two entity
//! stores — free-text memos and dated plan items — with verified create,
//! read, partial-update, delete, search, date-filter and status-toggle
//! operations.  Each store holds its rows in memory; a surrounding process
//! persists them and writes every change through.

use vstd::prelude::*;

mod host;
pub mod memo;
pub mod order;
pub mod pattern;
pub mod plan;

verus! {

/// The failure categories a store operation can surface.
#[derive(Clone, Copy, Debug, PartialEq, Eq, Structural)]
pub enum StoreError {
    NotFound,
    PersistenceError,
    StorageUnavailable,
}

/// The fixed location of the database file.
pub fn get_db_path() -> (r: String)
    ensures
        r@ == "/Volumes/T7/谷歌反重力/尝试项目/UI设计/笔记界面优化/tesla_notes.db"@,
{
    "/Volumes/T7/谷歌反重力/尝试项目/UI设计/笔记界面优化/tesla_notes.db".to_owned()
}

} // verus!
