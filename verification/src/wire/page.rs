//! Pages of a paginated read.

use crate::money::asset::AssetId;
use crate::wire::timestamp::Rfc3339;
use vstd::prelude::*;

verus! {

/// What a page's cursor is good for after an interruption.
#[derive(Debug, Clone, Copy, PartialEq, Eq, Structural)]
pub enum CursorResumable {
    /// The `next` of the last completed page is a safe place to resume from.
    Exact,
    /// Only the start of the batch is.
    BatchRestart,
    /// There is no such place: the window is read again.
    NotResumable,
}

/// Which page of a resource to read.
#[derive(Debug)]
pub enum PageRequest {
    Cursor { cursor: String },
    Window { resource_id: String, asset: Option<AssetId>, start: Rfc3339, end: Rfc3339 },
}

impl Clone for PageRequest {
    fn clone(&self) -> (r: Self)
        ensures
            r == *self,
    {
        match self {
            PageRequest::Cursor { cursor } => PageRequest::Cursor { cursor: cursor.clone() },
            PageRequest::Window { resource_id, asset, start, end } => PageRequest::Window {
                resource_id: resource_id.clone(),
                asset: match asset {
                    Some(asset) => Some(asset.clone()),
                    None => None,
                },
                start: start.clone(),
                end: end.clone(),
            },
        }
    }
}

/// Copies an optional page request.
pub fn copy_page(page: &Option<PageRequest>) -> (r: Option<PageRequest>)
    ensures
        r == *page,
{
    match page {
        Some(page) => Some(page.clone()),
        None => None,
    }
}

/// Where a page leaves a read: how its cursor may be used, and what comes next.
#[derive(Debug)]
pub struct PageReply {
    pub cursor_resumable: CursorResumable,
    pub next: Option<PageRequest>,
}

/// One resource of a history read, and the page to read of it.
#[derive(Debug)]
pub struct ResourceQuery {
    pub resource_id: String,
    pub page: Option<PageRequest>,
}

} // verus!
