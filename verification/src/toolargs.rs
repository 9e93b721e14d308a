//! Plain-value argument shapes of the built-in tools and the HTTP surface.
//! The transport deserialises into its own copies and hands these across.
use vstd::prelude::*;
use crate::asset_id::AssetId;

verus! {

/// Argument of the image re-exposing tool: the stored image's id text.
pub struct ImageArgs {
    pub img_idx: Vec<u8>,
}

/// Argument of the asset re-exposing tool: the stored asset's id text.
pub struct AssetArgs {
    pub asset_idx: Vec<u8>,
}

/// Which store an inspected resource is expected in.
#[derive(Clone, Copy, PartialEq, Eq, Structural, Debug)]
pub enum ResourceType {
    Image,
    Asset,
}

/// Argument of the resource inspector: an id text and an optional store.
pub struct InspectArgs {
    pub uuid: Vec<u8>,
    pub ty: Option<ResourceType>,
}

/// One content piece handed to the visual scratchpad.
pub enum MemoContentInput {
    /// A stored image, by id text.
    Image(Vec<u8>),
    /// Inline SVG markup.
    Svg(Vec<u8>),
    /// Raw text, wrapped automatically.
    Text(Vec<u8>),
}

/// Page selection of the history listing.
pub struct PaginationParams {
    pub limit: Option<usize>,
    pub offset: Option<usize>,
}

/// Body of a direct tool invocation.
pub struct ToolCallRequest {
    pub args: Vec<u8>,
}

/// One uploaded file's outcome: its name and the id it was stored under.
pub struct UploadResponse {
    pub file: Vec<u8>,
    pub uuid: AssetId,
}

/// Which store the inspector reads first when no store was named: the
/// image store, then the asset store.
pub fn inspect_order(ty: Option<ResourceType>) -> (r: Vec<ResourceType>)
    ensures
        match ty {
            Some(t) => r@ == seq![t],
            None => r@ == seq![ResourceType::Image, ResourceType::Asset],
        },
{
    let mut v: Vec<ResourceType> = Vec::new();
    match ty {
        Some(t) => {
            v.push(t);
            proof {
                assert(v@ =~= seq![t]);
            }
        },
        None => {
            v.push(ResourceType::Image);
            v.push(ResourceType::Asset);
            proof {
                assert(v@ =~= seq![ResourceType::Image, ResourceType::Asset]);
            }
        },
    }
    v
}

} // verus!
