//! What the device tells the client.
use vstd::prelude::*;
use crate::node::{Payload, WingNodeData, WingNodeDef, WingNodeDefView};

verus! {

/// One event read from the device.
#[derive(Debug)]
pub enum WingResponse {
    /// The device has answered a request in full.
    RequestEnd,
    /// The description of a node.
    NodeDef(WingNodeDef),
    /// The id of a node and the value it holds.
    NodeData(i32, WingNodeData),
}

/// A `WingResponse` as plain values.
pub enum WingResponseView {
    RequestEnd,
    NodeDef(WingNodeDefView),
    NodeData(i32, Payload),
}

impl View for WingResponse {
    type V = WingResponseView;

    open spec fn view(&self) -> WingResponseView {
        match self {
            WingResponse::RequestEnd => WingResponseView::RequestEnd,
            WingResponse::NodeDef(def) => WingResponseView::NodeDef(def@),
            WingResponse::NodeData(id, data) => WingResponseView::NodeData(*id, data@),
        }
    }
}

/// Which of the three kinds an event is of.
#[derive(Copy, Clone, PartialEq, Eq, Debug, Structural)]
pub enum ResponseType {
    End,
    NodeDefinition,
    NodeData,
}

impl ResponseType {
    /// The number that stands for a kind where kinds are told by number.
    pub open spec fn code_of(self) -> int {
        match self {
            ResponseType::End => 0,
            ResponseType::NodeDefinition => 1,
            ResponseType::NodeData => 2,
        }
    }

    /// The number that stands for this kind.
    pub fn code(self) -> (c: u8)
        ensures
            c == self.code_of(),
    {
        match self {
            ResponseType::End => 0,
            ResponseType::NodeDefinition => 1,
            ResponseType::NodeData => 2,
        }
    }
}

impl WingResponse {
    /// The kind of this event.
    pub fn response_type(&self) -> (t: ResponseType)
        ensures
            t == (match self@ {
                WingResponseView::RequestEnd => ResponseType::End,
                WingResponseView::NodeDef(_) => ResponseType::NodeDefinition,
                WingResponseView::NodeData(_, _) => ResponseType::NodeData,
            }),
    {
        match self {
            WingResponse::RequestEnd => ResponseType::End,
            WingResponse::NodeDef(_) => ResponseType::NodeDefinition,
            WingResponse::NodeData(_, _) => ResponseType::NodeData,
        }
    }
}

} // verus!
