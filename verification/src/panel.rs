//! The state behind the composition surface: what is being typed, to
//! whom, and how the conversation is viewed.

use vstd::prelude::*;

use crate::peer::Peer;

verus! {

/// How the conversation is rendered.
#[derive(Debug, Clone, Copy, PartialEq, Eq, Structural)]
pub enum RoomView {
    Table,
    Graph,
    List,
}

impl Default for RoomView {
    fn default() -> (r: RoomView)
        ensures
            r is Graph,
    {
        RoomView::Graph
    }
}

/// The composition state: the draft text, the chosen receiver, the
/// last send status, and whether a delivery prediction is requested.
pub struct MessagePanel {
    pub message_view: RoomView,
    pub create_modal_open: bool,
    pub message_to_send: String,
    pub forging_receiver: Peer,
    pub send_status: Option<String>,
    pub pbat_enabled: bool,
}

impl MessagePanel {
    pub fn new(forging_receiver: Peer) -> (r: MessagePanel)
        ensures
            r.message_view is Graph,
            !r.create_modal_open,
            r.message_to_send@.len() == 0,
            r.forging_receiver == forging_receiver,
            r.send_status is None,
            !r.pbat_enabled,
    {
        MessagePanel {
            message_view: RoomView::Graph,
            create_modal_open: false,
            message_to_send: String::new(),
            forging_receiver,
            send_status: None,
            pbat_enabled: false,
        }
    }
}

} // verus!
