use vstd::prelude::*;
use crate::block::{Block, BlockView};
use crate::qc::{Qc, QcView};
use crate::transaction::{Transaction, TxView};

verus! {

/// Everything that travels between nodes of the simulated network.
#[derive(Debug)]
pub enum Message {
    Transaction { id: u32, tx: Transaction },
    BlockProposal { id: u32, block: Block },
    NewView { id: u32, height: u32, high_qc: Qc, from: u32 },
    Vote { id: u32, block_id: u32, block_height: u32, vote_by: u32 },
    RequestBlock { id: u32, block_id: u32, request_by: u32 },
    RequestBlockResponse { id: u32, block: Block },
}

/// Mathematical model of a message.
#[verifier::ext_equal]
pub ghost enum MessageView {
    Transaction { id: u32, tx: TxView },
    BlockProposal { id: u32, block: BlockView },
    NewView { id: u32, height: u32, high_qc: QcView, from: u32 },
    Vote { id: u32, block_id: u32, block_height: u32, vote_by: u32 },
    RequestBlock { id: u32, block_id: u32, request_by: u32 },
    RequestBlockResponse { id: u32, block: BlockView },
}

impl View for Message {
    type V = MessageView;

    open spec fn view(&self) -> MessageView {
        match self {
            Message::Transaction { id, tx } => MessageView::Transaction { id: *id, tx: tx@ },
            Message::BlockProposal { id, block } => MessageView::BlockProposal {
                id: *id,
                block: block@,
            },
            Message::NewView { id, height, high_qc, from } => MessageView::NewView {
                id: *id,
                height: *height,
                high_qc: high_qc@,
                from: *from,
            },
            Message::Vote { id, block_id, block_height, vote_by } => MessageView::Vote {
                id: *id,
                block_id: *block_id,
                block_height: *block_height,
                vote_by: *vote_by,
            },
            Message::RequestBlock { id, block_id, request_by } => MessageView::RequestBlock {
                id: *id,
                block_id: *block_id,
                request_by: *request_by,
            },
            Message::RequestBlockResponse { id, block } => MessageView::RequestBlockResponse {
                id: *id,
                block: block@,
            },
        }
    }
}

/// The id a message carries, on the model side.
pub open spec fn message_view_id(m: MessageView) -> u32 {
    match m {
        MessageView::Transaction { id, .. } => id,
        MessageView::BlockProposal { id, .. } => id,
        MessageView::NewView { id, .. } => id,
        MessageView::Vote { id, .. } => id,
        MessageView::RequestBlock { id, .. } => id,
        MessageView::RequestBlockResponse { id, .. } => id,
    }
}

impl Message {
    pub fn id(&self) -> (r: u32)
        ensures
            r == message_view_id(self@),
    {
        match self {
            Message::Transaction { id, .. } => *id,
            Message::BlockProposal { id, .. } => *id,
            Message::Vote { id, .. } => *id,
            Message::RequestBlock { id, .. } => *id,
            Message::RequestBlockResponse { id, .. } => *id,
            Message::NewView { id, .. } => *id,
        }
    }
}

impl Clone for Message {
    fn clone(&self) -> (res: Self)
        ensures
            res@ == self@,
    {
        match self {
            Message::Transaction { id, tx } => Message::Transaction { id: *id, tx: tx.clone() },
            Message::BlockProposal { id, block } => Message::BlockProposal {
                id: *id,
                block: block.clone(),
            },
            Message::NewView { id, height, high_qc, from } => Message::NewView {
                id: *id,
                height: *height,
                high_qc: high_qc.clone(),
                from: *from,
            },
            Message::Vote { id, block_id, block_height, vote_by } => Message::Vote {
                id: *id,
                block_id: *block_id,
                block_height: *block_height,
                vote_by: *vote_by,
            },
            Message::RequestBlock { id, block_id, request_by } => Message::RequestBlock {
                id: *id,
                block_id: *block_id,
                request_by: *request_by,
            },
            Message::RequestBlockResponse { id, block } => Message::RequestBlockResponse {
                id: *id,
                block: block.clone(),
            },
        }
    }
}

} // verus!
