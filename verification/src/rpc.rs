//! Request and reply types of the two services, the wire tag space, and the
//! length-prefixed message framing.
//!
//! A message on the wire is a 16-bit type tag followed by the strict-encoded
//! payload; a frame is a varint length prefix followed by the message bytes.
//! The tag space is part of the wire contract and is never reassigned.

use vstd::prelude::*;
use crate::codec::{read_byte_string, spec_dec_bytes, spec_enc_bytes, write_bytes};
use crate::ids::Hash32;
use crate::data::{OutPoint, OutpointReveal};
use crate::entities::{Consignment, Genesis, Schema, Transition};
use crate::data::Anchor;
use crate::cache::{Allocation, Asset};
use crate::validation::ValidationStatus;
use crate::DataFormat;

verus! {

pub const TAG_ADD_SCHEMA: u16 = 0x0101;

pub const TAG_LIST_SCHEMATA: u16 = 0x0103;

pub const TAG_READ_SCHEMA: u16 = 0x0105;

pub const TAG_ADD_GENESIS: u16 = 0x0201;

pub const TAG_LIST_GENESES: u16 = 0x0203;

pub const TAG_READ_GENESIS: u16 = 0x0205;

pub const TAG_READ_TRANSITIONS: u16 = 0x0301;

pub const TAG_CONSIGN: u16 = 0x0401;

pub const TAG_VALIDATE: u16 = 0x0403;

pub const TAG_MERGE: u16 = 0x0405;

pub const TAG_FORGET: u16 = 0x0407;

/// A request to assemble a consignment for a new transition.
#[derive(Clone, Debug)]
pub struct ConsignRequest {
    pub contract_id: Hash32,
    pub inputs: Vec<OutPoint>,
    pub transition: Transition,
    pub other_transition_ids: Vec<(Hash32, Hash32)>,
    pub outpoints: Vec<Hash32>,
    pub psbt: Vec<u8>,
}

/// A request to merge a consignment into the stash, revealing the listed
/// outpoints.
#[derive(Clone, Debug)]
pub struct MergeRequest {
    pub consignment: Consignment,
    pub reveal_outpoints: Vec<OutpointReveal>,
}

/// Requests understood by the stash service.
#[derive(Debug)]
pub enum Request {
    AddSchema(Schema),
    ListSchemata,
    ReadSchema(Hash32),
    AddGenesis(Genesis),
    ListGeneses,
    ReadGenesis(Hash32),
    ReadTransitions(Vec<Hash32>),
    Consign(ConsignRequest),
    Validate(Consignment),
    Merge(MergeRequest),
    Forget(Vec<(Hash32, u16)>),
}

impl Request {
    /// The wire tag of this request.
    pub fn tag(&self) -> (r: u16)
        ensures
            r == match self {
                Request::AddSchema(_) => TAG_ADD_SCHEMA,
                Request::ListSchemata => TAG_LIST_SCHEMATA,
                Request::ReadSchema(_) => TAG_READ_SCHEMA,
                Request::AddGenesis(_) => TAG_ADD_GENESIS,
                Request::ListGeneses => TAG_LIST_GENESES,
                Request::ReadGenesis(_) => TAG_READ_GENESIS,
                Request::ReadTransitions(_) => TAG_READ_TRANSITIONS,
                Request::Consign(_) => TAG_CONSIGN,
                Request::Validate(_) => TAG_VALIDATE,
                Request::Merge(_) => TAG_MERGE,
                Request::Forget(_) => TAG_FORGET,
            },
    {
        match self {
            Request::AddSchema(_) => TAG_ADD_SCHEMA,
            Request::ListSchemata => TAG_LIST_SCHEMATA,
            Request::ReadSchema(_) => TAG_READ_SCHEMA,
            Request::AddGenesis(_) => TAG_ADD_GENESIS,
            Request::ListGeneses => TAG_LIST_GENESES,
            Request::ReadGenesis(_) => TAG_READ_GENESIS,
            Request::ReadTransitions(_) => TAG_READ_TRANSITIONS,
            Request::Consign(_) => TAG_CONSIGN,
            Request::Validate(_) => TAG_VALIDATE,
            Request::Merge(_) => TAG_MERGE,
            Request::Forget(_) => TAG_FORGET,
        }
    }
}

/// Structured reasons a request fails with.
#[derive(Clone, Copy, PartialEq, Eq, Structural, Debug)]
pub enum FailureReason {
    /// The reply shape does not match the request that was sent.
    UnexpectedReply,
    UnknownSchema,
    UnknownContract,
    UnknownNode,
    UnknownAsset,
    /// A different schema is already installed under the same id.
    SchemaMismatch,
    /// A different genesis is already stored under the same contract id.
    GenesisMismatch,
    /// A different transition is already stored under the same node id.
    NodeMismatch,
    InvalidConsignment,
    /// The consignment structure is broken: a revealed outpoint matches an
    /// assignment whose state is not revealed.
    BrokenConsignment,
    /// A transition still has descendants in the stash.
    DescendantsPresent,
    InsufficientFunds,
    AmountOverflow,
    MalformedArgument,
    Stash,
}

/// Replies of both services.  Each reply shape answers particular requests;
/// any other pairing is a protocol error recovered as a failure.
#[derive(Debug)]
pub enum Reply {
    Success,
    Failure(FailureReason),
    Nothing,
    SchemaIds(Vec<Hash32>),
    SchemaEntry(Schema),
    ContractIds(Vec<Hash32>),
    GenesisEntry(Genesis),
    Transitions(Vec<(Transition, Anchor)>),
    Transfer(Consignment),
    Validation(ValidationStatus),
    AssetEntry(Asset),
    OutpointAssets(Vec<Hash32>),
    AssetAllocations(Vec<Allocation>),
    SyncData(DataFormat, Vec<u8>),
}

/// Frames a message for the transport: varint length prefix, then the
/// message bytes.  Whole-message delivery is the transport's duty; the
/// framing makes message boundaries explicit in a byte stream.
pub fn frame_message(msg: &Vec<u8>) -> (r: Vec<u8>)
    ensures
        r@ == spec_enc_bytes(msg@),
{
    let mut out: Vec<u8> = Vec::new();
    write_bytes(&mut out, msg);
    proof {
        assert(out@ =~= spec_enc_bytes(msg@));
    }
    out
}

/// Reads one frame from a byte stream at `pos`, returning the message and
/// the position after it.  Inverse of [`frame_message`] by the codec's
/// round-trip laws.
pub fn unframe_message(b: &Vec<u8>, pos: usize) -> (r: Option<(Vec<u8>, usize)>)
    requires
        pos <= b@.len(),
    ensures
        match r {
            Some((msg, newpos)) => {
                &&& pos < newpos <= b@.len()
                &&& spec_dec_bytes(b@.skip(pos as int)) == Some((msg@, newpos - pos))
            },
            None => spec_dec_bytes(b@.skip(pos as int)) is None,
        },
{
    read_byte_string(b, pos)
}

} // verus!
