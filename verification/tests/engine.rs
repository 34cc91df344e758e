//! End-to-end scenarios driving the fungible runtime against the stash.

use rgb_node::cache::Allocation;
use rgb_node::data::{OutPoint, OutpointReveal, StateData};
use rgb_node::entities::{enc_genesis_vec, read_genesis, enc_consignment_vec};
use rgb_node::fungible::{
    AcceptApi, Begun, ConsealCoins, Issue, Pending, Runtime, SealCoins, TransferApi,
    FungibleRequest,
};
use rgb_node::ids::Hash32;
use rgb_node::rpc::{Reply, Request, FailureReason};
use rgb_node::stash::Stash;
use rgb_node::validation::outpoint_hash_of;

fn h(n: u64) -> Hash32 {
    Hash32 { w0: n, w1: n + 1, w2: n + 2, w3: n + 3 }
}

fn op(tx: u64, vout: u32) -> OutPoint {
    OutPoint { txid: h(tx), vout }
}

fn minor_units(coins: f64, precision: u8) -> u64 {
    let mut scale: f64 = 1.0;
    let mut i = 0;
    while i < precision {
        scale *= 10.0;
        i += 1;
    }
    (coins * scale).round() as u64
}

/// Performs the stash round trip a `Begun` decision asks for.
fn run(rt: &mut Runtime, stash: &mut Stash, begun: Begun) -> Reply {
    match begun {
        Begun::Done(reply) => reply,
        Begun::Stash(req, pending) => {
            let reply = stash.stash_process(&req);
            rt.rpc_finish(pending, reply)
        },
    }
}

fn setup() -> (Runtime, Stash) {
    let mut rt = Runtime::init();
    let mut stash = Stash::new();
    let (req, pending) = rt.register_schema();
    let reply = stash.stash_process(&req);
    let out = rt.rpc_finish(pending, reply);
    assert!(matches!(out, Reply::Success));
    (rt, stash)
}

fn usdt_issue() -> Issue {
    Issue {
        ticker: b"USDT".to_vec(),
        name: b"Demo".to_vec(),
        description: Vec::new(),
        precision: 2,
        network: 1,
        allocation: vec![SealCoins {
            outpoint: op(100, 0),
            blinding: 7,
            coins: minor_units(100.00, 2),
        }],
        inflation: vec![],
        renomination: None,
        epoch: None,
    }
}

fn issue_usdt(rt: &mut Runtime, stash: &mut Stash) -> Hash32 {
    let begun = rt.rpc_process(FungibleRequest::Issue(usdt_issue()));
    let reply = run(rt, stash, begun);
    match reply {
        Reply::AssetEntry(asset) => {
            assert_eq!(asset.supply, 10000);
            asset.contract_id
        },
        other => panic!("expected asset reply, got {:?}", other),
    }
}

#[test]
fn issue_creates_asset_with_supply_in_minor_units() {
    let (mut rt, mut stash) = setup();
    let id = issue_usdt(&mut rt, &mut stash);
    assert!(rt.cacher.has_asset(&id));
    let asset = rt.cacher.asset(&id).unwrap();
    assert_eq!(asset.supply, 10000);
    assert_eq!(asset.ticker, b"USDT".to_vec());
    assert_eq!(asset.precision, 2);
}

#[test]
fn import_then_export_returns_genesis_byte_identical() {
    let (mut rt, mut stash) = setup();
    let issue = usdt_issue();
    let (genesis, _supply) = rgb_node::fungible::issue_genesis(&issue).unwrap();
    let original_bytes = enc_genesis_vec(&genesis);
    let gid = rgb_node::entities::contract_id_of(&genesis);

    let begun = rt.rpc_process(FungibleRequest::ImportAsset(genesis));
    let reply = run(&mut rt, &mut stash, begun);
    assert!(matches!(reply, Reply::Success));

    let begun = rt.rpc_process(FungibleRequest::ExportAsset(gid));
    let reply = run(&mut rt, &mut stash, begun);
    match reply {
        Reply::GenesisEntry(g) => {
            assert_eq!(enc_genesis_vec(&g), original_bytes);
        },
        other => panic!("expected genesis reply, got {:?}", other),
    }
}

/// Issues, transfers 70.00 to ourselves and 30.00 to a blinded recipient,
/// and lets the recipient accept the consignment; returns what the
/// recipient sees.
fn transfer_and_accept() -> (Runtime, Stash, Hash32, OutPoint) {
    let (mut rt, mut stash) = setup();
    let contract_id = issue_usdt(&mut rt, &mut stash);

    // The recipient blinds their outpoint.
    let recipient_outpoint = op(300, 0);
    let reveal = OutpointReveal {
        txid: recipient_outpoint.txid,
        vout: recipient_outpoint.vout,
        blinding: 99,
    };
    let oh_a = outpoint_hash_of(&reveal);

    let transfer = TransferApi {
        contract_id,
        inputs: vec![op(100, 0)],
        ours: vec![SealCoins { outpoint: op(200, 0), blinding: 11, coins: 7000 }],
        theirs: vec![ConsealCoins { seal_confidential: oh_a, blinding: 13, coins: 3000 }],
        psbt: b"anchor transaction template".to_vec(),
    };
    let begun = rt.rpc_process(FungibleRequest::Transfer(transfer));
    let reply = run(&mut rt, &mut stash, begun);
    let consignment = match reply {
        Reply::Transfer(c) => c,
        other => panic!("expected transfer reply, got {:?}", other),
    };

    // Recipient side: a fresh runtime and stash with the schema installed.
    let (mut rt2, mut stash2) = setup();
    let begun = rt2.rpc_process(FungibleRequest::Accept(AcceptApi {
        consignment,
        reveal_outpoints: vec![reveal],
    }));
    let reply = run(&mut rt2, &mut stash2, begun);
    assert!(matches!(reply, Reply::Success), "accept failed: {:?}", reply);
    (rt2, stash2, contract_id, recipient_outpoint)
}

#[test]
fn transfer_then_accept_records_recipient_allocation() {
    let (mut rt2, mut stash2, contract_id, recipient_outpoint) = transfer_and_accept();
    let begun = rt2.rpc_process(FungibleRequest::Assets(recipient_outpoint));
    let reply = run(&mut rt2, &mut stash2, begun);
    match reply {
        Reply::OutpointAssets(ids) => {
            assert_eq!(ids.len(), 1);
            assert_eq!(ids[0], contract_id);
        },
        other => panic!("expected outpoint assets, got {:?}", other),
    }
    let asset = rt2.cacher.asset(&contract_id).unwrap();
    let allocs: Vec<Allocation> = asset.allocations(&recipient_outpoint);
    assert_eq!(allocs.len(), 1);
    assert_eq!(allocs[0].amount, 3000);
}

#[test]
fn forget_empties_the_outpoint_and_only_it() {
    let (mut rt2, mut stash2, contract_id, recipient_outpoint) = transfer_and_accept();
    let begun = rt2.rpc_process(FungibleRequest::Forget(recipient_outpoint));
    let reply = run(&mut rt2, &mut stash2, begun);
    assert!(matches!(reply, Reply::Success), "forget failed: {:?}", reply);

    let begun = rt2.rpc_process(FungibleRequest::Assets(recipient_outpoint));
    match run(&mut rt2, &mut stash2, begun) {
        Reply::OutpointAssets(ids) => assert!(ids.is_empty()),
        other => panic!("expected outpoint assets, got {:?}", other),
    }
    // The asset itself stays known, only the allocation is gone.
    assert!(rt2.cacher.has_asset(&contract_id));
}

#[test]
fn forgetting_an_unknown_outpoint_replies_nothing() {
    let (mut rt, mut stash) = setup();
    issue_usdt(&mut rt, &mut stash);
    let begun = rt.rpc_process(FungibleRequest::Forget(op(999, 9)));
    let reply = run(&mut rt, &mut stash, begun);
    assert!(matches!(reply, Reply::Nothing));
}

#[test]
fn unexpected_reply_to_add_schema_is_recovered_as_failure() {
    let (mut rt, _stash) = setup();
    let (_req, pending) = rt.register_schema();
    let issue = usdt_issue();
    let (genesis, _supply) = rgb_node::fungible::issue_genesis(&issue).unwrap();
    // Inject a genesis reply where a success was expected.
    let out = rt.rpc_finish(pending, Reply::GenesisEntry(genesis));
    assert!(matches!(out, Reply::Failure(FailureReason::UnexpectedReply)));
}

#[test]
fn add_genesis_is_idempotent() {
    let (_rt, mut stash) = setup();
    let issue = usdt_issue();
    let (genesis, _supply) = rgb_node::fungible::issue_genesis(&issue).unwrap();
    let g2 = rgb_node::entities::copy_genesis(&genesis);
    let r1 = stash.stash_process(&Request::AddGenesis(genesis));
    assert!(matches!(r1, Reply::Success));
    let before = stash.geneses.len();
    let r2 = stash.stash_process(&Request::AddGenesis(g2));
    assert!(matches!(r2, Reply::Success));
    assert_eq!(stash.geneses.len(), before);
}

#[test]
fn merging_twice_changes_nothing_the_second_time() {
    let (mut rt, mut stash) = setup();
    let contract_id = issue_usdt(&mut rt, &mut stash);
    let reveal = OutpointReveal { txid: h(300), vout: 0, blinding: 99 };
    let oh_a = outpoint_hash_of(&reveal);
    let transfer = TransferApi {
        contract_id,
        inputs: vec![op(100, 0)],
        ours: vec![SealCoins { outpoint: op(200, 0), blinding: 11, coins: 7000 }],
        theirs: vec![ConsealCoins { seal_confidential: oh_a, blinding: 13, coins: 3000 }],
        psbt: b"anchor transaction template".to_vec(),
    };
    let begun = rt.rpc_process(FungibleRequest::Transfer(transfer));
    let consignment = match run(&mut rt, &mut stash, begun) {
        Reply::Transfer(c) => c,
        other => panic!("expected transfer reply, got {:?}", other),
    };
    let c2 = rgb_node::entities::copy_consignment(&consignment);
    let r1 = stash.merge(&consignment);
    assert!(matches!(r1, Reply::Success));
    let transitions_after_first = stash.transitions.len();
    let reverse_after_first = stash.reverse_index.len();
    let r2 = stash.merge(&c2);
    assert!(matches!(r2, Reply::Success));
    assert_eq!(stash.transitions.len(), transitions_after_first);
    assert_eq!(stash.reverse_index.len(), reverse_after_first);
}

#[test]
fn validation_is_deterministic() {
    let (mut rt, mut stash) = setup();
    let contract_id = issue_usdt(&mut rt, &mut stash);
    let reveal = OutpointReveal { txid: h(300), vout: 0, blinding: 99 };
    let oh_a = outpoint_hash_of(&reveal);
    let transfer = TransferApi {
        contract_id,
        inputs: vec![op(100, 0)],
        ours: vec![SealCoins { outpoint: op(200, 0), blinding: 11, coins: 7000 }],
        theirs: vec![ConsealCoins { seal_confidential: oh_a, blinding: 13, coins: 3000 }],
        psbt: b"anchor transaction template".to_vec(),
    };
    let begun = rt.rpc_process(FungibleRequest::Transfer(transfer));
    let consignment = match run(&mut rt, &mut stash, begun) {
        Reply::Transfer(c) => c,
        other => panic!("expected transfer reply, got {:?}", other),
    };
    let v1 = rgb_node::validation::validate(&consignment, &stash.schemata);
    let v2 = rgb_node::validation::validate(&consignment, &stash.schemata);
    assert!(v1.valid);
    assert_eq!(v1.valid, v2.valid);
    assert_eq!(v1.failures, v2.failures);
}

#[test]
fn tampered_consignment_is_invalid() {
    let (mut rt, mut stash) = setup();
    let contract_id = issue_usdt(&mut rt, &mut stash);
    let reveal = OutpointReveal { txid: h(300), vout: 0, blinding: 99 };
    let oh_a = outpoint_hash_of(&reveal);
    let transfer = TransferApi {
        contract_id,
        inputs: vec![op(100, 0)],
        ours: vec![SealCoins { outpoint: op(200, 0), blinding: 11, coins: 7000 }],
        theirs: vec![ConsealCoins { seal_confidential: oh_a, blinding: 13, coins: 3000 }],
        psbt: b"anchor transaction template".to_vec(),
    };
    let begun = rt.rpc_process(FungibleRequest::Transfer(transfer));
    let mut consignment = match run(&mut rt, &mut stash, begun) {
        Reply::Transfer(c) => c,
        other => panic!("expected transfer reply, got {:?}", other),
    };
    // Tamper with one amount inside the last transition.
    let last = consignment.state_transitions.len() - 1;
    match &mut consignment.state_transitions[last].1.assignments[0].state {
        StateData::Revealed { amount, .. } => *amount += 1,
        StateData::Confidential(_) => panic!("expected revealed state"),
    }
    let vs = rgb_node::validation::validate(&consignment, &stash.schemata);
    assert!(!vs.valid);
}

#[test]
fn empty_consignment_is_rejected_as_malformed() {
    let (mut rt, mut stash) = setup();
    let contract_id = issue_usdt(&mut rt, &mut stash);
    let genesis = match stash.read_genesis(&contract_id) {
        Reply::GenesisEntry(g) => g,
        other => panic!("expected genesis, got {:?}", other),
    };
    let empty = rgb_node::entities::Consignment {
        genesis,
        state_transitions: vec![],
        endpoints: vec![],
    };
    let vs = rgb_node::validation::validate(&empty, &stash.schemata);
    assert!(!vs.valid);
    assert!(vs
        .failures
        .contains(&rgb_node::validation::ValidationFailure::EmptyConsignment));
}

#[test]
fn forward_reference_is_rejected_like_a_cycle() {
    // A transition whose input references a node that only appears later in
    // the bundle breaks the ancestor order, which is what rules out cycles.
    let (mut rt, mut stash) = setup();
    let contract_id = issue_usdt(&mut rt, &mut stash);
    let reveal = OutpointReveal { txid: h(300), vout: 0, blinding: 99 };
    let oh_a = outpoint_hash_of(&reveal);
    let transfer = TransferApi {
        contract_id,
        inputs: vec![op(100, 0)],
        ours: vec![SealCoins { outpoint: op(200, 0), blinding: 11, coins: 7000 }],
        theirs: vec![ConsealCoins { seal_confidential: oh_a, blinding: 13, coins: 3000 }],
        psbt: b"anchor transaction template".to_vec(),
    };
    let begun = rt.rpc_process(FungibleRequest::Transfer(transfer));
    let mut consignment = match run(&mut rt, &mut stash, begun) {
        Reply::Transfer(c) => c,
        other => panic!("expected transfer reply, got {:?}", other),
    };
    // Point the first input at an id nothing in the bundle provides.
    consignment.state_transitions[0].1.inputs[0].prev_node = h(4242);
    let vs = rgb_node::validation::validate(&consignment, &stash.schemata);
    assert!(!vs.valid);
    assert!(vs
        .failures
        .contains(&rgb_node::validation::ValidationFailure::UnresolvedAncestor));
}

#[test]
fn consignment_codec_round_trips() {
    let (mut rt, mut stash) = setup();
    let contract_id = issue_usdt(&mut rt, &mut stash);
    let reveal = OutpointReveal { txid: h(300), vout: 0, blinding: 99 };
    let oh_a = outpoint_hash_of(&reveal);
    let transfer = TransferApi {
        contract_id,
        inputs: vec![op(100, 0)],
        ours: vec![SealCoins { outpoint: op(200, 0), blinding: 11, coins: 7000 }],
        theirs: vec![ConsealCoins { seal_confidential: oh_a, blinding: 13, coins: 3000 }],
        psbt: b"anchor transaction template".to_vec(),
    };
    let begun = rt.rpc_process(FungibleRequest::Transfer(transfer));
    let consignment = match run(&mut rt, &mut stash, begun) {
        Reply::Transfer(c) => c,
        other => panic!("expected transfer reply, got {:?}", other),
    };
    let bytes = enc_consignment_vec(&consignment);
    let (decoded, used) = rgb_node::entities::read_consignment(&bytes, 0).unwrap();
    assert_eq!(used, bytes.len());
    assert_eq!(enc_consignment_vec(&decoded), bytes);

    let gbytes = enc_genesis_vec(&consignment.genesis);
    let (gdec, gused) = read_genesis(&gbytes, 0).unwrap();
    assert_eq!(gused, gbytes.len());
    assert_eq!(enc_genesis_vec(&gdec), gbytes);
}

#[test]
fn content_ids_are_stable_and_content_sensitive() {
    let issue = usdt_issue();
    let (g1, _) = rgb_node::fungible::issue_genesis(&issue).unwrap();
    let (g2, _) = rgb_node::fungible::issue_genesis(&issue).unwrap();
    assert_eq!(
        rgb_node::entities::contract_id_of(&g1),
        rgb_node::entities::contract_id_of(&g2)
    );
    let mut issue2 = usdt_issue();
    issue2.ticker = b"OTHR".to_vec();
    let (g3, _) = rgb_node::fungible::issue_genesis(&issue2).unwrap();
    assert_ne!(
        rgb_node::entities::contract_id_of(&g1),
        rgb_node::entities::contract_id_of(&g3)
    );
}

#[test]
fn duplicate_inflation_outpoints_are_folded() {
    // Only a single secondary-issuance right may exist per outpoint, so two
    // entries naming one outpoint fold into one with the summed amount.
    let mut issue = usdt_issue();
    issue.inflation = vec![
        SealCoins { outpoint: op(150, 0), blinding: 1, coins: 10 },
        SealCoins { outpoint: op(150, 0), blinding: 2, coins: 20 },
        SealCoins { outpoint: op(151, 0), blinding: 3, coins: 5 },
    ];
    let (genesis, _supply) = rgb_node::fungible::issue_genesis(&issue).unwrap();
    let inflation_rights: Vec<_> = genesis
        .assignments
        .iter()
        .filter(|a| a.right_type == 2)
        .collect();
    assert_eq!(inflation_rights.len(), 2);
    match inflation_rights[0].state {
        StateData::Revealed { amount, .. } => assert_eq!(amount, 30),
        _ => panic!("expected revealed state"),
    }
    match inflation_rights[1].state {
        StateData::Revealed { amount, .. } => assert_eq!(amount, 5),
        _ => panic!("expected revealed state"),
    }
}

#[test]
fn stash_failure_to_add_genesis_passes_through() {
    let (mut rt, _stash) = setup();
    let begun = rt.rpc_process(FungibleRequest::ImportAsset(
        rgb_node::fungible::issue_genesis(&usdt_issue()).unwrap().0,
    ));
    match begun {
        Begun::Stash(_req, pending) => {
            // Inject the failure a stash answers AddGenesis with on a
            // genesis mismatch: it must surface unchanged, not as an
            // unexpected reply.
            let out = rt.rpc_finish(pending, Reply::Failure(FailureReason::GenesisMismatch));
            assert!(matches!(out, Reply::Failure(FailureReason::GenesisMismatch)));
            assert!(rt.cacher.assets.is_empty());
        },
        other => panic!("expected a stash request, got {:?}", other),
    }
}

#[test]
fn distinct_inflation_outpoints_are_accepted() {
    let (mut rt, mut stash) = setup();
    let mut issue = usdt_issue();
    issue.inflation = vec![
        SealCoins { outpoint: op(150, 0), blinding: 1, coins: 10 },
        SealCoins { outpoint: op(151, 0), blinding: 2, coins: 20 },
    ];
    let begun = rt.rpc_process(FungibleRequest::Issue(issue));
    let reply = run(&mut rt, &mut stash, begun);
    assert!(matches!(reply, Reply::AssetEntry(_)), "got {:?}", reply);
}

#[test]
fn sync_exports_the_strict_encoded_cache() {
    let (mut rt, mut stash) = setup();
    issue_usdt(&mut rt, &mut stash);
    let begun = rt.rpc_process(FungibleRequest::Sync(rgb_node::DataFormat::StrictEncode));
    match run(&mut rt, &mut stash, begun) {
        Reply::SyncData(fmt, bytes) => {
            assert_eq!(fmt, rgb_node::DataFormat::StrictEncode);
            assert!(!bytes.is_empty());
            assert_eq!(bytes, rgb_node::cache::encode_cache(&rt.cacher));
        },
        other => panic!("expected sync data, got {:?}", other),
    }
}

#[test]
fn repeated_accept_leaves_the_cache_unchanged() {
    let (mut rt, mut stash) = setup();
    let contract_id = issue_usdt(&mut rt, &mut stash);
    let reveal = OutpointReveal { txid: h(300), vout: 0, blinding: 99 };
    let oh_a = outpoint_hash_of(&reveal);
    let transfer = TransferApi {
        contract_id,
        inputs: vec![op(100, 0)],
        ours: vec![SealCoins { outpoint: op(200, 0), blinding: 11, coins: 7000 }],
        theirs: vec![ConsealCoins { seal_confidential: oh_a, blinding: 13, coins: 3000 }],
        psbt: b"anchor transaction template".to_vec(),
    };
    let begun = rt.rpc_process(FungibleRequest::Transfer(transfer));
    let consignment = match run(&mut rt, &mut stash, begun) {
        Reply::Transfer(c) => c,
        other => panic!("expected transfer reply, got {:?}", other),
    };
    let (mut rt2, mut stash2) = setup();
    let c2 = rgb_node::entities::copy_consignment(&consignment);
    let begun = rt2.rpc_process(FungibleRequest::Accept(AcceptApi {
        consignment,
        reveal_outpoints: vec![reveal],
    }));
    assert!(matches!(run(&mut rt2, &mut stash2, begun), Reply::Success));
    let snapshot = rgb_node::cache::encode_cache(&rt2.cacher);
    let begun = rt2.rpc_process(FungibleRequest::Accept(AcceptApi {
        consignment: c2,
        reveal_outpoints: vec![reveal],
    }));
    assert!(matches!(run(&mut rt2, &mut stash2, begun), Reply::Success));
    assert_eq!(rgb_node::cache::encode_cache(&rt2.cacher), snapshot);
}

#[test]
fn transfer_of_unknown_contract_is_refused() {
    let (rt, _stash) = setup();
    let transfer = TransferApi {
        contract_id: h(7777),
        inputs: vec![op(100, 0)],
        ours: vec![],
        theirs: vec![],
        psbt: vec![],
    };
    match rt.rpc_transfer(&transfer) {
        Begun::Done(Reply::Failure(f)) => assert_eq!(f, FailureReason::UnknownAsset),
        other => panic!("expected a refusal, got {:?}", other),
    }
}

#[test]
fn unbalanced_transfer_is_refused() {
    let (mut rt, mut stash) = setup();
    let contract_id = issue_usdt(&mut rt, &mut stash);
    let transfer = TransferApi {
        contract_id,
        inputs: vec![op(100, 0)],
        ours: vec![SealCoins { outpoint: op(200, 0), blinding: 11, coins: 5000 }],
        theirs: vec![],
        psbt: vec![],
    };
    match rt.rpc_transfer(&transfer) {
        Begun::Done(Reply::Failure(f)) => assert_eq!(f, FailureReason::InsufficientFunds),
        other => panic!("expected a refusal, got {:?}", other),
    }
}

#[test]
fn reveal_matching_unrevealed_state_is_a_broken_consignment() {
    let (mut rt, mut stash) = setup();
    issue_usdt(&mut rt, &mut stash);
    // A bundle whose matched assignment carries a confidential state: the
    // defensive error fires instead of a partial cache update.
    let reveal = OutpointReveal { txid: h(400), vout: 1, blinding: 5 };
    let oh = outpoint_hash_of(&reveal);
    let (genesis, _supply) = rgb_node::fungible::issue_genesis(&usdt_issue()).unwrap();
    let transition = rgb_node::entities::Transition {
        transition_type: 1,
        inputs: vec![],
        assignments: vec![rgb_node::data::Assignment {
            right_type: 1,
            seal: rgb_node::data::Seal::Confidential(oh),
            state: StateData::Confidential(h(123)),
        }],
    };
    let anchor = rgb_node::data::Anchor { txid: h(9), output_no: 0, commitment: h(10) };
    let consignment = rgb_node::entities::Consignment {
        genesis,
        state_transitions: vec![(anchor, transition)],
        endpoints: vec![],
    };
    let accept = AcceptApi { consignment, reveal_outpoints: vec![reveal] };
    let before = rgb_node::cache::encode_cache(&rt.cacher);
    match rt.rpc_process(FungibleRequest::Accept(accept)) {
        Begun::Stash(_req, pending) => {
            // Inject the merge success to reach the cache update.
            let out = rt.rpc_finish(pending, Reply::Success);
            assert!(matches!(out, Reply::Failure(FailureReason::BrokenConsignment)));
            assert_eq!(rgb_node::cache::encode_cache(&rt.cacher), before);
        },
        other => panic!("expected a stash request, got {:?}", other),
    }
}

#[test]
fn repeated_import_leaves_the_cache_unchanged() {
    let (mut rt, mut stash) = setup();
    let (genesis, _supply) = rgb_node::fungible::issue_genesis(&usdt_issue()).unwrap();
    let g2 = rgb_node::entities::copy_genesis(&genesis);
    let begun = rt.rpc_process(FungibleRequest::ImportAsset(genesis));
    assert!(matches!(run(&mut rt, &mut stash, begun), Reply::Success));
    let snapshot = rgb_node::cache::encode_cache(&rt.cacher);
    let begun = rt.rpc_process(FungibleRequest::ImportAsset(g2));
    assert!(matches!(run(&mut rt, &mut stash, begun), Reply::Success));
    assert_eq!(rgb_node::cache::encode_cache(&rt.cacher), snapshot);
}
