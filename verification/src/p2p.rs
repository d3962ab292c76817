//! The synchronisation protocol: the message types carried on the two
//! gossip topics, the peer registry fed by discovery events, and the
//! event handlers that drive the chain from local input, timers and
//! inbound network messages.
//!
//! The handlers are pure decisions: they mutate the node state and
//! return the actions — payloads to publish, lines to print, mining
//! work to start, things to log — for the embedding event loop to
//! perform. The proof-of-work search is never run inside a handler: a
//! create command yields a mining action for a background worker, and
//! the worker's result comes back as its own event, so the search
//! cannot stall message processing. Peer identity and topic choice are
//! explicit values threaded through the state, not ambient globals.

use vstd::prelude::*;

use crate::blocks::{
    block_valid, chain_valid, fork_choice, is_genesis, Block, BlockView, Chain, ForkChoice,
    LedgerError,
};
use crate::codec::{
    parse_block, parse_request, parse_response, serialize_block, serialize_request,
    serialize_blocks_pretty, serialize_response, spec_block_text, spec_request_text,
    spec_response_text, wire_block, wire_request, wire_response, pretty_blocks,
};
use crate::text::{str_eq, str_starts_with};

verus! {

/// A full-chain transfer, addressed to one peer.
#[derive(Debug)]
pub struct ChainResponse {
    pub blocks: Vec<Block>,
    pub receiver: String,
}

/// The mathematical value of a [`ChainResponse`].
pub struct ChainResponseView {
    pub blocks: Seq<BlockView>,
    pub receiver: Seq<char>,
}

impl View for ChainResponse {
    type V = ChainResponseView;

    open spec fn view(&self) -> ChainResponseView {
        ChainResponseView { blocks: self.blocks.deep_view(), receiver: self.receiver@ }
    }
}

/// A request that the peer named by `from_peer_id` send its full local
/// chain.
#[derive(Debug)]
pub struct LocalChainRequest {
    pub from_peer_id: String,
}

/// The mathematical value of a [`LocalChainRequest`].
pub struct LocalChainRequestView {
    pub from_peer_id: Seq<char>,
}

impl View for LocalChainRequest {
    type V = LocalChainRequestView;

    open spec fn view(&self) -> LocalChainRequestView {
        LocalChainRequestView { from_peer_id: self.from_peer_id@ }
    }
}

/// An inbound payload, classified.
#[derive(Debug)]
pub enum SyncMessage {
    /// A full chain addressed to some peer.
    Response(ChainResponse),
    /// A request for the full local chain.
    Request(LocalChainRequest),
    /// A single freshly mined block.
    NewBlock(Block),
}

/// Classifies an inbound payload by attempting the three schemas in
/// fixed order — chain response, chain request, bare block — taking the
/// first that parses; `None` when none does.
pub fn classify(s: &str) -> (r: Option<SyncMessage>)
    ensures
        spec_response_text(s@) matches Some(v) ==> r matches Some(SyncMessage::Response(resp))
            && resp@ == v,
        spec_response_text(s@) is None ==> (spec_request_text(s@) matches Some(v) ==> (r
            matches Some(SyncMessage::Request(req)) && req@ == v)),
        spec_response_text(s@) is None && spec_request_text(s@) is None ==> (spec_block_text(s@)
            matches Some(v) ==> (r matches Some(SyncMessage::NewBlock(b)) && b@ == v)),
        spec_response_text(s@) is None && spec_request_text(s@) is None && spec_block_text(s@)
            is None ==> r is None,
{
    match parse_response(s) {
        Some(resp) => {
            return Some(SyncMessage::Response(resp));
        },
        None => {},
    }
    match parse_request(s) {
        Some(req) => {
            return Some(SyncMessage::Request(req));
        },
        None => {},
    }
    match parse_block(s) {
        Some(b) => {
            return Some(SyncMessage::NewBlock(b));
        },
        None => {},
    }
    None
}

/// Whether a peer identity occurs in a list of peers.
pub open spec fn has_peer(peers: Seq<Seq<char>>, p: Seq<char>) -> bool {
    exists|i: int| 0 <= i < peers.len() && peers[i] == p
}

/// The set of currently known peers. It is fed from discovery events
/// only — joined adds, left removes — and never informs fork choice.
#[derive(Debug)]
pub struct PeerRegistry {
    pub peers: Vec<String>,
}

impl PeerRegistry {
    /// An empty registry.
    pub fn new() -> (r: PeerRegistry)
        ensures
            r.peers@.len() == 0,
    {
        PeerRegistry { peers: Vec::new() }
    }

    /// Whether this peer is known.
    pub fn contains(&self, peer: &str) -> (r: bool)
        ensures
            r == has_peer(self.peers.deep_view(), peer@),
    {
        let n = self.peers.len();
        let mut i: usize = 0;
        while i < n
            invariant
                n == self.peers@.len(),
                i <= n,
                forall|j: int| 0 <= j < i ==> self.peers.deep_view()[j] != peer@,
            decreases n - i,
        {
            if str_eq(self.peers[i].as_str(), peer) {
                proof {
                    assert(self.peers.deep_view()[i as int] == peer@);
                }
                return true;
            }
            proof {
                assert(self.peers.deep_view()[i as int] == self.peers@[i as int]@);
            }
            i = i + 1;
        }
        false
    }

    /// Records a discovered peer; already-known peers are kept once.
    pub fn add(&mut self, peer: String)
        ensures
            has_peer(old(self).peers.deep_view(), peer@) ==> final(self).peers@ == old(
                self,
            ).peers@,
            !has_peer(old(self).peers.deep_view(), peer@) ==> final(self).peers@ == old(
                self,
            ).peers@.push(peer),
    {
        if !self.contains(peer.as_str()) {
            self.peers.push(peer);
        }
    }

    /// Forgets an expired peer wherever it occurs.
    pub fn remove(&mut self, peer: &str)
        ensures
            forall|p: Seq<char>|
                #[trigger] has_peer(final(self).peers.deep_view(), p) == (has_peer(
                    old(self).peers.deep_view(),
                    p,
                ) && p != peer@),
    {
        let n = self.peers.len();
        let mut out: Vec<String> = Vec::new();
        let mut i: usize = 0;
        while i < n
            invariant
                n == self.peers@.len(),
                i <= n,
                forall|k: int|
                    0 <= k < out.deep_view().len() ==> #[trigger] out.deep_view()[k] != peer@
                        && has_peer(self.peers.deep_view().take(i as int), out.deep_view()[k]),
                forall|j: int|
                    0 <= j < i && self.peers.deep_view()[j] != peer@ ==> has_peer(
                        out.deep_view(),
                        #[trigger] self.peers.deep_view()[j],
                    ),
            decreases n - i,
        {
            let keep = !str_eq(self.peers[i].as_str(), peer);
            proof {
                assert(self.peers.deep_view()[i as int] == self.peers@[i as int]@);
            }
            if keep {
                let ghost old_out = out.deep_view();
                out.push(self.peers[i].clone());
                proof {
                    assert(out.deep_view() =~= old_out.push(self.peers@[i as int]@));
                    assert forall|k: int| 0 <= k < out.deep_view().len() implies #[trigger] out
                        .deep_view()[k] != peer@ && has_peer(
                        self.peers.deep_view().take(i + 1 as int),
                        out.deep_view()[k],
                    ) by {
                        if k < old_out.len() {
                            assert(out.deep_view()[k] == old_out[k]);
                            let m = choose|m: int|
                                0 <= m < i && self.peers.deep_view().take(i as int)[m] == old_out[k];
                            assert(self.peers.deep_view().take(i + 1 as int)[m] == old_out[k]);
                        } else {
                            assert(out.deep_view()[k] == self.peers.deep_view()[i as int]);
                            assert(self.peers.deep_view().take(i + 1 as int)[i as int]
                                == self.peers.deep_view()[i as int]);
                        }
                    }
                    assert forall|j: int|
                        0 <= j < i + 1 && self.peers.deep_view()[j] != peer@ implies has_peer(
                        out.deep_view(),
                        #[trigger] self.peers.deep_view()[j],
                    ) by {
                        if j < i {
                            let m = choose|m: int|
                                0 <= m < old_out.len() && old_out[m] == self.peers.deep_view()[j];
                            assert(out.deep_view()[m] == self.peers.deep_view()[j]);
                        } else {
                            assert(out.deep_view()[old_out.len() as int]
                                == self.peers.deep_view()[i as int]);
                        }
                    }
                }
            } else {
                proof {
                    assert forall|k: int| 0 <= k < out.deep_view().len() implies #[trigger] out
                        .deep_view()[k] != peer@ && has_peer(
                        self.peers.deep_view().take(i + 1 as int),
                        out.deep_view()[k],
                    ) by {
                        let m = choose|m: int|
                            0 <= m < i && self.peers.deep_view().take(i as int)[m] == out.deep_view()[k];
                        assert(self.peers.deep_view().take(i + 1 as int)[m] == out.deep_view()[k]);
                    }
                }
            }
            i = i + 1;
        }
        proof {
            assert(self.peers.deep_view().take(n as int) =~= self.peers.deep_view());
        }
        self.peers = out;
    }

    /// How many peers are known.
    pub fn len(&self) -> (r: usize)
        ensures
            r == self.peers@.len(),
    {
        self.peers.len()
    }

    /// One known peer, chosen arbitrarily (the most recently added), to
    /// address a bootstrap request to; `None` when no peer is known.
    pub fn pick(&self) -> (r: Option<String>)
        ensures
            r is None <==> self.peers@.len() == 0,
            r matches Some(p) ==> self.peers@.len() >= 1 && p@ == self.peers.deep_view().last(),
    {
        if self.peers.len() == 0 {
            None
        } else {
            let p = self.peers[self.peers.len() - 1].clone();
            proof {
                assert(self.peers.deep_view().last() == self.peers@[self.peers@.len() - 1]@);
            }
            Some(p)
        }
    }

    /// A copy of the known peers, for display.
    pub fn list(&self) -> (r: Vec<String>)
        ensures
            r.deep_view() == self.peers.deep_view(),
    {
        let n = self.peers.len();
        let mut out: Vec<String> = Vec::new();
        let mut i: usize = 0;
        while i < n
            invariant
                n == self.peers@.len(),
                i <= n,
                out.deep_view() =~= self.peers.deep_view().take(i as int),
            decreases n - i,
        {
            let ghost old_out = out.deep_view();
            out.push(self.peers[i].clone());
            proof {
                assert(out.deep_view() =~= old_out.push(self.peers@[i as int]@));
                assert(self.peers.deep_view().take(i + 1 as int) =~= self.peers.deep_view().take(
                    i as int,
                ).push(self.peers.deep_view()[i as int]));
            }
            i = i + 1;
        }
        proof {
            assert(self.peers.deep_view().take(n as int) =~= self.peers.deep_view());
        }
        out
    }
}

/// One event for the node's select loop, as plain data.
#[derive(Debug)]
pub enum EventType {
    /// The one-shot bootstrap timer fired.
    Init,
    /// A line of local input.
    Input(String),
    /// An internally queued chain response became ready to send.
    Response(ChainResponse),
    /// A payload arrived on a gossip topic, with its sender.
    Message { text: String, source: String },
    /// A background mining task finished with this block.
    MinedBlock(Block),
    /// Peer discovery reported a new peer.
    PeerDiscovered(String),
    /// Peer discovery reported a peer gone.
    PeerExpired(String),
}

/// What the embedding loop must do after an event is handled.
#[derive(Debug)]
pub enum Action {
    /// Publish this payload on the chains topic.
    PublishChains(String),
    /// Publish this payload on the blocks topic.
    PublishBlocks(String),
    /// Queue this response for later sending on the chains topic.
    QueueResponse(ChainResponse),
    /// Run the proof-of-work search over these fields on a worker; the
    /// mined block comes back as a mined-block event.
    MineBlock { id: u64, payload: String, previous_hash: String },
    /// Display the known peers.
    PrintPeers(Vec<String>),
    /// Display the local chain, serialized.
    PrintChain(String),
    /// Log an unrecognized command.
    LogUnknownCommand,
    /// Log a rejected block.
    LogBlockRejected,
    /// Log an unparseable payload: its text (best-effort) and sender.
    LogUnparseable(String, String),
}

/// A node's whole state: its identity, its chain, its known peers.
#[derive(Debug)]
pub struct NodeState {
    pub peer_id: String,
    pub chain: Chain,
    pub peers: PeerRegistry,
}

/// The actions of a handler result, by value.
pub open spec fn acts_view(r: Result<Vec<Action>, LedgerError>) -> Result<Seq<Action>, LedgerError> {
    match r {
        Ok(v) => Ok(v@),
        Err(e) => Err(e),
    }
}

/// The two states hold the same values: identity, chain and peers.
pub open spec fn same_node(pre: NodeState, post: NodeState) -> bool {
    &&& post.peer_id@ == pre.peer_id@
    &&& post.chain.blocks@ == pre.chain.blocks@
    &&& post.peers.peers@ == pre.peers.peers@
}

/// What handling an inbound payload does, as a relation between the
/// state before, the state after, and the outcome.
pub open spec fn message_transition(
    pre: NodeState,
    post: NodeState,
    text: Seq<char>,
    source: Seq<char>,
    r: Result<Seq<Action>, LedgerError>,
) -> bool {
    let pre_chain = pre.chain.blocks.deep_view();
    match spec_response_text(text) {
        Some(v) => if v.receiver == pre.peer_id@ {
            &&& (fork_choice(pre_chain, v.blocks) == ForkChoice::Incomparable ==> r == Err::<
                Seq<Action>,
                LedgerError,
            >(LedgerError::BothChainsInvalid) && same_node(pre, post))
            &&& (fork_choice(pre_chain, v.blocks) == ForkChoice::RemoteWins ==> r == Ok::<
                Seq<Action>,
                LedgerError,
            >(Seq::empty()) && post.chain.blocks.deep_view() == v.blocks && post.peer_id@
                == pre.peer_id@ && post.peers.peers@ == pre.peers.peers@)
            &&& (fork_choice(pre_chain, v.blocks) == ForkChoice::LocalWins ==> r == Ok::<
                Seq<Action>,
                LedgerError,
            >(Seq::empty()) && same_node(pre, post))
        } else {
            r == Ok::<Seq<Action>, LedgerError>(Seq::empty()) && same_node(pre, post)
        },
        None => match spec_request_text(text) {
            Some(v) => {
                &&& same_node(pre, post)
                &&& if v.from_peer_id == pre.peer_id@ {
                    &&& r matches Ok(acts)
                    &&& (r matches Ok(acts) ==> acts.len() == 1 && (acts[0]
                        matches Action::QueueResponse(resp) && resp.blocks@ == pre.chain.blocks@
                        && resp.receiver@ == source))
                } else {
                    r == Ok::<Seq<Action>, LedgerError>(Seq::empty())
                }
            },
            None => match spec_block_text(text) {
                Some(v) => if pre_chain.len() == 0 {
                    r == Err::<Seq<Action>, LedgerError>(LedgerError::EmptyChain) && same_node(
                        pre,
                        post,
                    )
                } else if block_valid(v, pre_chain.last()) {
                    &&& r == Ok::<Seq<Action>, LedgerError>(Seq::empty())
                    &&& post.chain.blocks.deep_view() == pre_chain.push(v)
                    &&& post.peer_id@ == pre.peer_id@
                    &&& post.peers.peers@ == pre.peers.peers@
                } else {
                    r == Ok::<Seq<Action>, LedgerError>(seq![Action::LogBlockRejected])
                        && same_node(pre, post)
                },
                None => (match r {
                    Ok(acts) => acts.len() == 1 && (acts[0] matches Action::LogUnparseable(t, s2)
                        && t@ == text && s2@ == source),
                    Err(_) => false,
                }) && same_node(pre, post),
            },
        },
    }
}

/// What handling a line of local input does. The commands are
/// case-sensitive and prefix-matched in a fixed order: `ls p` exactly,
/// then the `ls c` prefix, then the `create b` prefix whose remainder
/// (leading whitespace included) is the new block's payload; anything
/// else is an unrecognized command.
pub open spec fn command_transition(
    pre: NodeState,
    post: NodeState,
    line: Seq<char>,
    r: Result<Seq<Action>, LedgerError>,
) -> bool {
    let pre_chain = pre.chain.blocks.deep_view();
    if line == "ls p"@ {
        &&& same_node(pre, post)
        &&& match r {
            Ok(acts) => acts.len() == 1 && (acts[0] matches Action::PrintPeers(ps)
                && ps.deep_view() == pre.peers.peers.deep_view()),
            Err(_) => false,
        }
    } else if line.len() >= "ls c"@.len() && line.subrange(0, "ls c"@.len() as int) == "ls c"@ {
        &&& same_node(pre, post)
        &&& match r {
            Ok(acts) => acts.len() == 1 && (acts[0] matches Action::PrintChain(json) && json@
                == pretty_blocks(pre_chain)),
            Err(_) => false,
        }
    } else if line.len() >= "create b"@.len() && line.subrange(0, "create b"@.len() as int)
        == "create b"@ {
        let payload = line.skip("create b"@.len() as int);
        if pre_chain.len() == 0 {
            r == Err::<Seq<Action>, LedgerError>(LedgerError::EmptyChain) && same_node(pre, post)
        } else if pre_chain.last().id == u64::MAX {
            r == Err::<Seq<Action>, LedgerError>(LedgerError::IndexSpaceExhausted) && same_node(
                pre,
                post,
            )
        } else {
            &&& same_node(pre, post)
            &&& match r {
                Ok(acts) => acts.len() == 1 && (acts[0] matches Action::MineBlock {
                    id,
                    payload: data,
                    previous_hash,
                } && id == pre_chain.last().id + 1 && data@ == payload && previous_hash@
                    == pre_chain.last().hash),
                Err(_) => false,
            }
        }
    } else {
        &&& same_node(pre, post)
        &&& r == Ok::<Seq<Action>, LedgerError>(seq![Action::LogUnknownCommand])
    }
}

/// What delivering a freshly mined block does. The chain may have
/// moved on while the worker searched, so the block is appended only
/// if it still validates against the current tail and is broadcast
/// then; a stale or ill-formed result is dropped with a log line.
pub open spec fn mined_transition(
    pre: NodeState,
    post: NodeState,
    b: BlockView,
    r: Result<Seq<Action>, LedgerError>,
) -> bool {
    let pre_chain = pre.chain.blocks.deep_view();
    if pre_chain.len() == 0 {
        r == Err::<Seq<Action>, LedgerError>(LedgerError::EmptyChain) && same_node(pre, post)
    } else if block_valid(b, pre_chain.last()) {
        &&& match r {
            Ok(acts) => acts.len() == 1 && (acts[0] matches Action::PublishBlocks(json) && json@
                == wire_block(b)),
            Err(_) => false,
        }
        &&& post.chain.blocks.deep_view() == pre_chain.push(b)
        &&& post.peer_id@ == pre.peer_id@
        &&& post.peers.peers@ == pre.peers.peers@
        &&& (chain_valid(pre_chain) ==> chain_valid(post.chain.blocks.deep_view()))
    } else {
        match r {
            Ok(acts) => acts == seq![Action::LogBlockRejected] && same_node(pre, post),
            Err(_) => false,
        }
    }
}

impl NodeState {
    /// A fresh node: the given identity, a chain holding only the
    /// genesis block, and no known peers.
    pub fn new(peer_id: String) -> (r: NodeState)
        ensures
            r.peer_id@ == peer_id@,
            r.chain.blocks@.len() == 1,
            is_genesis(r.chain.blocks.deep_view()[0]),
            chain_valid(r.chain.blocks.deep_view()),
            r.peers.peers@.len() == 0,
    {
        NodeState { peer_id, chain: Chain::default(), peers: PeerRegistry::new() }
    }

    /// Handles one inbound payload from a gossip topic: classifies it
    /// and routes it to the matching chain operation, per
    /// [`message_transition`].
    pub fn handle_message(&mut self, text: &str, source: &str) -> (r: Result<
        Vec<Action>,
        LedgerError,
    >)
        ensures
            message_transition(*old(self), *final(self), text@, source@, acts_view(r)),
    {
        match classify(text) {
            Some(SyncMessage::Response(resp)) => {
                if str_eq(resp.receiver.as_str(), self.peer_id.as_str()) {
                    let remote = Chain { blocks: resp.blocks };
                    match self.chain.choose_chain(&remote) {
                        Ok(()) => Ok(Vec::new()),
                        Err(e) => Err(e),
                    }
                } else {
                    Ok(Vec::new())
                }
            },
            Some(SyncMessage::Request(req)) => {
                if str_eq(req.from_peer_id.as_str(), self.peer_id.as_str()) {
                    let resp = ChainResponse {
                        blocks: self.chain.clone().blocks,
                        receiver: source.to_owned(),
                    };
                    Ok(vec![Action::QueueResponse(resp)])
                } else {
                    Ok(Vec::new())
                }
            },
            Some(SyncMessage::NewBlock(b)) => {
                if self.chain.blocks.len() == 0 {
                    return Err(LedgerError::EmptyChain);
                }
                let ghost pre_dv = self.chain.blocks.deep_view();
                let ghost bv = b@;
                let added = self.chain.try_add_block(b);
                if added {
                    proof {
                        assert(self.chain.blocks.deep_view() =~= pre_dv.push(bv));
                    }
                    Ok(Vec::new())
                } else {
                    let acts = vec![Action::LogBlockRejected];
                    proof {
                        assert(acts@ =~= seq![Action::LogBlockRejected]);
                    }
                    Ok(acts)
                }
            },
            None => {
                let acts = vec![Action::LogUnparseable(text.to_owned(), source.to_owned())];
                proof {
                    assert(acts@.len() == 1);
                }
                Ok(acts)
            },
        }
    }

    /// Takes delivery of a block a background mining task produced,
    /// per [`mined_transition`].
    pub fn handle_mined(&mut self, block: Block) -> (r: Result<Vec<Action>, LedgerError>)
        ensures
            mined_transition(*old(self), *final(self), block@, acts_view(r)),
    {
        if self.chain.blocks.len() == 0 {
            return Err(LedgerError::EmptyChain);
        }
        let json = serialize_block(&block);
        let ghost pre_dv = self.chain.blocks.deep_view();
        let ghost bv = block@;
        let added = self.chain.try_add_block(block);
        if added {
            proof {
                assert(self.chain.blocks.deep_view() =~= pre_dv.push(bv));
            }
            let acts = vec![Action::PublishBlocks(json)];
            proof {
                assert(acts@.len() == 1);
            }
            Ok(acts)
        } else {
            let acts = vec![Action::LogBlockRejected];
            proof {
                assert(acts@ =~= seq![Action::LogBlockRejected]);
            }
            Ok(acts)
        }
    }

    /// Handles one line of local input per [`command_transition`].
    pub fn handle_command(&mut self, line: &str) -> (r: Result<Vec<Action>, LedgerError>)
        ensures
            command_transition(*old(self), *final(self), line@, acts_view(r)),
    {
        if str_eq(line, "ls p") {
            let acts = vec![Action::PrintPeers(self.peers.list())];
            proof {
                assert(acts@.len() == 1);
            }
            Ok(acts)
        } else if str_starts_with(line, "ls c") {
            let json = serialize_blocks_pretty(&self.chain.blocks);
            let acts = vec![Action::PrintChain(json)];
            proof {
                assert(acts@.len() == 1);
            }
            Ok(acts)
        } else if str_starts_with(line, "create b") {
            let plen = "create b".unicode_len();
            let n = line.unicode_len();
            let payload = line.substring_char(plen, n);
            if self.chain.blocks.len() == 0 {
                return Err(LedgerError::EmptyChain);
            }
            proof {
                assert(self.chain.blocks.deep_view().last() == self.chain.blocks@[self.chain.blocks@.len() - 1]@);
            }
            let tail_id = self.chain.blocks[self.chain.blocks.len() - 1].id;
            if tail_id == u64::MAX {
                return Err(LedgerError::IndexSpaceExhausted);
            }
            let tail_hash = self.chain.blocks[self.chain.blocks.len() - 1].hash.clone();
            let acts = vec![Action::MineBlock {
                id: tail_id + 1,
                payload: payload.to_owned(),
                previous_hash: tail_hash,
            }];
            proof {
                assert(acts@.len() == 1);
            }
            Ok(acts)
        } else {
            let acts = vec![Action::LogUnknownCommand];
            proof {
                assert(acts@ =~= seq![Action::LogUnknownCommand]);
            }
            Ok(acts)
        }
    }

    /// The one-shot bootstrap step: if any peer is known, the payload
    /// of a chain request addressed at one arbitrarily chosen peer, to
    /// publish on the chains topic; `None` when no peer is known yet.
    pub fn handle_init(&self) -> (r: Option<String>)
        ensures
            r is None <==> self.peers.peers@.len() == 0,
            r matches Some(json) ==> json@ == wire_request(
                LocalChainRequestView { from_peer_id: self.peers.peers.deep_view().last() },
            ),
    {
        match self.peers.pick() {
            Some(p) => Some(serialize_request(&LocalChainRequest { from_peer_id: p })),
            None => None,
        }
    }

    /// Drives the node from one event of the select loop: exactly one
    /// event is handled per call, and every chain mutation goes through
    /// this single owner.
    pub fn handle_event(&mut self, event: EventType) -> (r: Result<Vec<Action>, LedgerError>)
        ensures
            event matches EventType::Init ==> same_node(*old(self), *final(self)) && match acts_view(
                r,
            ) {
                Ok(acts) => (old(self).peers.peers@.len() == 0 ==> acts == Seq::<Action>::empty())
                    && (old(self).peers.peers@.len() > 0 ==> acts.len() == 1 && (acts[0]
                    matches Action::PublishChains(json) && json@ == wire_request(
                    LocalChainRequestView {
                        from_peer_id: old(self).peers.peers.deep_view().last(),
                    },
                ))),
                Err(_) => false,
            },
            event matches EventType::Response(resp) ==> same_node(*old(self), *final(self))
                && match acts_view(r) {
                Ok(acts) => acts.len() == 1 && (acts[0] matches Action::PublishChains(json)
                    && json@ == wire_response(resp@)),
                Err(_) => false,
            },
            event matches EventType::Input(line) ==> command_transition(
                *old(self),
                *final(self),
                line@,
                acts_view(r),
            ),
            event matches EventType::Message { text, source } ==> message_transition(
                *old(self),
                *final(self),
                text@,
                source@,
                acts_view(r),
            ),
            event matches EventType::MinedBlock(b) ==> mined_transition(
                *old(self),
                *final(self),
                b@,
                acts_view(r),
            ),
            event matches EventType::PeerDiscovered(p) ==> {
                &&& final(self).peer_id@ == old(self).peer_id@
                &&& final(self).chain.blocks@ == old(self).chain.blocks@
                &&& acts_view(r) == Ok::<Seq<Action>, LedgerError>(Seq::empty())
                &&& (has_peer(old(self).peers.peers.deep_view(), p@) ==> final(self).peers.peers@
                    == old(self).peers.peers@)
                &&& (!has_peer(old(self).peers.peers.deep_view(), p@) ==> final(self).peers.peers@
                    == old(self).peers.peers@.push(p))
            },
            event matches EventType::PeerExpired(p) ==> {
                &&& final(self).peer_id@ == old(self).peer_id@
                &&& final(self).chain.blocks@ == old(self).chain.blocks@
                &&& acts_view(r) == Ok::<Seq<Action>, LedgerError>(Seq::empty())
                &&& forall|q: Seq<char>|
                    #[trigger] has_peer(final(self).peers.peers.deep_view(), q) == (has_peer(
                        old(self).peers.peers.deep_view(),
                        q,
                    ) && q != p@)
            },
    {
        match event {
            EventType::Init => {
                match self.handle_init() {
                    Some(json) => {
                        let acts = vec![Action::PublishChains(json)];
                        proof {
                            assert(acts@.len() == 1);
                        }
                        Ok(acts)
                    },
                    None => Ok(Vec::new()),
                }
            },
            EventType::Response(resp) => {
                let json = serialize_response(&resp);
                let acts = vec![Action::PublishChains(json)];
                proof {
                    assert(acts@.len() == 1);
                }
                Ok(acts)
            },
            EventType::Input(line) => self.handle_command(line.as_str()),
            EventType::Message { text, source } => self.handle_message(
                text.as_str(),
                source.as_str(),
            ),
            EventType::MinedBlock(block) => self.handle_mined(block),
            EventType::PeerDiscovered(p) => {
                self.peers.add(p);
                Ok(Vec::new())
            },
            EventType::PeerExpired(p) => {
                self.peers.remove(p.as_str());
                Ok(Vec::new())
            },
        }
    }
}

} // verus!
