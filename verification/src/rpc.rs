//! Reading a token's metadata link from the token contract through a list of
//! Ethereum JSON-RPC nodes. The nodes are tried in order; a node that fails
//! is not asked again. The requests themselves are sent by the caller: this
//! module decides what to send next and what an answer means.
use vstd::prelude::*;
use vstd::utf8::{decode_utf8, valid_utf8};

use crate::hex::{
    lemma_call_data_encodes_token, CALL_DATA_LEN,
    ar_call_data, h_to_string_bytes, h_to_string_ok, h_to_string_spec, second_piece, hex_pairs_ok, strip_0x, try_h_to_string,
    usize_to_ar_data, HashDecodeError,
};
use crate::json::{extract_rpc_result, json_quoted, rpc_result, to_json_string};
use crate::numfmt::hex_value;
use crate::text::{concat, has_prefix};

verus! {

/// The HTTP client of the `reqwest` crate, carried through unread.
#[verifier::external_type_specification]
#[verifier::external_body]
pub struct ExClient(reqwest::blocking::Client);

/// The state of a client: the HTTP client that sends the requests, the node
/// list, the contract asked, and the node in use.
pub struct EthCilent {
    client: reqwest::blocking::Client,
    nodes: Vec<String>,
    contract: String,
    curent_node_id: usize,
}

/// The abstract state of a client.
pub struct EthCilentView {
    pub nodes: Seq<Seq<char>>,
    pub contract: Seq<char>,
    pub curent_node_id: nat,
}

impl View for EthCilent {
    type V = EthCilentView;

    closed spec fn view(&self) -> EthCilentView {
        EthCilentView {
            nodes: self.nodes@.map_values(|n: String| n@),
            contract: self.contract@,
            curent_node_id: self.curent_node_id as nat,
        }
    }
}

/// One `eth_call` request: the node it goes to, and the JSON text it sends.
pub struct RpcRequest {
    pub node: String,
    pub body: String,
}

/// The JSON-RPC text of an `eth_call` with call data `data` to contract `to`,
/// from the zero address at the latest block, as `serde_json` writes that
/// object (keys in order, no spaces).
pub open spec fn eth_call_body_spec(data: Seq<char>, to: Seq<char>) -> Seq<char> {
    "{\"id\":2,\"jsonrpc\":\"2.0\",\"method\":\"eth_call\",\"params\":[{\"data\":"@ + json_quoted(data)
        + ",\"from\":\"0x0000000000000000000000000000000000000000\",\"to\":"@ + json_quoted(to)
        + "},\"latest\"]}"@
}

/// The JSON-RPC text of an `eth_call` with call data `data` to contract `to`.
pub fn eth_call_body(data: &str, to: &str) -> (r: String)
    ensures
        r@ == eth_call_body_spec(data@, to@),
{
    let data_json = to_json_string(data);
    let to_json = to_json_string(to);
    let a = concat(
        "{\"id\":2,\"jsonrpc\":\"2.0\",\"method\":\"eth_call\",\"params\":[{\"data\":",
        data_json.as_str(),
    );
    let b = concat(a.as_str(), ",\"from\":\"0x0000000000000000000000000000000000000000\",\"to\":");
    let c = concat(b.as_str(), to_json.as_str());
    concat(c.as_str(), "},\"latest\"]}")
}

/// What the caller does next.
pub enum RpcAction {
    /// Send this request and report the outcome.
    Send(RpcRequest),
    /// The query is over, with the decoded link or, when every node failed, none.
    Done(Option<String>),
}

/// What became of a request.
pub enum RpcEvent {
    /// The request could not be sent or no answer came.
    SendFailed,
    /// The answer, as text.
    Reply(String),
}

/// The action that a client in state `c` takes for token `id`.
pub open spec fn action_for(c: EthCilentView, id: nat, a: RpcAction) -> bool {
    if c.curent_node_id < c.nodes.len() {
        a matches RpcAction::Send(req) && (req.node@ == c.nodes[c.curent_node_id as int]
            && req.body@ == eth_call_body_spec(ar_call_data(id), c.contract))
    } else {
        a matches RpcAction::Done(None)
    }
}

/// The request for token `id` asks the contract for that token: its body is
/// the `eth_call` text of call data that starts with the `uri(uint256)`
/// selector and whose 64 digits after it read back as `id`.
pub proof fn lemma_request_asks_for_token(c: EthCilentView, id: usize, a: RpcAction)
    requires
        action_for(c, id as nat, a),
        c.curent_node_id < c.nodes.len(),
    ensures
        a matches RpcAction::Send(req) && exists|d: Seq<char>|
            #![trigger eth_call_body_spec(d, c.contract)]
            {
                &&& req.body@ == eth_call_body_spec(d, c.contract)
                &&& d.len() == CALL_DATA_LEN
                &&& has_prefix(d, "0x0e89341c"@)
                &&& hex_value(d.skip(10)) == id
            },
        a matches RpcAction::Send(req) && req.node@ == c.nodes[c.curent_node_id as int],
{
    lemma_call_data_encodes_token(id);
    assert(eth_call_body_spec(ar_call_data(id as nat), c.contract) == eth_call_body_spec(
        ar_call_data(id as nat),
        c.contract,
    ));
}

impl EthCilent {
    /// The HTTP client that the requests are sent with.
    pub closed spec fn http_client(&self) -> reqwest::blocking::Client {
        self.client
    }

    /// A client for `contract` that sends with `client` and tries `nodes` in
    /// order, starting with the first.
    pub fn new(client: reqwest::blocking::Client, contract: String, nodes: Vec<String>) -> (r: Self)
        ensures
            r@.nodes == nodes@.map_values(|n: String| n@),
            r@.contract == contract@,
            r@.curent_node_id == 0,
            r.http_client() == client,
    {
        EthCilent { client, nodes, contract, curent_node_id: 0 }
    }

    /// The HTTP client that the requests are sent with.
    pub fn client(&self) -> (r: &reqwest::blocking::Client)
        ensures
            *r == self.http_client(),
    {
        &self.client
    }

    /// The index of the node in use.
    pub fn curent_node_id(&self) -> (r: usize)
        ensures
            r == self@.curent_node_id,
    {
        self.curent_node_id
    }

    /// The first step of a query for token `id`: a request to the node in use,
    /// or, when no node is left, the end with no link.
    pub fn start_query(&self, id: usize) -> (r: RpcAction)
        ensures
            action_for(self@, id as nat, r),
    {
        if self.curent_node_id < self.nodes.len() {
            let node = self.nodes[self.curent_node_id].clone();
            let data = usize_to_ar_data(id);
            let body = eth_call_body(data.as_str(), self.contract.as_str());
            proof {
                assert(self@.nodes[self.curent_node_id as int] == self.nodes@[self.curent_node_id as int]@);
            }
            RpcAction::Send(RpcRequest { node, body })
        } else {
            RpcAction::Done(None)
        }
    }

    /// The next step of a query for token `id`, given what became of the last
    /// request. A failed request or an answer with no `result` string moves to
    /// the next node and asks it; a `result` string ends the query with its
    /// decoded text; a `result` string that does not decode is an error, and
    /// the client stays as it is. With no node in use the query is over.
    pub fn on_event(&mut self, id: usize, event: RpcEvent) -> (r: Result<RpcAction, HashDecodeError>)
        ensures
            final(self).http_client() == old(self).http_client(),
            final(self)@.nodes == old(self)@.nodes,
            final(self)@.contract == old(self)@.contract,
            old(self)@.curent_node_id >= old(self)@.nodes.len() ==> {
                &&& final(self)@ == old(self)@
                &&& r matches Ok(RpcAction::Done(None))
            },
            old(self)@.curent_node_id < old(self)@.nodes.len() ==> match event {
                RpcEvent::SendFailed => {
                    &&& final(self)@.curent_node_id == old(self)@.curent_node_id + 1
                    &&& r matches Ok(a) && action_for(final(self)@, id as nat, a)
                },
                RpcEvent::Reply(text) => match rpc_result(text@) {
                    None => {
                        &&& final(self)@.curent_node_id == old(self)@.curent_node_id + 1
                        &&& r matches Ok(a) && action_for(final(self)@, id as nat, a)
                    },
                    Some(hex) => {
                        &&& final(self)@.curent_node_id == old(self)@.curent_node_id
                        &&& h_to_string_ok(hex) ==> (r matches Ok(RpcAction::Done(Some(t)))
                            && t@ == h_to_string_spec(hex) && (valid_utf8(h_to_string_bytes(hex))
                            ==> t@ == second_piece(decode_utf8(h_to_string_bytes(hex)))))
                        &&& !h_to_string_ok(hex) ==> (r matches Err(e) && (e
                            == HashDecodeError::InvalidHex <==> !hex_pairs_ok(strip_0x(hex))))
                    },
                },
            },
    {
        if self.curent_node_id >= self.nodes.len() {
            return Ok(RpcAction::Done(None));
        }
        match event {
            RpcEvent::SendFailed => {
                self.curent_node_id = self.curent_node_id + 1;
                Ok(self.start_query(id))
            },
            RpcEvent::Reply(text) => {
                match extract_rpc_result(text.as_str()) {
                    None => {
                        self.curent_node_id = self.curent_node_id + 1;
                        Ok(self.start_query(id))
                    },
                    Some(hex) => {
                        match try_h_to_string(hex.as_str()) {
                            Ok(t) => Ok(RpcAction::Done(Some(t))),
                            Err(e) => Err(e),
                        }
                    },
                }
            },
        }
    }
}

/// The public Ethereum nodes that are asked, in order.
pub fn default_rpc_nodes() -> (r: Vec<String>)
    ensures
        r@.len() == 5,
        r@[0]@ == "https://eth-mainnet.gateway.pokt.network/v1/5f3453978e354ab992c4da79"@,
        r@[1]@ == "https://cloudflare-eth.com/"@,
        r@[2]@ == "https://nodes.mewapi.io/rpc/eth"@,
        r@[3]@ == "https://node1.web3api.com"@,
        r@[4]@ == "https://eth-mainnet.token.im"@,
{
    let mut r: Vec<String> = Vec::new();
    r.push("https://eth-mainnet.gateway.pokt.network/v1/5f3453978e354ab992c4da79".to_owned());
    r.push("https://cloudflare-eth.com/".to_owned());
    r.push("https://nodes.mewapi.io/rpc/eth".to_owned());
    r.push("https://node1.web3api.com".to_owned());
    r.push("https://eth-mainnet.token.im".to_owned());
    r
}

/// The links of a collection stored on Arweave, read token by token: tokens
/// `1..=end` are asked for in order, and the collection stops at the first
/// token whose link cannot be read.
pub struct ArLinks {
    end: usize,
    links: Vec<String>,
}

/// The abstract state of a collection being read.
pub struct ArLinksView {
    pub end: nat,
    pub links: Seq<Seq<char>>,
}

impl View for ArLinks {
    type V = ArLinksView;

    closed spec fn view(&self) -> ArLinksView {
        ArLinksView { end: self.end as nat, links: self.links@.map_values(|s: String| s@) }
    }
}

/// What to do next while reading a collection.
pub enum ArStep {
    /// Read the link of this token.
    Query(usize),
    /// The links of tokens `1..=end`, in order.
    Done(Vec<String>),
    /// The link of this token could not be read.
    Failed(usize),
}

/// `r` is the step that a collection in state `v` takes next.
pub open spec fn ar_next_step(v: ArLinksView, r: ArStep) -> bool {
    if v.links.len() < v.end {
        r == ArStep::Query((v.links.len() + 1) as usize)
    } else {
        r matches ArStep::Done(w) && w@.map_values(|s: String| s@) == v.links
    }
}

/// The tokens of a collection are asked for in order from 1: with `k` links
/// read and fewer than `end`, the next token asked for is `k + 1`; with all
/// `end` read, the result is exactly those links, one per token, in order.
pub proof fn lemma_tokens_asked_in_order(v: ArLinksView, r: ArStep)
    requires
        v.end <= usize::MAX,
        ar_next_step(v, r),
    ensures
        v.links.len() < v.end ==> (r matches ArStep::Query(k) && k == v.links.len() + 1 && 1 <= k
            <= v.end),
        v.links.len() >= v.end ==> (r matches ArStep::Done(w) && w@.len() == v.links.len() && (
        forall|i: int| 0 <= i < w@.len() ==> #[trigger] w@[i]@ == v.links[i])),
{
    if v.links.len() >= v.end {
        if let ArStep::Done(w) = r {
            assert forall|i: int| 0 <= i < w@.len() implies #[trigger] w@[i]@ == v.links[i] by {
                assert(w@.map_values(|s: String| s@)[i] == w@[i]@);
            }
        }
    }
}

impl ArLinks {
    /// A collection of tokens `1..=end`, with no link read yet.
    pub fn new(end: usize) -> (r: Self)
        ensures
            r@.end == end,
            r@.links.len() == 0,
    {
        ArLinks { end, links: Vec::new() }
    }

    /// Whether a token is still to be read.
    pub fn has_pending_token(&self) -> (r: bool)
        ensures
            r == (self@.links.len() < self@.end),
    {
        self.links.len() < self.end
    }

    /// The next token to read (`links.len() + 1`), or the links of tokens
    /// `1..=end` in order.
    pub fn next_step(&self) -> (r: ArStep)
        ensures
            ar_next_step(self@, r),
    {
        if self.links.len() < self.end {
            ArStep::Query(self.links.len() + 1)
        } else {
            let mut out: Vec<String> = Vec::new();
            for i in 0..self.links.len()
                invariant
                    out@.len() == i,
                    forall|j: int| 0 <= j < i ==> #[trigger] out@[j]@ == self.links@[j]@,
            {
                out.push(self.links[i].clone());
            }
            assert(out@.map_values(|s: String| s@) =~= self@.links);
            ArStep::Done(out)
        }
    }

    /// Records the link read for the token last asked for, and gives the next
    /// step; no link ends the collection at that token, which is reported.
    pub fn on_link(&mut self, link: Option<String>) -> (r: ArStep)
        requires
            old(self)@.links.len() < old(self)@.end,
        ensures
            link is None ==> final(self)@ == old(self)@ && r == ArStep::Failed(
                (old(self)@.links.len() + 1) as usize,
            ),
            link matches Some(l) ==> {
                &&& final(self)@.links == old(self)@.links.push(l@)
                &&& final(self)@.end == old(self)@.end
                &&& ar_next_step(final(self)@, r)
            },
    {
        match link {
            None => ArStep::Failed(self.links.len() + 1),
            Some(l) => {
                self.links.push(l);
                proof {
                    assert(self@.links =~= old(self)@.links.push(l@));
                }
                self.next_step()
            },
        }
    }
}

} // verus!
