//! Flows which receivers have asked for.

use crate::byte_utils::{be16, be16_at, be32, be32_at, make_u16, make_u32, H, L};
use crate::flows_transmitter::Command;
use crate::flows_tx::MAX_FLOWS;
use crate::mdns_client::SocketNumber;
use crate::protocol::flows_control::FlowHandle;
use rand::Rng;
use vstd::prelude::*;

verus! {

/// The number which stands for an address and a port.
pub open spec fn socket_number(ip: Seq<u8>, port: u16) -> int {
    be32_at(ip, 0) * 0x1_0000 + port
}

pub fn make_socket_number(ip: [u8; 4], port: u16) -> (number: SocketNumber)
    ensures
        number == socket_number(ip@, port),
{
    let high: u32 = make_u32(ip[0], ip[1], ip[2], ip[3]);
    high as u64 * 0x1_0000 + port as u64
}

/// The address and the port which a number stands for.
pub fn split_socket_number(number: SocketNumber) -> (r: ([u8; 4], u16))
    requires
        number < 0x1_0000_0000_0000,
    ensures
        socket_number(r.0@, r.1) == number,
{
    let high: u32 = (number / 0x1_0000) as u32;
    let ip: [u8; 4] = [
        (high / 0x100_0000) as u8,
        (high / 0x1_0000 % 256) as u8,
        (high / 0x100 % 256) as u8,
        (high % 256) as u8,
    ];
    (ip, (number % 0x1_0000) as u16)
}

/// Different addresses or ports have different numbers.
pub proof fn socket_numbers_differ(ip1: Seq<u8>, port1: u16, ip2: Seq<u8>, port2: u16)
    requires
        ip1.len() == 4,
        ip2.len() == 4,
        socket_number(ip1, port1) == socket_number(ip2, port2),
    ensures
        ip1 == ip2,
        port1 == port2,
{
    assert(be32_at(ip1, 0) == be32_at(ip2, 0));
    assert(ip1[0] == ip2[0] && ip1[1] == ip2[1] && ip1[2] == ip2[2] && ip1[3] == ip2[3]);
    assert(ip1 =~= ip2);
}

/// An address of the multicast scope which media are sent to.
pub open spec fn multicast_address(random1: u8, random2: u8) -> Seq<u8> {
    seq![239u8, 255, random1, random2]
}

/// The address `k` numbers after the one with the number `first`, all of them being tried in turn.
pub open spec fn multicast_address_after(first: u16, k: int) -> Seq<u8> {
    let number = (first + k) % 0x1_0000;
    multicast_address((number / 256) as u8, (number % 256) as u8)
}

/// What stands for that address and the port.
pub open spec fn multicast_socket(first: u16, k: int, media_port: u16) -> SocketNumber {
    socket_number(multicast_address_after(first, k), media_port) as SocketNumber
}

proof fn lemma_multicast_sockets_differ(first: u16, j: int, k: int, media_port: u16)
    requires
        0 <= j < k <= MAX_FLOWS,
    ensures
        multicast_socket(first, j, media_port) != multicast_socket(first, k, media_port),
{
    let a = multicast_address_after(first, j);
    let b = multicast_address_after(first, k);
    if multicast_socket(first, j, media_port) == multicast_socket(first, k, media_port) {
        socket_numbers_differ(a, media_port, b, media_port);
        assert(a[2] == b[2] && a[3] == b[3]);
    }
}

/// How many multicast destinations are drawn at random.
pub const MAX_DRAWS: u32 = 64;

// ---------------------------------------------------------------------------------------------
// Handles
// ---------------------------------------------------------------------------------------------

/// The handle of the flow with the given index and cookie.
pub open spec fn handle_of(index: u32, cookie: u16) -> Seq<u8> {
    be32(index) + be16(cookie)
}

/// The index and the cookie of a flow.
pub fn split_handle(h: FlowHandle) -> (r: (u32, u16))
    ensures
        r.0 == be32_at(h@, 0),
        r.1 == be16_at(h@, 4),
{
    (make_u32(h[0], h[1], h[2], h[3]), make_u16(h[4], h[5]))
}

pub fn make_handle(index: u32, cookie: u16) -> (h: FlowHandle)
    ensures
        h@ == handle_of(index, cookie),
{
    let h: FlowHandle = [
        (index / 0x100_0000) as u8,
        (index / 0x1_0000 % 256) as u8,
        (index / 0x100 % 256) as u8,
        (index % 256) as u8,
        H(cookie),
        L(cookie),
    ];
    assert(h@ =~= handle_of(index, cookie));
    h
}

/// A handle is split into what it was made of.
pub proof fn handle_is_split_again(index: u32, cookie: u16)
    ensures
        be32_at(handle_of(index, cookie), 0) == index,
        be16_at(handle_of(index, cookie), 4) == cookie,
{
    let h = handle_of(index, cookie);
    assert(h[0] == be32(index)[0] && h[1] == be32(index)[1] && h[2] == be32(index)[2] && h[3] == be32(
        index,
    )[3]);
    assert(h[4] == be16(cookie)[0] && h[5] == be16(cookie)[1]);
}

/// `rand::thread_rng` and `rand::Rng::gen::<u16>`: any 16-bit number.
#[verifier::external_body]
fn random_u16() -> u16 {
    rand::thread_rng().gen::<u16>()
}

/// A number which makes the handle of a new flow hard to guess.
pub fn new_cookie() -> u16 {
    random_u16()
}

// ---------------------------------------------------------------------------------------------
// The table
// ---------------------------------------------------------------------------------------------

#[derive(Debug, Clone, Copy, PartialEq, Eq, Structural)]
pub struct FlowData {
    pub cookie: u16,
    pub remote: SocketNumber,
    /// whether the receiver has not given a sign of life for too long
    pub expired: bool,
}

/// What is shown of a flow.
pub struct FlowInfo {
    pub rx_hostname: Option<String>,
    pub rx_flow_name: Option<String>,
    pub dst_addr: [u8; 4],
    pub dst_port: u16,
    pub local_channel_indices: Vec<Option<usize>>,
}

impl FlowInfo {
    pub open spec fn spec_is_multicast(self) -> bool {
        self.rx_hostname is None && self.rx_flow_name is None
    }

    pub fn is_multicast(&self) -> (multicast: bool)
        ensures
            multicast == self.spec_is_multicast(),
    {
        self.rx_hostname.is_none() && self.rx_flow_name.is_none()
    }

    pub open spec fn destination(self) -> int {
        socket_number(self.dst_addr@, self.dst_port)
    }
}

/// Why a flow was not added.
#[derive(Debug, Clone, Copy, PartialEq, Eq, Structural)]
pub enum AddFlowError {
    /// the requested index is in use
    ResourceBusy,
    /// all flows are in use
    OutOfMemory,
}

/// Why a flow was not found or not removed.
#[derive(Debug, Clone, Copy, PartialEq, Eq, Structural)]
pub enum FlowError {
    NotFound,
    PermissionDenied,
}

/// What is to be done to add a flow.
#[derive(Debug, Clone, Copy, PartialEq, Eq, Structural)]
pub enum FlowChoice {
    /// there is a flow to this destination; its channels are to be changed
    Existing(u32),
    /// a new flow is to be started
    New(u32),
}

pub struct FlowsTransmitter {
    pub flow_seq_id: u32,
    pub flows: Vec<Option<FlowData>>,
    pub flows_info: Vec<Option<FlowInfo>>,
}

/// Whether a flow goes to the destination.
pub open spec fn has_destination(flows: Seq<Option<FlowData>>, remote: SocketNumber) -> bool {
    exists|i: int| is_to(flows, i, remote)
}

/// Whether the flow goes to the destination.
pub open spec fn is_to(flows: Seq<Option<FlowData>>, i: int, remote: SocketNumber) -> bool {
    0 <= i < flows.len() && flows[i] is Some && flows[i]->0.remote == remote
}

/// The index tried first when a flow is added, and so on.
pub open spec fn tried_index(seq_id: u32, k: int) -> int {
    (seq_id + k) % MAX_FLOWS as int
}

/// How many indices are tried from try `k` on before an unused one is found; `None` if none is.
pub open spec fn tries_until_unused(flows: Seq<Option<FlowData>>, seq_id: u32, k: int) -> Option<int>
    decreases MAX_FLOWS + 1 - k,
{
    if k > MAX_FLOWS {
        None
    } else if flows[tried_index(seq_id, k)] is None {
        Some(k)
    } else {
        tries_until_unused(flows, seq_id, k + 1)
    }
}

impl FlowsTransmitter {
    /// What always holds: information is kept of the flows that exist, and no two of them go to
    /// the same destination.
    pub open spec fn wf(&self) -> bool {
        &&& self.flows@.len() == MAX_FLOWS
        &&& self.flows_info@.len() == MAX_FLOWS
        &&& forall|i: int|
            #![trigger self.flows@[i]]
            #![trigger self.flows_info@[i]]
            0 <= i < MAX_FLOWS ==> (self.flows@[i] is Some <==> self.flows_info@[i] is Some)
        &&& forall|i: int, j: int, remote: SocketNumber|
            #![trigger is_to(self.flows@, i, remote), is_to(self.flows@, j, remote)]
            is_to(self.flows@, i, remote) && is_to(self.flows@, j, remote) ==> i == j
    }

    pub fn new() -> (table: Self)
        ensures
            table.wf(),
            table.flow_seq_id == 0,
            table.flows@ == Seq::new(MAX_FLOWS as nat, |i: int| None::<FlowData>),
    {
        let mut flows: Vec<Option<FlowData>> = Vec::new();
        let mut flows_info: Vec<Option<FlowInfo>> = Vec::new();
        let mut i: u32 = 0;
        while i < MAX_FLOWS
            invariant
                i <= MAX_FLOWS,
                flows@ == Seq::new(i as nat, |i: int| None::<FlowData>),
                flows_info@ == Seq::new(i as nat, |i: int| None::<FlowInfo>),
            decreases MAX_FLOWS - i,
        {
            flows.push(None);
            flows_info.push(None);
            i = i + 1;
        }
        FlowsTransmitter { flow_seq_id: 0, flows, flows_info }
    }

    fn find_destination(&self, remote: SocketNumber) -> (index: Option<u32>)
        requires
            self.wf(),
        ensures
            index is Some <==> has_destination(self.flows@, remote),
            index is Some ==> is_to(self.flows@, index->0 as int, remote),
    {
        let mut i: u32 = 0;
        while i < MAX_FLOWS
            invariant
                self.wf(),
                i <= MAX_FLOWS,
                forall|k: int| 0 <= k < i ==> !#[trigger] is_to(self.flows@, k, remote),
            decreases MAX_FLOWS - i,
        {
            match self.flows[i as usize] {
                Some(flow) => {
                    if flow.remote == remote {
                        assert(is_to(self.flows@, i as int, remote));
                        return Some(i);
                    }
                },
                None => {},
            }
            assert(!is_to(self.flows@, i as int, remote));
            i = i + 1;
        }
        None
    }

    pub fn destination_exists(&self, dst_addr: [u8; 4], dst_port: u16) -> (exists: bool)
        requires
            self.wf(),
        ensures
            exists == has_destination(self.flows@, socket_number(dst_addr@, dst_port) as SocketNumber),
    {
        self.find_destination(make_socket_number(dst_addr, dst_port)).is_some()
    }

    /// A multicast destination made of two random numbers; `None` if it is in use, so that other
    /// numbers have to be tried.
    pub fn multicast_destination(&self, random1: u8, random2: u8, media_port: u16) -> (destination: Option<
        ([u8; 4], u16),
    >)
        requires
            self.wf(),
        ensures
            destination is None <==> has_destination(
                self.flows@,
                socket_number(multicast_address(random1, random2), media_port) as SocketNumber,
            ),
            destination matches Some(d) ==> d.0@ == multicast_address(random1, random2) && d.1
                == media_port,
    {
        let ip: [u8; 4] = [239, 255, random1, random2];
        assert(ip@ =~= multicast_address(random1, random2));
        if self.destination_exists(ip, media_port) {
            None
        } else {
            Some((ip, media_port))
        }
    }

    /// The first multicast destination which is not in use, the numbers of addresses being counted
    /// from `first` on.
    pub fn multicast_destination_from(&self, first: u16, media_port: u16) -> (destination: ([u8; 4], u16))
        requires
            self.wf(),
        ensures
            destination.1 == media_port,
            exists|k: int|
                0 <= k <= MAX_FLOWS && destination.0@ == #[trigger] multicast_address_after(first, k)
                    && !has_destination(self.flows@, multicast_socket(first, k, media_port)) && forall|j: int|
                    0 <= j < k ==> has_destination(
                        self.flows@,
                        #[trigger] multicast_socket(first, j, media_port),
                    ),
    {
        let mut k: u16 = 0;
        // the flows which go to the destinations tried so far
        let ghost mut users: Set<int> = Set::empty();
        loop
            invariant
                self.wf(),
                k <= MAX_FLOWS,
                users.finite(),
                users.len() == k,
                users.subset_of(vstd::set_lib::set_int_range(0, MAX_FLOWS as int)),
                forall|i: int| #[trigger]
                    users.contains(i) ==> exists|j: int|
                        0 <= j < k && is_to(self.flows@, i, #[trigger] multicast_socket(first, j, media_port)),
                forall|j: int|
                    0 <= j < k ==> has_destination(
                        self.flows@,
                        #[trigger] multicast_socket(first, j, media_port),
                    ),
            decreases MAX_FLOWS + 1 - k,
        {
            let tried: u16 = first.wrapping_add(k);
            assert(tried == (first + k) % 0x1_0000);
            assert(multicast_address((tried / 256) as u8, (tried % 256) as u8) == multicast_address_after(
                first,
                k as int,
            ));
            if let Some(destination) = self.multicast_destination(H(tried), L(tried), media_port) {
                return destination;
            }
            proof {
                let remote = multicast_socket(first, k as int, media_port);
                assert(has_destination(self.flows@, remote));
                let i = choose|i: int| is_to(self.flows@, i, remote);
                if users.contains(i) {
                    let j = choose|j: int|
                        0 <= j < k && is_to(self.flows@, i, #[trigger] multicast_socket(first, j, media_port));
                    lemma_multicast_sockets_differ(first, j, k as int, media_port);
                }
                users = users.insert(i);
                vstd::set_lib::lemma_int_range(0, MAX_FLOWS as int);
                vstd::set_lib::lemma_len_subset(
                    users,
                    vstd::set_lib::set_int_range(0, MAX_FLOWS as int),
                );
                assert forall|x: int| #[trigger] users.contains(x) implies exists|j: int|
                    0 <= j < k + 1 && is_to(self.flows@, x, #[trigger] multicast_socket(first, j, media_port)) by {
                    if x == i {
                        assert(is_to(self.flows@, x, multicast_socket(first, k as int, media_port)));
                    }
                }
            }
            k = k + 1;
        }
    }

    /// A multicast destination drawn at random which is not in use. If one is drawn which is in
    /// use, another one is drawn; after `MAX_DRAWS` of them, the next one is taken which is not in
    /// use.
    pub fn random_multicast_destination(&self, media_port: u16) -> (destination: ([u8; 4], u16))
        requires
            self.wf(),
        ensures
            destination.0[0] == 239,
            destination.0[1] == 255,
            destination.1 == media_port,
            !has_destination(self.flows@, socket_number(destination.0@, media_port) as SocketNumber),
    {
        let mut draws: u32 = 0;
        while draws < MAX_DRAWS
            invariant
                self.wf(),
                draws <= MAX_DRAWS,
            decreases MAX_DRAWS - draws,
        {
            let random: u16 = random_u16();
            if let Some(destination) = self.multicast_destination(H(random), L(random), media_port) {
                return destination;
            }
            draws = draws + 1;
        }
        self.multicast_destination_from(random_u16(), media_port)
    }

    /// Removes a flow from the table; the transmitter has to be told to stop it.
    fn remove_flow_internal(&mut self, index: u32)
        requires
            old(self).wf(),
            index < MAX_FLOWS,
        ensures
            final(self).wf(),
            final(self).flow_seq_id == old(self).flow_seq_id,
            final(self).flows@ == old(self).flows@.update(index as int, None),
            final(self).flows_info@ == old(self).flows_info@.update(index as int, None),
    {
        self.flows.set(index as usize, None);
        self.flows_info.set(index as usize, None);
        proof {
            assert forall|i: int, j: int, remote: SocketNumber|
                #![trigger is_to(self.flows@, i, remote), is_to(self.flows@, j, remote)]
                is_to(self.flows@, i, remote) && is_to(self.flows@, j, remote) implies i == j by {
                assert(is_to(old(self).flows@, i, remote) && is_to(old(self).flows@, j, remote));
            }
            assert forall|i: int|
                #![trigger self.flows@[i]]
                #![trigger self.flows_info@[i]]
                0 <= i < MAX_FLOWS implies (self.flows@[i] is Some <==> self.flows_info@[i] is Some) by {
                assert(old(self).flows@[i] is Some <==> old(self).flows_info@[i] is Some);
            }
        }
    }

    /// Whether the flow is removed when room is needed.
    pub open spec fn is_abandoned(&self, i: int) -> bool {
        &&& self.flows@[i] is Some
        &&& self.flows@[i]->0.expired
        &&& !self.flows_info@[i]->0.spec_is_multicast()
    }

    /// Removes flows whose receivers have gone; returns their indices.
    pub fn scan_expired(&mut self) -> (removed: Vec<u32>)
        requires
            old(self).wf(),
        ensures
            final(self).wf(),
            final(self).flow_seq_id == old(self).flow_seq_id,
            forall|i: int|
                0 <= i < MAX_FLOWS ==> #[trigger] final(self).flows@[i] == if old(self).is_abandoned(i) {
                    None
                } else {
                    old(self).flows@[i]
                },
            forall|i: int|
                0 <= i < MAX_FLOWS ==> #[trigger] final(self).flows_info@[i] == if old(self).is_abandoned(i) {
                    None
                } else {
                    old(self).flows_info@[i]
                },
            forall|i: int, j: int| 0 <= i < j < removed@.len() ==> #[trigger] removed@[i] < #[trigger] removed@[j],
            forall|i: u32| #[trigger] removed@.contains(i) <==> i < MAX_FLOWS && old(self).is_abandoned(i as int),
    {
        let mut removed: Vec<u32> = Vec::new();
        let mut i: u32 = 0;
        while i < MAX_FLOWS
            invariant
                old(self).wf(),
                self.wf(),
                self.flow_seq_id == old(self).flow_seq_id,
                i <= MAX_FLOWS,
                forall|k: int|
                    0 <= k < i ==> #[trigger] self.flows@[k] == if old(self).is_abandoned(k) {
                        None
                    } else {
                        old(self).flows@[k]
                    },
                forall|k: int|
                    0 <= k < i ==> #[trigger] self.flows_info@[k] == if old(self).is_abandoned(k) {
                        None
                    } else {
                        old(self).flows_info@[k]
                    },
                forall|k: int| i <= k < MAX_FLOWS ==> #[trigger] self.flows@[k] == old(self).flows@[k],
                forall|k: int| i <= k < MAX_FLOWS ==> #[trigger] self.flows_info@[k] == old(self).flows_info@[k],
                forall|k: int| 0 <= k < removed@.len() ==> #[trigger] removed@[k] < i,
                forall|k: int, j: int| 0 <= k < j < removed@.len() ==> #[trigger] removed@[k] < #[trigger] removed@[j],
                forall|k: u32| #[trigger]
                    removed@.contains(k) <==> k < i && old(self).is_abandoned(k as int),
            decreases MAX_FLOWS - i,
        {
            assert(self.flows@[i as int] == old(self).flows@[i as int]);
            assert(self.flows_info@[i as int] == old(self).flows_info@[i as int]);
            let expired: bool = match self.flows[i as usize] {
                Some(flow) => flow.expired,
                None => false,
            };
            let unicast: bool = match &self.flows_info[i as usize] {
                Some(info) => !info.is_multicast(),
                None => false,
            };
            assert((expired && unicast) == old(self).is_abandoned(i as int));
            let ghost removed0 = removed@;
            if expired && unicast {
                self.remove_flow_internal(i);
                removed.push(i);
                proof {
                    assert forall|k: u32| #[trigger]
                        removed@.contains(k) <==> k < i + 1 && old(self).is_abandoned(k as int) by {
                        if removed0.contains(k) {
                            let x = choose|x: int| 0 <= x < removed0.len() && removed0[x] == k;
                            assert(removed@[x] == k);
                        }
                        if k == i {
                            assert(removed@[removed0.len() as int] == k);
                        }
                        if removed@.contains(k) && k != i {
                            let x = choose|x: int| 0 <= x < removed@.len() && removed@[x] == k;
                            assert(removed0[x] == k);
                        }
                    }
                }
            }
            i = i + 1;
        }
        removed
    }

    /// Decides which flow serves a new request for `dst_addr`; `requested_flow_index` is an index
    /// which has to be used. Flows whose receivers have gone are removed first if there is no flow
    /// to the destination; their indices are the second result.
    pub fn choose_flow(&mut self, dst_addr: SocketNumber, requested_flow_index: Option<u32>) -> (r: (
        Result<FlowChoice, AddFlowError>,
        Vec<u32>,
    ))
        requires
            old(self).wf(),
            requested_flow_index is Some ==> requested_flow_index->0 < MAX_FLOWS,
        ensures
            final(self).wf(),
            has_destination(old(self).flows@, dst_addr) ==> {
                &&& r.0 matches Ok(FlowChoice::Existing(index))
                &&& is_to(old(self).flows@, index as int, dst_addr)
                &&& r.1@.len() == 0
                &&& final(self).flows@ == old(self).flows@
                &&& final(self).flows_info@ == old(self).flows_info@
                &&& final(self).flow_seq_id == old(self).flow_seq_id
            },
            !has_destination(old(self).flows@, dst_addr) ==> {
                &&& forall|i: int|
                    0 <= i < MAX_FLOWS ==> #[trigger] final(self).flows@[i] == if old(self).is_abandoned(i) {
                        None
                    } else {
                        old(self).flows@[i]
                    }
                &&& forall|i: int|
                    0 <= i < MAX_FLOWS ==> #[trigger] final(self).flows_info@[i] == if old(
                        self,
                    ).is_abandoned(i) {
                        None
                    } else {
                        old(self).flows_info@[i]
                    }
                &&& forall|i: u32| #[trigger]
                    r.1@.contains(i) <==> i < MAX_FLOWS && old(self).is_abandoned(i as int)
                &&& !has_destination(final(self).flows@, dst_addr)
                &&& match requested_flow_index {
                    Some(index) => {
                        &&& final(self).flow_seq_id == old(self).flow_seq_id
                        &&& r.0 == if final(self).flows@[index as int] is None {
                            Ok::<FlowChoice, AddFlowError>(FlowChoice::New(index))
                        } else {
                            Err(AddFlowError::ResourceBusy)
                        }
                    },
                    None => match tries_until_unused(final(self).flows@, old(self).flow_seq_id, 0) {
                        Some(k) => {
                            &&& r.0 == Ok::<FlowChoice, AddFlowError>(
                                FlowChoice::New(tried_index(old(self).flow_seq_id, k) as u32),
                            )
                            &&& final(self).flow_seq_id == old(self).flow_seq_id.wrapping_add((k + 1) as u32)
                        },
                        None => {
                            &&& r.0 == Err::<FlowChoice, AddFlowError>(AddFlowError::OutOfMemory)
                            &&& final(self).flow_seq_id == old(self).flow_seq_id.wrapping_add(
                                (MAX_FLOWS + 1) as u32,
                            )
                        },
                    },
                }
            },
    {
        match self.find_destination(dst_addr) {
            Some(index) => {
                return (Ok(FlowChoice::Existing(index)), Vec::new());
            },
            None => {},
        }
        let removed = self.scan_expired();
        proof {
            assert forall|i: int| !is_to(self.flows@, i, dst_addr) by {
                assert(!is_to(old(self).flows@, i, dst_addr));
            }
        }
        match requested_flow_index {
            Some(index) => {
                if self.flows[index as usize].is_none() {
                    (Ok(FlowChoice::New(index)), removed)
                } else {
                    (Err(AddFlowError::ResourceBusy), removed)
                }
            },
            None => {
                let ghost seq0 = self.flow_seq_id;
                let mut counter: u32 = 0;
                while counter <= MAX_FLOWS
                    invariant
                        self.wf(),
                        seq0 == old(self).flow_seq_id,
                        counter <= MAX_FLOWS + 1,
                        self.flow_seq_id == seq0.wrapping_add(counter),
                        tries_until_unused(self.flows@, seq0, 0) == tries_until_unused(
                            self.flows@,
                            seq0,
                            counter as int,
                        ),
                        !has_destination(self.flows@, dst_addr),
                        forall|i: int|
                            0 <= i < MAX_FLOWS ==> #[trigger] self.flows@[i] == if old(self).is_abandoned(i) {
                                None
                            } else {
                                old(self).flows@[i]
                            },
                        forall|i: int|
                            0 <= i < MAX_FLOWS ==> #[trigger] self.flows_info@[i] == if old(
                                self,
                            ).is_abandoned(i) {
                                None
                            } else {
                                old(self).flows_info@[i]
                            },
                        forall|i: u32| #[trigger]
                            removed@.contains(i) <==> i < MAX_FLOWS && old(self).is_abandoned(i as int),
                        requested_flow_index is None,
                        !has_destination(old(self).flows@, dst_addr),
                    decreases MAX_FLOWS + 1 - counter,
                {
                    let flow_index: u32 = self.flow_seq_id % MAX_FLOWS;
                    assert(flow_index == tried_index(seq0, counter as int)) by {
                        assert(0x1_0000_0000int % 32 == 0);
                    }
                    self.flow_seq_id = self.flow_seq_id.wrapping_add(1);
                    if self.flows[flow_index as usize].is_none() {
                        return (Ok(FlowChoice::New(flow_index)), removed);
                    }
                    counter = counter + 1;
                }
                (Err(AddFlowError::OutOfMemory), removed)
            },
        }
    }
}

impl FlowsTransmitter {
    /// Enters a new flow, which has been started, into the table. A multicast flow is entered as
    /// expired to give it a grace period in which collisions of its address can be found.
    pub fn insert_flow(&mut self, index: u32, cookie: u16, flow_info: FlowInfo, is_multicast: bool) -> (handle:
        FlowHandle)
        requires
            old(self).wf(),
            index < MAX_FLOWS,
            old(self).flows@[index as int] is None,
            !has_destination(old(self).flows@, flow_info.destination() as SocketNumber),
        ensures
            final(self).wf(),
            final(self).flow_seq_id == old(self).flow_seq_id,
            handle@ == handle_of(index, cookie),
            final(self).flows@ == old(self).flows@.update(
                index as int,
                Some(
                    FlowData {
                        cookie,
                        remote: flow_info.destination() as SocketNumber,
                        expired: is_multicast,
                    },
                ),
            ),
            final(self).flows_info@ == old(self).flows_info@.update(index as int, Some(flow_info)),
    {
        let remote: SocketNumber = make_socket_number(flow_info.dst_addr, flow_info.dst_port);
        self.flows.set(index as usize, Some(FlowData { cookie, remote, expired: is_multicast }));
        self.flows_info.set(index as usize, Some(flow_info));
        proof {
            assert forall|i: int, j: int, r: SocketNumber|
                #![trigger is_to(self.flows@, i, r), is_to(self.flows@, j, r)]
                is_to(self.flows@, i, r) && is_to(self.flows@, j, r) implies i == j by {
                if i != index {
                    assert(is_to(old(self).flows@, i, r));
                }
                if j != index {
                    assert(is_to(old(self).flows@, j, r));
                }
            }
            assert forall|i: int|
                #![trigger self.flows@[i]]
                #![trigger self.flows_info@[i]]
                0 <= i < MAX_FLOWS implies (self.flows@[i] is Some <==> self.flows_info@[i] is Some) by {
                assert(old(self).flows@[i] is Some <==> old(self).flows_info@[i] is Some);
            }
        }
        make_handle(index, cookie)
    }

    /// Changes what is known of a flow to a destination which is asked for once more. Returns its handle.
    pub fn replace_info(&mut self, index: u32, flow_info: FlowInfo) -> (handle: FlowHandle)
        requires
            old(self).wf(),
            index < MAX_FLOWS,
            old(self).flows@[index as int] is Some,
        ensures
            final(self).wf(),
            final(self).flow_seq_id == old(self).flow_seq_id,
            final(self).flows@ == old(self).flows@,
            final(self).flows_info@ == old(self).flows_info@.update(index as int, Some(flow_info)),
            handle@ == handle_of(index, old(self).flows@[index as int]->0.cookie),
    {
        self.flows_info.set(index as usize, Some(flow_info));
        proof {
            assert forall|i: int|
                #![trigger self.flows@[i]]
                #![trigger self.flows_info@[i]]
                0 <= i < MAX_FLOWS implies (self.flows@[i] is Some <==> self.flows_info@[i] is Some) by {
                assert(old(self).flows@[i] is Some <==> old(self).flows_info@[i] is Some);
            }
        }
        let cookie: u16 = match self.flows[index as usize] {
            Some(flow) => flow.cookie,
            None => 0,
        };
        make_handle(index, cookie)
    }

    /// Notes whether the flow has expired, as far as it exists.
    pub fn set_expired(&mut self, index: u32, expired: bool)
        requires
            old(self).wf(),
            index < MAX_FLOWS,
        ensures
            final(self).wf(),
            final(self).flow_seq_id == old(self).flow_seq_id,
            final(self).flows_info@ == old(self).flows_info@,
            final(self).flows@ == old(self).flows@.update(
                index as int,
                match old(self).flows@[index as int] {
                    Some(flow) => Some(FlowData { expired, ..flow }),
                    None => None,
                },
            ),
    {
        match self.flows[index as usize] {
            Some(flow) => {
                self.flows.set(
                    index as usize,
                    Some(FlowData { cookie: flow.cookie, remote: flow.remote, expired }),
                );
            },
            None => {},
        }
        proof {
            assert(self.flows@ =~= old(self).flows@.update(index as int, self.flows@[index as int]));
            assert forall|i: int, j: int, r: SocketNumber|
                #![trigger is_to(self.flows@, i, r), is_to(self.flows@, j, r)]
                is_to(self.flows@, i, r) && is_to(self.flows@, j, r) implies i == j by {
                assert(is_to(old(self).flows@, i, r) && is_to(old(self).flows@, j, r));
            }
            assert forall|i: int|
                #![trigger self.flows@[i]]
                #![trigger self.flows_info@[i]]
                0 <= i < MAX_FLOWS implies (self.flows@[i] is Some <==> self.flows_info@[i] is Some) by {
                assert(old(self).flows@[i] is Some <==> old(self).flows_info@[i] is Some);
            }
        }
    }

    /// The grace period of a multicast flow is over. Returns the command by which the transmitter
    /// begins to send it.
    pub fn activate_multicast_flow(&mut self, flow_index: u32) -> (command: Command)
        requires
            old(self).wf(),
            flow_index < MAX_FLOWS,
            old(self).flows@[flow_index as int] is Some,
        ensures
            final(self).wf(),
            final(self).flow_seq_id == old(self).flow_seq_id,
            final(self).flows_info@ == old(self).flows_info@,
            final(self).flows@ == old(self).flows@.update(
                flow_index as int,
                Some(FlowData { expired: false, ..old(self).flows@[flow_index as int]->0 }),
            ),
            command == (Command::ActivateFlow { index: flow_index as usize }),
    {
        self.set_expired(flow_index, false);
        Command::ActivateFlow { index: flow_index as usize }
    }

    /// Whether the handle is that of a flow.
    pub open spec fn is_handle(&self, handle: Seq<u8>) -> bool {
        let index = be32_at(handle, 0);
        &&& index < MAX_FLOWS
        &&& self.flows@[index] is Some
        &&& self.flows@[index]->0.cookie == be16_at(handle, 4)
    }

    /// The index of the flow with the handle.
    pub fn get_flow(&self, handle: FlowHandle) -> (index: Option<u32>)
        requires
            self.wf(),
        ensures
            index is Some <==> self.is_handle(handle@),
            index is Some ==> index->0 == be32_at(handle@, 0),
    {
        let (id, cookie) = split_handle(handle);
        if id >= MAX_FLOWS {
            return None;
        }
        match self.flows[id as usize] {
            Some(flow) => if flow.cookie == cookie {
                Some(id)
            } else {
                None
            },
            None => None,
        }
    }

    /// Removes the flow with the handle; returns its index.
    pub fn remove_flow(&mut self, handle: FlowHandle) -> (r: Result<usize, FlowError>)
        requires
            old(self).wf(),
        ensures
            final(self).wf(),
            final(self).flow_seq_id == old(self).flow_seq_id,
            r == if old(self).is_handle(handle@) {
                Ok::<usize, FlowError>(be32_at(handle@, 0) as usize)
            } else {
                Err(FlowError::NotFound)
            },
            final(self).flows@ == if r is Ok {
                old(self).flows@.update(be32_at(handle@, 0), None)
            } else {
                old(self).flows@
            },
            final(self).flows_info@ == if r is Ok {
                old(self).flows_info@.update(be32_at(handle@, 0), None)
            } else {
                old(self).flows_info@
            },
    {
        match self.get_flow(handle) {
            Some(id) => {
                self.remove_flow_internal(id);
                Ok(id as usize)
            },
            None => Err(FlowError::NotFound),
        }
    }

    /// Removes a multicast flow; flows which receivers have asked for can be removed only with
    /// their handles.
    pub fn remove_multicast_flow(&mut self, index: u32) -> (r: Result<(), FlowError>)
        requires
            old(self).wf(),
        ensures
            final(self).wf(),
            final(self).flow_seq_id == old(self).flow_seq_id,
            r == if index >= MAX_FLOWS || old(self).flows_info@[index as int] is None {
                Err::<(), FlowError>(FlowError::NotFound)
            } else if old(self).flows_info@[index as int]->0.spec_is_multicast() {
                Ok(())
            } else {
                Err(FlowError::PermissionDenied)
            },
            final(self).flows@ == if r is Ok {
                old(self).flows@.update(index as int, None)
            } else {
                old(self).flows@
            },
            final(self).flows_info@ == if r is Ok {
                old(self).flows_info@.update(index as int, None)
            } else {
                old(self).flows_info@
            },
    {
        if index >= MAX_FLOWS {
            return Err(FlowError::NotFound);
        }
        let multicast: bool = match &self.flows_info[index as usize] {
            Some(info) => info.is_multicast(),
            None => {
                return Err(FlowError::NotFound);
            },
        };
        if multicast {
            self.remove_flow_internal(index);
            Ok(())
        } else {
            Err(FlowError::PermissionDenied)
        }
    }

    /// Changes the channels of the flow with the handle; returns its index.
    pub fn set_channels(&mut self, handle: FlowHandle, channel_indices: Vec<Option<usize>>) -> (r: Result<
        usize,
        FlowError,
    >)
        requires
            old(self).wf(),
        ensures
            final(self).wf(),
            final(self).flow_seq_id == old(self).flow_seq_id,
            final(self).flows@ == old(self).flows@,
            r == if old(self).is_handle(handle@) {
                Ok::<usize, FlowError>(be32_at(handle@, 0) as usize)
            } else {
                Err(FlowError::NotFound)
            },
            final(self).flows_info@ == if r is Ok {
                let index = be32_at(handle@, 0);
                old(self).flows_info@.update(
                    index,
                    Some(
                        FlowInfo {
                            local_channel_indices: channel_indices,
                            ..old(self).flows_info@[index]->0
                        },
                    ),
                )
            } else {
                old(self).flows_info@
            },
    {
        match self.get_flow(handle) {
            Some(index) => {
                let ghost info0 = self.flows_info@;
                assert(self.flows@[index as int] is Some);
                assert(info0[index as int] is Some);
                match &mut self.flows_info[index as usize] {
                    Some(info) => {
                        info.local_channel_indices = channel_indices;
                    },
                    None => {},
                }
                proof {
                    assert(self.flows_info@ =~= info0.update(index as int, self.flows_info@[index as int]));
                    assert forall|i: int|
                        #![trigger self.flows@[i]]
                        #![trigger self.flows_info@[i]]
                        0 <= i < MAX_FLOWS implies (self.flows@[i] is Some <==> self.flows_info@[i] is Some) by {
                        assert(old(self).flows@[i] is Some <==> old(self).flows_info@[i] is Some);
                    }
                }
                Ok(index as usize)
            },
            None => Err(FlowError::NotFound),
        }
    }

    pub fn is_empty(&self) -> (empty: bool)
        ensures
            empty == forall|i: int| 0 <= i < self.flows@.len() ==> #[trigger] self.flows@[i] is None,
    {
        let mut i: usize = 0;
        while i < self.flows.len()
            invariant
                i <= self.flows@.len(),
                forall|k: int| 0 <= k < i ==> #[trigger] self.flows@[k] is None,
            decreases self.flows@.len() - i,
        {
            if self.flows[i].is_some() {
                assert(self.flows@[i as int] is Some);
                return false;
            }
            i = i + 1;
        }
        true
    }

    pub fn get_flows_info(&self) -> (info: &Vec<Option<FlowInfo>>)
        ensures
            *info == self.flows_info,
    {
        &self.flows_info
    }
}

proof fn lemma_unused_is_found(flows: Seq<Option<FlowData>>, seq_id: u32, from: int, k: int)
    requires
        flows.len() == MAX_FLOWS,
        0 <= from <= k <= MAX_FLOWS,
        flows[tried_index(seq_id, k)] is None,
    ensures
        tries_until_unused(flows, seq_id, from) is Some,
        from <= tries_until_unused(flows, seq_id, from)->0 <= k,
        flows[tried_index(seq_id, tries_until_unused(flows, seq_id, from)->0)] is None,
    decreases k - from,
{
    if flows[tried_index(seq_id, from)] is Some {
        lemma_unused_is_found(flows, seq_id, from + 1, k);
    }
}

/// As long as any flow is unused, an unused one is found.
pub proof fn unused_flow_is_found(flows: Seq<Option<FlowData>>, seq_id: u32, unused: int)
    requires
        flows.len() == MAX_FLOWS,
        0 <= unused < MAX_FLOWS,
        flows[unused] is None,
    ensures
        tries_until_unused(flows, seq_id, 0) is Some,
        flows[tried_index(seq_id, tries_until_unused(flows, seq_id, 0)->0)] is None,
{
    let k = (unused - seq_id) % MAX_FLOWS as int;
    assert(tried_index(seq_id, k) == unused);
    lemma_unused_is_found(flows, seq_id, 0, k);
}

/// The handle returned for a new flow is the handle of that flow.
pub proof fn new_handle_is_valid(table: FlowsTransmitter, index: u32, cookie: u16)
    requires
        index < MAX_FLOWS,
        table.flows@.len() == MAX_FLOWS,
        table.flows@[index as int] is Some,
        table.flows@[index as int]->0.cookie == cookie,
    ensures
        table.is_handle(handle_of(index, cookie)),
{
    handle_is_split_again(index, cookie);
}

} // verus!
