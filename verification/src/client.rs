//! Client-side and demo-server decisions: reporting a connection once it is ready, finding a
//! free local port, the join URLs, the loading screen and the demo's ping-pong reply.

use vstd::prelude::*;

verus! {

/// A change of the client's connection to the server.
#[derive(Clone, Copy, Debug, PartialEq, Eq, Structural)]
pub enum ClientConnectionEvent {
    Connected(usize),
    Disconnected(usize),
}

/// Whether the client was ready at the last update.
pub struct ClientSystemState {
    is_ready: bool,
}

impl ClientSystemState {
    pub closed spec fn spec_is_ready(&self) -> bool {
        self.is_ready
    }

    /// The state before the first update: not ready.
    pub fn new() -> (state: ClientSystemState)
        ensures
            !state.spec_is_ready(),
    {
        ClientSystemState { is_ready: false }
    }

    /// Follows the client's readiness after an update (`Some(client_id)` when ready) and
    /// reports `Connected` exactly when it has just become ready.
    pub fn update(&mut self, ready_client_id: Option<usize>) -> (event: Option<ClientConnectionEvent>)
        ensures
            final(self).spec_is_ready() == ready_client_id is Some,
            match ready_client_id {
                Some(id) => if old(self).spec_is_ready() { event is None } else { event == Some(ClientConnectionEvent::Connected(id)) },
                None => event is None,
            },
    {
        match ready_client_id {
            Some(id) => {
                let event = if !self.is_ready { Some(ClientConnectionEvent::Connected(id)) } else { None };
                self.is_ready = true;
                event
            },
            None => {
                self.is_ready = false;
                None
            },
        }
    }
}

/// The event a network disconnection of a connection handle becomes.
pub fn disconnection_event(handle: u32) -> (event: ClientConnectionEvent)
    ensures
        event == ClientConnectionEvent::Disconnected(handle as usize),
{
    ClientConnectionEvent::Disconnected(handle as usize)
}

/// The first port from 1025 up to (not including) 65535 that the probe reports as free.
pub fn find_available_port<F: Fn(u16) -> bool>(is_available: F) -> (port: Option<u16>)
    requires
        forall|p: u16| #[trigger] is_available.requires((p,)),
    ensures
        match port {
            Some(p) => 1025 <= p < 65535 && is_available.ensures((p,), true)
                && forall|q: u16| 1025 <= q < p ==> #[trigger] is_available.ensures((q,), false),
            None => forall|q: u16| 1025 <= q < 65535 ==> #[trigger] is_available.ensures((q,), false),
        },
{
    let mut p: u16 = 1025;
    while p < 65535
        invariant
            1025 <= p <= 65535,
            forall|q: u16| #[trigger] is_available.requires((q,)),
            forall|q: u16| 1025 <= q < p ==> #[trigger] is_available.ensures((q,), false),
        decreases 65535 - p,
    {
        if is_available(p) {
            return Some(p);
        }
        p = p + 1;
    }
    None
}

/// The bytes of the demo server's ping message.
pub open spec fn ping_bytes() -> Seq<u8> {
    seq![112u8, 105, 110, 103]
}

/// The bytes of the demo server's reply to a ping.
pub open spec fn pong_bytes() -> Seq<u8> {
    seq![112u8, 111, 110, 103]
}

/// The demo server answers a packet reading `ping` with `pong` and ignores everything else.
pub fn ping_reply(payload: &[u8]) -> (reply: Option<Vec<u8>>)
    ensures
        payload@ == ping_bytes() ==> (reply matches Some(r) && r@ == pong_bytes()),
        payload@ != ping_bytes() ==> reply is None,
{
    let ping: Vec<u8> = vec![112u8, 105, 110, 103];
    let mut same = payload.len() == ping.len();
    let mut i: usize = 0;
    if same {
        while i < ping.len()
            invariant
                payload@.len() == ping@.len(),
                i <= ping.len(),
                ping@ == ping_bytes(),
                same == forall|j: int| 0 <= j < i ==> payload@[j] == ping@[j],
            decreases ping.len() - i,
        {
            if payload[i] != ping[i] {
                same = false;
            }
            i = i + 1;
        }
    }
    proof {
        if same {
            assert(payload@ =~= ping@);
        }
    }
    if same {
        let pong: Vec<u8> = vec![112u8, 111, 110, 103];
        Some(pong)
    } else {
        None
    }
}

/// The server path that a client joins a room through: `http://dango-daikazoku.herokuapp.com/join/`
/// followed by the room's id.
pub open spec fn join_url_prefix() -> Seq<char> {
    "http://dango-daikazoku.herokuapp.com/join/"@
}

/// The URL a client posts its offer to in order to join a room.
pub fn join_endpoint_url(host_id: &str) -> (url: String)
    ensures
        url@ == join_url_prefix() + host_id@,
{
    let mut url = "http://dango-daikazoku.herokuapp.com/join/".to_string();
    proof {
        vstd::string::to_string_from_display_ensures_for_str("http://dango-daikazoku.herokuapp.com/join/", url);
    }
    url.append(host_id);
    url
}

/// The page a host shares, relative to its own page: `../client/?join=` followed by the
/// room's id.
pub open spec fn shareable_url_prefix() -> Seq<char> {
    "../client/?join="@
}

/// The relative URL that a host shares so that others can join its room.
pub fn shareable_relative_url(endpoint_id: &str) -> (url: String)
    ensures
        url@ == shareable_url_prefix() + endpoint_id@,
{
    let mut url = "../client/?join=".to_string();
    proof {
        vstd::string::to_string_from_display_ensures_for_str("../client/?join=", url);
    }
    url.append(endpoint_id);
    url
}

/// Whether all audio has loaded: at least one audio source is registered and every one of
/// them has loaded.
pub fn all_audio_loaded(loaded: &Vec<bool>) -> (all: bool)
    ensures
        all == (loaded.len() > 0 && forall|i: int| 0 <= i < loaded.len() ==> #[trigger] loaded[i]),
{
    let mut all = false;
    let mut i: usize = 0;
    while i < loaded.len()
        invariant
            i <= loaded.len(),
            all == (i > 0),
            forall|j: int| 0 <= j < i ==> #[trigger] loaded[j],
        decreases loaded.len() - i,
    {
        all = true;
        if !loaded[i] {
            return false;
        }
        i = i + 1;
    }
    all
}

/// The class name of the status indicator for a connection event.
pub fn status_class_name(event: &ClientConnectionEvent) -> (name: &'static str)
    ensures
        event is Connected ==> name@ == "status-connected"@,
        event is Disconnected ==> name@ == "status-disconnected"@,
{
    match event {
        ClientConnectionEvent::Connected(_) => "status-connected",
        ClientConnectionEvent::Disconnected(_) => "status-disconnected",
    }
}

/// The prefix of the class that marks a part of the loading screen as done.
pub open spec fn load_complete_prefix() -> Seq<char> {
    "load-complete-"@
}

/// The class added to the loading screen once a component (audio, shaders, connection) has
/// finished loading: `load-complete-` followed by the component's name.
pub fn load_complete_class(component_name: &str) -> (class: String)
    ensures
        class@ == load_complete_prefix() + component_name@,
{
    let mut class = "load-complete-".to_string();
    proof {
        vstd::string::to_string_from_display_ensures_for_str("load-complete-", class);
    }
    class.append(component_name);
    class
}

} // verus!
