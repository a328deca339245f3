//! The server side of a SOCKS5 handshake (no authentication, `CONNECT`
//! only), as a state machine: each step takes exactly the bytes the
//! previous step asked for and says what to answer and how many bytes to
//! read next, until the target address is known or the client is refused.

use vstd::prelude::*;

verus! {

broadcast use vstd::slice::group_slice_axioms;

/// Target address named in a SOCKS5 request.
#[derive(Debug, Clone)]
pub enum SocksAddr {
    V4([u8; 4]),
    Domain(Vec<u8>),
    V6([u8; 16]),
}

/// Plain-value form of a `SocksAddr`.
pub ghost enum AddrView {
    V4(Seq<u8>),
    Domain(Seq<u8>),
    V6(Seq<u8>),
}

impl View for SocksAddr {
    type V = AddrView;

    open spec fn view(&self) -> AddrView {
        match self {
            SocksAddr::V4(a) => AddrView::V4(a@),
            SocksAddr::Domain(d) => AddrView::Domain(d@),
            SocksAddr::V6(a) => AddrView::V6(a@),
        }
    }
}

/// What the handshake waits for next.
#[derive(Debug)]
pub enum SocksState {
    /// Version and number of methods.
    Greeting,
    /// The offered methods.
    Methods,
    /// Version, command, reserved byte, address type.
    Request,
    Ipv4Addr,
    DomainLen,
    Domain,
    Ipv6Addr,
    /// The port, after this address.
    Port(SocksAddr),
    /// Nothing: the handshake is over.
    Done,
}

pub ghost enum StateView {
    Greeting,
    Methods,
    Request,
    Ipv4Addr,
    DomainLen,
    Domain,
    Ipv6Addr,
    Port(AddrView),
    Done,
}

impl View for SocksState {
    type V = StateView;

    open spec fn view(&self) -> StateView {
        match self {
            SocksState::Greeting => StateView::Greeting,
            SocksState::Methods => StateView::Methods,
            SocksState::Request => StateView::Request,
            SocksState::Ipv4Addr => StateView::Ipv4Addr,
            SocksState::DomainLen => StateView::DomainLen,
            SocksState::Domain => StateView::Domain,
            SocksState::Ipv6Addr => StateView::Ipv6Addr,
            SocksState::Port(a) => StateView::Port(a@),
            SocksState::Done => StateView::Done,
        }
    }
}

/// What to do after a step.
#[derive(Debug)]
pub enum SocksAction {
    /// Write `reply` (if not empty), then read exactly `read` bytes and
    /// feed them to the next step.
    Continue { reply: Vec<u8>, read: usize },
    /// Write `reply`, then close.
    ReplyAndClose(Vec<u8>),
    /// Close without answering.
    Close,
    /// The client asks to connect to this address and port.
    Connect(SocksAddr, u16),
}

pub ghost enum ActionView {
    Continue(Seq<u8>, nat),
    ReplyAndClose(Seq<u8>),
    Close,
    Connect(AddrView, u16),
}

impl View for SocksAction {
    type V = ActionView;

    open spec fn view(&self) -> ActionView {
        match self {
            SocksAction::Continue { reply, read } => ActionView::Continue(reply@, *read as nat),
            SocksAction::ReplyAndClose(r) => ActionView::ReplyAndClose(r@),
            SocksAction::Close => ActionView::Close,
            SocksAction::Connect(a, p) => ActionView::Connect(a@, *p),
        }
    }
}

/// Method accepted: no authentication.
pub open spec fn method_accepted() -> Seq<u8> {
    seq![5u8, 0u8]
}

/// No acceptable method offered.
pub open spec fn no_acceptable_method() -> Seq<u8> {
    seq![5u8, 0xFFu8]
}

/// Command not supported (anything but `CONNECT`, or a bad version).
pub open spec fn command_not_supported() -> Seq<u8> {
    seq![5u8, 7u8, 0u8, 1u8, 0u8, 0u8, 0u8, 0u8, 0u8, 0u8]
}

/// Connection established (bound address left zero).
pub open spec fn request_granted() -> Seq<u8> {
    seq![5u8, 0u8, 0u8, 1u8, 0u8, 0u8, 0u8, 0u8, 0u8, 0u8]
}

/// Host unreachable.
pub open spec fn host_unreachable() -> Seq<u8> {
    seq![5u8, 4u8, 0u8, 1u8, 0u8, 0u8, 0u8, 0u8, 0u8, 0u8]
}

/// One handshake step: the state and exactly the bytes it asked for give
/// the next state and what to do.
pub open spec fn step_spec(s: StateView, input: Seq<u8>) -> (StateView, ActionView) {
    match s {
        StateView::Greeting => if input[0] != 5 {
            (StateView::Done, ActionView::Close)
        } else {
            (StateView::Methods, ActionView::Continue(Seq::empty(), input[1] as nat))
        },
        StateView::Methods => if input.contains(0u8) {
            (StateView::Request, ActionView::Continue(method_accepted(), 4))
        } else {
            (StateView::Done, ActionView::ReplyAndClose(no_acceptable_method()))
        },
        StateView::Request => if input[0] != 5 || input[1] != 1 {
            (StateView::Done, ActionView::ReplyAndClose(command_not_supported()))
        } else if input[3] == 1 {
            (StateView::Ipv4Addr, ActionView::Continue(Seq::empty(), 4))
        } else if input[3] == 3 {
            (StateView::DomainLen, ActionView::Continue(Seq::empty(), 1))
        } else if input[3] == 4 {
            (StateView::Ipv6Addr, ActionView::Continue(Seq::empty(), 16))
        } else {
            (StateView::Done, ActionView::Close)
        },
        StateView::Ipv4Addr => (StateView::Port(AddrView::V4(input)), ActionView::Continue(Seq::empty(), 2)),
        StateView::DomainLen => (StateView::Domain, ActionView::Continue(Seq::empty(), input[0] as nat)),
        StateView::Domain => (StateView::Port(AddrView::Domain(input)), ActionView::Continue(Seq::empty(), 2)),
        StateView::Ipv6Addr => (StateView::Port(AddrView::V6(input)), ActionView::Continue(Seq::empty(), 2)),
        StateView::Port(a) => (StateView::Done, ActionView::Connect(a, ((input[0] as int) * 256 + (input[1] as int)) as u16)),
        StateView::Done => (StateView::Done, ActionView::Close),
    }
}


/// The input a state takes has the length the previous step asked for
/// (the fixed-size fields are checked here; `read_exact` delivers them).
pub open spec fn input_fits(s: StateView, input: Seq<u8>) -> bool {
    match s {
        StateView::Greeting => input.len() == 2,
        StateView::Request => input.len() == 4,
        StateView::Ipv4Addr => input.len() == 4,
        StateView::DomainLen => input.len() == 1,
        StateView::Ipv6Addr => input.len() == 16,
        StateView::Port(_) => input.len() == 2,
        _ => true,
    }
}

fn bytes_of(b: &[u8]) -> (r: Vec<u8>)
    ensures
        r@ == b@,
{
    vstd::slice::slice_to_vec(b)
}

/// The reply granting a request.
pub fn granted_reply() -> (r: Vec<u8>)
    ensures
        r@ == request_granted(),
{
    let a: [u8; 10] = [5, 0, 0, 1, 0, 0, 0, 0, 0, 0];
    assert(a@ =~= request_granted());
    bytes_of(a.as_slice())
}

/// The reply refusing a request whose target could not be reached.
pub fn unreachable_reply() -> (r: Vec<u8>)
    ensures
        r@ == host_unreachable(),
{
    let a: [u8; 10] = [5, 4, 0, 1, 0, 0, 0, 0, 0, 0];
    assert(a@ =~= host_unreachable());
    bytes_of(a.as_slice())
}

fn has_zero(input: &[u8]) -> (r: bool)
    ensures
        r == input@.contains(0u8),
{
    let mut i: usize = 0;
    while i < input.len()
        invariant
            i <= input@.len(),
            forall|k: int| 0 <= k < i ==> input@[k] != 0u8,
        decreases input@.len() - i,
    {
        if input[i] == 0 {
            assert(input@[i as int] == 0u8);
            return true;
        }
        i = i + 1;
    }
    false
}

impl SocksState {
    /// A new handshake: wait for the 2-byte greeting.
    pub fn start() -> (r: (SocksState, usize))
        ensures
            r.0@ == StateView::Greeting,
            r.1 == 2,
    {
        (SocksState::Greeting, 2)
    }

    /// Takes the bytes this state asked for.
    pub fn step(self, input: &[u8]) -> (r: (SocksState, SocksAction))
        requires
            input_fits(self@, input@),
        ensures
            r.0@ == step_spec(self@, input@).0,
            r.1@ == step_spec(self@, input@).1,
            r.1 matches SocksAction::Continue { reply: _, read: n } ==> input_fits(r.0@, Seq::new(n as nat, |i: int| 0u8)),
    {
        let empty: Vec<u8> = Vec::new();
        assert(empty@ =~= Seq::<u8>::empty());
        match self {
            SocksState::Greeting => {
                if input[0] != 5 {
                    (SocksState::Done, SocksAction::Close)
                } else {
                    (SocksState::Methods, SocksAction::Continue { reply: empty, read: input[1] as usize })
                }
            },
            SocksState::Methods => {
                if has_zero(input) {
                    let a: [u8; 2] = [5, 0];
                    assert(a@ =~= method_accepted());
                    (SocksState::Request, SocksAction::Continue { reply: bytes_of(a.as_slice()), read: 4 })
                } else {
                    let a: [u8; 2] = [5, 0xFF];
                    assert(a@ =~= no_acceptable_method());
                    (SocksState::Done, SocksAction::ReplyAndClose(bytes_of(a.as_slice())))
                }
            },
            SocksState::Request => {
                if input[0] != 5 || input[1] != 1 {
                    let a: [u8; 10] = [5, 7, 0, 1, 0, 0, 0, 0, 0, 0];
                    assert(a@ =~= command_not_supported());
                    (SocksState::Done, SocksAction::ReplyAndClose(bytes_of(a.as_slice())))
                } else if input[3] == 1 {
                    (SocksState::Ipv4Addr, SocksAction::Continue { reply: empty, read: 4 })
                } else if input[3] == 3 {
                    (SocksState::DomainLen, SocksAction::Continue { reply: empty, read: 1 })
                } else if input[3] == 4 {
                    (SocksState::Ipv6Addr, SocksAction::Continue { reply: empty, read: 16 })
                } else {
                    (SocksState::Done, SocksAction::Close)
                }
            },
            SocksState::Ipv4Addr => {
                let a: [u8; 4] = [input[0], input[1], input[2], input[3]];
                assert(a@ =~= input@);
                (SocksState::Port(SocksAddr::V4(a)), SocksAction::Continue { reply: empty, read: 2 })
            },
            SocksState::DomainLen => {
                (SocksState::Domain, SocksAction::Continue { reply: empty, read: input[0] as usize })
            },
            SocksState::Domain => {
                (SocksState::Port(SocksAddr::Domain(bytes_of(input))), SocksAction::Continue { reply: empty, read: 2 })
            },
            SocksState::Ipv6Addr => {
                let a: [u8; 16] = [
                    input[0], input[1], input[2], input[3], input[4], input[5], input[6], input[7],
                    input[8], input[9], input[10], input[11], input[12], input[13], input[14], input[15],
                ];
                assert(a@ =~= input@);
                (SocksState::Port(SocksAddr::V6(a)), SocksAction::Continue { reply: empty, read: 2 })
            },
            SocksState::Port(addr) => {
                let port: u16 = (input[0] as u16) * 256 + (input[1] as u16);
                (SocksState::Done, SocksAction::Connect(addr, port))
            },
            SocksState::Done => (SocksState::Done, SocksAction::Close),
        }
    }
}


/// The actions a handshake takes, feeding `inputs` one by one from state `s`.
pub open spec fn handshake_spec(s: StateView, inputs: Seq<Seq<u8>>) -> (StateView, Seq<ActionView>)
    decreases inputs.len(),
{
    if inputs.len() == 0 {
        (s, Seq::empty())
    } else {
        let (s1, a1) = step_spec(s, inputs[0]);
        let (s2, rest) = handshake_spec(s1, inputs.drop_first());
        (s2, seq![a1] + rest)
    }
}

/// A client that offers "no authentication" and asks to `CONNECT` to a
/// domain name gets exactly one answer during the handshake, the method
/// choice `[5, 0]`, and the handshake ends with that domain and port as the
/// target.
pub proof fn law_socks_connect_by_domain(methods: Seq<u8>, reserved: u8, domain: Seq<u8>, hi: u8, lo: u8)
    requires
        methods.contains(0u8),
        methods.len() <= 255,
        domain.len() <= 255,
    ensures
        handshake_spec(
            StateView::Greeting,
            seq![
                seq![5u8, methods.len() as u8],
                methods,
                seq![5u8, 1u8, reserved, 3u8],
                seq![domain.len() as u8],
                domain,
                seq![hi, lo],
            ],
        ) == (StateView::Done, seq![
            ActionView::Continue(Seq::empty(), methods.len()),
            ActionView::Continue(method_accepted(), 4),
            ActionView::Continue(Seq::empty(), 1),
            ActionView::Continue(Seq::empty(), domain.len()),
            ActionView::Continue(Seq::empty(), 2),
            ActionView::Connect(AddrView::Domain(domain), ((hi as int) * 256 + (lo as int)) as u16),
        ]),
{
    let inputs = seq![
        seq![5u8, methods.len() as u8],
        methods,
        seq![5u8, 1u8, reserved, 3u8],
        seq![domain.len() as u8],
        domain,
        seq![hi, lo],
    ];
    assert(inputs.drop_first().drop_first().drop_first().drop_first().drop_first().drop_first() =~= Seq::<Seq<u8>>::empty());
    reveal_with_fuel(handshake_spec, 7);
    assert(inputs.drop_first()[0] == methods);
    assert(inputs.drop_first().drop_first()[0] == seq![5u8, 1u8, reserved, 3u8]);
    assert(inputs.drop_first().drop_first().drop_first()[0] == seq![domain.len() as u8]);
    assert(inputs.drop_first().drop_first().drop_first().drop_first()[0] == domain);
    assert(inputs.drop_first().drop_first().drop_first().drop_first().drop_first()[0] == seq![hi, lo]);
    let (_, acts) = handshake_spec(StateView::Greeting, inputs);
    assert(acts =~= seq![
        ActionView::Continue(Seq::empty(), methods.len()),
        ActionView::Continue(method_accepted(), 4),
        ActionView::Continue(Seq::empty(), 1),
        ActionView::Continue(Seq::empty(), domain.len()),
        ActionView::Continue(Seq::empty(), 2),
        ActionView::Connect(AddrView::Domain(domain), ((hi as int) * 256 + (lo as int)) as u16),
    ]);
}

/// A client that offers "no authentication" and asks to `CONNECT` to an
/// IPv4 address gets exactly one answer during the handshake, the method
/// choice `[5, 0]`, and the handshake ends with the four address bytes, as
/// sent and in order, and the port `hi * 256 + lo` as the target.
pub proof fn law_socks_connect_by_ipv4(methods: Seq<u8>, reserved: u8, a: Seq<u8>, hi: u8, lo: u8)
    requires
        methods.contains(0u8),
        methods.len() <= 255,
        a.len() == 4,
    ensures
        handshake_spec(
            StateView::Greeting,
            seq![
                seq![5u8, methods.len() as u8],
                methods,
                seq![5u8, 1u8, reserved, 1u8],
                a,
                seq![hi, lo],
            ],
        ) == (StateView::Done, seq![
            ActionView::Continue(Seq::empty(), methods.len()),
            ActionView::Continue(method_accepted(), 4),
            ActionView::Continue(Seq::empty(), 4),
            ActionView::Continue(Seq::empty(), 2),
            ActionView::Connect(AddrView::V4(seq![a[0], a[1], a[2], a[3]]), ((hi as int) * 256 + (lo as int)) as u16),
        ]),
{
    let inputs = seq![
        seq![5u8, methods.len() as u8],
        methods,
        seq![5u8, 1u8, reserved, 1u8],
        a,
        seq![hi, lo],
    ];
    assert(inputs.drop_first().drop_first().drop_first().drop_first().drop_first() =~= Seq::<Seq<u8>>::empty());
    reveal_with_fuel(handshake_spec, 6);
    assert(inputs.drop_first()[0] == methods);
    assert(inputs.drop_first().drop_first()[0] == seq![5u8, 1u8, reserved, 1u8]);
    assert(inputs.drop_first().drop_first().drop_first()[0] == a);
    assert(inputs.drop_first().drop_first().drop_first().drop_first()[0] == seq![hi, lo]);
    assert(seq![a[0], a[1], a[2], a[3]] =~= a);
    let (_, acts) = handshake_spec(StateView::Greeting, inputs);
    assert(acts =~= seq![
        ActionView::Continue(Seq::empty(), methods.len()),
        ActionView::Continue(method_accepted(), 4),
        ActionView::Continue(Seq::empty(), 4),
        ActionView::Continue(Seq::empty(), 2),
        ActionView::Connect(AddrView::V4(a), ((hi as int) * 256 + (lo as int)) as u16),
    ]);
}

/// A client that offers "no authentication" and asks to `CONNECT` to an
/// IPv6 address gets exactly one answer during the handshake, the method
/// choice `[5, 0]`, and the handshake ends with the sixteen address bytes, as
/// sent and in order, and the port `hi * 256 + lo` as the target.
pub proof fn law_socks_connect_by_ipv6(methods: Seq<u8>, reserved: u8, a: Seq<u8>, hi: u8, lo: u8)
    requires
        methods.contains(0u8),
        methods.len() <= 255,
        a.len() == 16,
    ensures
        handshake_spec(
            StateView::Greeting,
            seq![
                seq![5u8, methods.len() as u8],
                methods,
                seq![5u8, 1u8, reserved, 4u8],
                a,
                seq![hi, lo],
            ],
        ) == (StateView::Done, seq![
            ActionView::Continue(Seq::empty(), methods.len()),
            ActionView::Continue(method_accepted(), 4),
            ActionView::Continue(Seq::empty(), 16),
            ActionView::Continue(Seq::empty(), 2),
            ActionView::Connect(AddrView::V6(a), ((hi as int) * 256 + (lo as int)) as u16),
        ]),
{
    let inputs = seq![
        seq![5u8, methods.len() as u8],
        methods,
        seq![5u8, 1u8, reserved, 4u8],
        a,
        seq![hi, lo],
    ];
    assert(inputs.drop_first().drop_first().drop_first().drop_first().drop_first() =~= Seq::<Seq<u8>>::empty());
    reveal_with_fuel(handshake_spec, 6);
    assert(inputs.drop_first()[0] == methods);
    assert(inputs.drop_first().drop_first()[0] == seq![5u8, 1u8, reserved, 4u8]);
    assert(inputs.drop_first().drop_first().drop_first()[0] == a);
    assert(inputs.drop_first().drop_first().drop_first().drop_first()[0] == seq![hi, lo]);
    let (_, acts) = handshake_spec(StateView::Greeting, inputs);
    assert(acts =~= seq![
        ActionView::Continue(Seq::empty(), methods.len()),
        ActionView::Continue(method_accepted(), 4),
        ActionView::Continue(Seq::empty(), 16),
        ActionView::Continue(Seq::empty(), 2),
        ActionView::Connect(AddrView::V6(a), ((hi as int) * 256 + (lo as int)) as u16),
    ]);
}

/// A request that is not a version-5 `CONNECT` is answered "command not
/// supported" and the handshake ends; a greeting of another version is
/// closed without an answer.
pub proof fn law_socks_refuses_other_requests(version: u8, command: u8, reserved: u8, atyp: u8, n: u8)
    ensures
        version != 5 || command != 1 ==> step_spec(StateView::Request, seq![version, command, reserved, atyp])
            == (StateView::Done, ActionView::ReplyAndClose(command_not_supported())),
        version != 5 ==> step_spec(StateView::Greeting, seq![version, n]) == (StateView::Done, ActionView::Close),
{
}

/// A client that does not offer "no authentication" is answered `[5, 0xFF]`
/// and the handshake ends.
pub proof fn law_socks_refuses_other_methods(methods: Seq<u8>)
    requires
        !methods.contains(0u8),
    ensures
        step_spec(StateView::Methods, methods) == (StateView::Done, ActionView::ReplyAndClose(no_acceptable_method())),
{
}

} // verus!
