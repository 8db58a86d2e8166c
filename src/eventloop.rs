//! The decisions of the event loop, which alone drives the device.
//!
//! Every event, whatever its source, reaches the loop through one queue and is
//! handled to completion before the next one is taken: the loop asks the
//! device for at most one thing at a time. The loop itself performs no I/O:
//! `handle_event` turns an event into either an immediate response or one
//! device command, and `complete` turns the device's reply to that command
//! into the response, if any, owed to the event's sender.

use vstd::prelude::*;
use crate::aggregate::DnsServers;
use crate::dns::{consolidate, DnsServer};
use crate::protocol::{
    port_ids, static_servers, static_servers_of, widen_ports, ErrorCode, Id, IpAddress, LifInfo,
    LifRole, PortInfo, RouterError, SecurityFeatures,
};

verus! {

/// Administrative operations that are acknowledged as not supported.
#[derive(Clone, Copy, Debug, PartialEq, Eq, Structural)]
pub enum UnsupportedAdmin {
    SetDhcpServerOptions,
    SetDhcpAddressPool,
    SetDhcpReservation,
    DeleteDhcpReservation,
    SetDnsForwarder,
    AddDnsEntry,
    DeleteDnsEntry,
    SetRoute,
    UpdateRouteMetric,
    DeleteRoute,
    SetPortForward,
    DeletePortForward,
    SetPortTrigger,
    DeletePortTrigger,
    SetIpv6PinHole,
    DeleteIpv6PinHole,
    SetDmzHost,
    DeleteDmzHost,
    SetSystemConfig,
    CreateWlanNetwork,
    DeleteWlanNetwork,
}

/// State queries that are answered with "not supported".
#[derive(Clone, Copy, Debug, PartialEq, Eq, Structural)]
pub enum UnsupportedQuery {
    GetWanProperties,
    GetLanProperties,
    GetDhcpConfig,
    GetRoute,
    GetPortForward,
    GetPort,
    GetPortTrigger,
    GetFilter,
    GetIpv6PinHole,
    GetDmzHost,
}

/// State queries whose answer is always an empty list or a default value.
#[derive(Clone, Copy, Debug, PartialEq, Eq, Structural)]
pub enum EmptyQuery {
    GetDnsForwarder,
    GetRoutes,
    GetPortForwards,
    GetPortTriggers,
    GetIpv6PinHoles,
    GetSystemConfig,
    GetDevice,
    GetWlanNetworks,
    GetRadios,
}

/// A request of the administrative (mutation) protocol.
#[derive(Clone, Debug, PartialEq, Eq)]
pub enum AdminRequest {
    CreateWan { name: String, vlan: Option<u16>, ports: Vec<u32> },
    CreateLan { name: String, vlan: Option<u16>, ports: Vec<u32> },
    RemoveWan { wan_id: Id },
    RemoveLan { lan_id: Id },
    SetWanProperties { wan_id: Id, properties: Vec<u8> },
    SetLanProperties { lan_id: Id, properties: Vec<u8> },
    SetDnsResolver { servers: Vec<IpAddress> },
    SetSecurityFeatures { features: SecurityFeatures },
    SetFilter { rule: Vec<u8> },
    DeleteFilter { rule_id: Id },
    Unsupported(UnsupportedAdmin),
}

/// A request of the state-query protocol.
#[derive(Clone, Debug, PartialEq, Eq)]
pub enum StateRequest {
    GetWanPorts { wan_id: Id },
    GetLanPorts { lan_id: Id },
    GetWan { wan_id: Id },
    GetLan { lan_id: Id },
    GetWans,
    GetLans,
    GetDnsResolver,
    GetSecurityFeatures,
    GetPorts,
    GetFilters,
    Unsupported(UnsupportedQuery),
    Empty(EmptyQuery),
}

/// Everything the loop reacts to, one variant per source.
#[derive(Clone, Debug, PartialEq, Eq)]
pub enum Event {
    Admin(AdminRequest),
    State(StateRequest),
    /// A status change reported by the network stack, in its wire encoding.
    StackStatus(Vec<u8>),
    /// A status change reported by the netstack, in its wire encoding.
    NetstackStatus(Vec<u8>),
    /// A hardware hot-plug notification, in its wire encoding.
    Hotplug(Vec<u8>),
    /// A discovery origin's complete current list of DNS servers.
    DnsDiscovery { origin: String, servers: Vec<DnsServer> },
}

/// A request to the device.
#[derive(Clone, Debug, PartialEq, Eq)]
pub enum Command {
    LoadConfig,
    StartServices,
    PopulateState,
    CreateLif { role: LifRole, name: String, vlan: Option<u16>, ports: Vec<u64> },
    DeleteLif { id: u128 },
    UpdateLifProperties { id: u128, role: LifRole, properties: Vec<u8> },
    SetResolvers { servers: Vec<DnsServer> },
    SetNat { enabled: bool },
    /// Installs a filter rule on the interface given; 0 stands for all.
    SetFilter { rule: Vec<u8>, interface: u32 },
    DeleteFilter { rule_id: Id },
    LookupLif { id: u128 },
    ListLifs { role: LifRole },
    GetResolvers,
    IsNatEnabled,
    ListPorts,
    ListFilters,
    StackStatus { payload: Vec<u8> },
    NetstackStatus { payload: Vec<u8> },
    Hotplug { payload: Vec<u8> },
}

/// The device's answer to a command.
#[derive(Debug, PartialEq, Eq)]
pub enum DeviceReply {
    Done(Result<(), String>),
    Created(Result<Id, String>),
    Lif(Option<LifInfo>),
    Lifs(Vec<LifInfo>),
    Resolvers(Vec<DnsServer>),
    Nat(bool),
    Ports(Vec<PortInfo>),
    Filters(Result<Vec<Vec<u8>>, String>),
}

/// Reply to an administrative request: an identifier, an error, or neither.
#[derive(Clone, Debug, PartialEq, Eq)]
pub struct AdminResponse {
    pub id: Option<Id>,
    pub error: Option<RouterError>,
}

/// Reply to a state query.
#[derive(Clone, Debug, PartialEq, Eq)]
pub enum StateResponse {
    PortIds { ports: Vec<u32>, error: Option<RouterError> },
    Lif { lif: Option<LifInfo>, error: Option<RouterError> },
    Lifs(Vec<LifInfo>),
    DnsResolver(Vec<DnsServer>),
    SecurityFeatures(SecurityFeatures),
    Ports(Vec<PortInfo>),
    Filters(Vec<Vec<u8>>),
    /// An empty list or a default value.
    Empty,
    NotSupported,
}

#[derive(Clone, Debug, PartialEq, Eq)]
pub enum Response {
    Admin(AdminResponse),
    State(StateResponse),
}

/// What the loop does with an event: answer it now, or ask the device first.
#[derive(Clone, Debug, PartialEq, Eq)]
pub enum Dispatch {
    Respond(Response),
    Call(Command),
}

/// The kind of device reply the loop is waiting for, and what it will
/// answer once the reply is in.
#[derive(Clone, Copy, Debug, PartialEq, Eq, Structural)]
pub enum Pending {
    CreateLif,
    RemoveLif,
    SetLifProperties,
    SetResolvers,
    SetNat,
    SetFilter,
    DeleteFilter,
    LifPorts,
    Lif,
    Lifs,
    Resolvers,
    SecurityFeatures,
    Ports,
    Filters,
    /// An unsolicited notification forwarded to the device: nobody awaits an answer.
    Notification,
    /// The consolidated resolver list pushed to the device: nobody awaits an answer.
    ResolverPush,
}

#[derive(Clone, Copy, Debug, PartialEq, Eq, Structural)]
pub enum Phase {
    LoadingConfig,
    StartingServices,
    PopulatingState,
    Steady,
    Stopped,
}

pub open spec fn no_error() -> AdminResponse {
    AdminResponse { id: None, error: None }
}

pub open spec fn admin_error(code: ErrorCode, description: Option<String>) -> AdminResponse {
    AdminResponse { id: None, error: Some(RouterError { code, description }) }
}

pub open spec fn not_found() -> Option<RouterError> {
    Some(RouterError { code: ErrorCode::NotFound, description: None })
}

/// The command, and the reply awaited, through which the loop serves `e`;
/// `dns` is the aggregator's state once `e` is taken into account.
pub open spec fn calls_for(e: Event, dns: DnsServers, c: Command, p: Pending) -> bool {
    match e {
        Event::Admin(req) => match req {
            AdminRequest::CreateWan { name, vlan, ports } => {
                &&& c matches Command::CreateLif { role, name: n, vlan: v, ports: ps }
                &&& role == LifRole::Wan && n@ == name@ && v == vlan && ps@ == widen_ports(ports@)
                &&& p == Pending::CreateLif
            },
            AdminRequest::CreateLan { name, vlan, ports } => {
                &&& c matches Command::CreateLif { role, name: n, vlan: v, ports: ps }
                &&& role == LifRole::Lan && n@ == name@ && v == vlan && ps@ == widen_ports(ports@)
                &&& p == Pending::CreateLif
            },
            AdminRequest::RemoveWan { wan_id } => c == (Command::DeleteLif { id: wan_id.uuid })
                && p == Pending::RemoveLif,
            AdminRequest::RemoveLan { lan_id } => c == (Command::DeleteLif { id: lan_id.uuid })
                && p == Pending::RemoveLif,
            AdminRequest::SetWanProperties { wan_id, properties } => {
                &&& c matches Command::UpdateLifProperties { id, role, properties: pr }
                &&& id == wan_id.uuid && role == LifRole::Wan && pr@ == properties@
                &&& p == Pending::SetLifProperties
            },
            AdminRequest::SetLanProperties { lan_id, properties } => {
                &&& c matches Command::UpdateLifProperties { id, role, properties: pr }
                &&& id == lan_id.uuid && role == LifRole::Lan && pr@ == properties@
                &&& p == Pending::SetLifProperties
            },
            AdminRequest::SetDnsResolver { servers } => {
                &&& c matches Command::SetResolvers { servers: s }
                &&& s@ == static_servers(servers@)
                &&& p == Pending::SetResolvers
            },
            AdminRequest::SetSecurityFeatures { features } => {
                &&& features.nat matches Some(b)
                &&& c == (Command::SetNat { enabled: b })
                &&& p == Pending::SetNat
            },
            AdminRequest::SetFilter { rule } => {
                &&& c matches Command::SetFilter { rule: r, interface }
                &&& r@ == rule@ && interface == 0
                &&& p == Pending::SetFilter
            },
            AdminRequest::DeleteFilter { rule_id } => c == (Command::DeleteFilter { rule_id })
                && p == Pending::DeleteFilter,
            AdminRequest::Unsupported(_) => false,
        },
        Event::State(req) => match req {
            StateRequest::GetWanPorts { wan_id } => c == (Command::LookupLif { id: wan_id.uuid })
                && p == Pending::LifPorts,
            StateRequest::GetLanPorts { lan_id } => c == (Command::LookupLif { id: lan_id.uuid })
                && p == Pending::LifPorts,
            StateRequest::GetWan { wan_id } => c == (Command::LookupLif { id: wan_id.uuid })
                && p == Pending::Lif,
            StateRequest::GetLan { lan_id } => c == (Command::LookupLif { id: lan_id.uuid })
                && p == Pending::Lif,
            StateRequest::GetWans => c == (Command::ListLifs { role: LifRole::Wan }) && p
                == Pending::Lifs,
            StateRequest::GetLans => c == (Command::ListLifs { role: LifRole::Lan }) && p
                == Pending::Lifs,
            StateRequest::GetDnsResolver => c == Command::GetResolvers && p == Pending::Resolvers,
            StateRequest::GetSecurityFeatures => c == Command::IsNatEnabled && p
                == Pending::SecurityFeatures,
            StateRequest::GetPorts => c == Command::ListPorts && p == Pending::Ports,
            StateRequest::GetFilters => c == Command::ListFilters && p == Pending::Filters,
            StateRequest::Unsupported(_) => false,
            StateRequest::Empty(_) => false,
        },
        Event::StackStatus(payload) => {
            &&& c matches Command::StackStatus { payload: pl }
            &&& pl@ == payload@
            &&& p == Pending::Notification
        },
        Event::NetstackStatus(payload) => {
            &&& c matches Command::NetstackStatus { payload: pl }
            &&& pl@ == payload@
            &&& p == Pending::Notification
        },
        Event::Hotplug(payload) => {
            &&& c matches Command::Hotplug { payload: pl }
            &&& pl@ == payload@
            &&& p == Pending::Notification
        },
        Event::DnsDiscovery { .. } => {
            &&& c matches Command::SetResolvers { servers: s }
            &&& s@ == consolidate(dns.flat())
            &&& p == Pending::ResolverPush
        },
    }
}

/// The response given to `e` without consulting the device, if there is one.
pub open spec fn answers_at_once(e: Event, r: Response) -> bool {
    match e {
        Event::Admin(AdminRequest::SetSecurityFeatures { features }) => features.nat is None && r
            == Response::Admin(no_error()),
        Event::Admin(AdminRequest::Unsupported(_)) => r == Response::Admin(
            admin_error(ErrorCode::NotSupported, None),
        ),
        Event::State(StateRequest::Unsupported(_)) => r == Response::State(
            StateResponse::NotSupported,
        ),
        Event::State(StateRequest::Empty(_)) => r == Response::State(StateResponse::Empty),
        _ => false,
    }
}

/// `a` carries nothing but an internal error described by `msg`.
pub open spec fn is_internal_error(a: AdminResponse, msg: Seq<char>) -> bool {
    &&& a.id is None
    &&& match a.error {
        Some(e) => e.code == ErrorCode::Internal && match e.description {
            Some(d) => d@ == msg,
            None => false,
        },
        None => false,
    }
}

pub open spec fn filter_install_failed() -> Seq<char> {
    "Error installing new packet filter on all interfaces"@
}

pub open spec fn filter_delete_failed() -> Seq<char> {
    "Error deleting packet filter rule"@
}

pub open spec fn events_ended() -> Seq<char> {
    "Stream of events ended unexpectedly"@
}

/// Whether `reply` is of the kind awaited by `p`.
pub open spec fn reply_fits(p: Pending, reply: DeviceReply) -> bool {
    match p {
        Pending::CreateLif | Pending::SetResolvers | Pending::ResolverPush => reply is Created,
        Pending::LifPorts | Pending::Lif => reply is Lif,
        Pending::Lifs => reply is Lifs,
        Pending::Resolvers => reply is Resolvers,
        Pending::SecurityFeatures => reply is Nat,
        Pending::Ports => reply is Ports,
        Pending::Filters => reply is Filters,
        _ => reply is Done,
    }
}

/// The response owed once the device has answered `reply` to a command
/// awaiting `p`.
pub open spec fn completes(p: Pending, reply: DeviceReply, r: Option<Response>) -> bool {
    match reply {
        DeviceReply::Done(res) => match p {
            Pending::RemoveLif | Pending::SetLifProperties => r == Some(
                Response::Admin(
                    if res is Ok {
                        no_error()
                    } else {
                        AdminResponse { id: None, error: not_found() }
                    },
                ),
            ),
            Pending::SetNat => r == Some(
                Response::Admin(
                    match res {
                        Ok(_) => no_error(),
                        Err(d) => admin_error(ErrorCode::Internal, Some(d)),
                    },
                ),
            ),
            Pending::SetFilter => match r {
                Some(Response::Admin(a)) => match res {
                    Ok(_) => a == no_error(),
                    Err(_) => is_internal_error(a, filter_install_failed()),
                },
                _ => false,
            },
            Pending::DeleteFilter => match r {
                Some(Response::Admin(a)) => match res {
                    Ok(_) => a == no_error(),
                    Err(_) => is_internal_error(a, filter_delete_failed()),
                },
                _ => false,
            },
            _ => r is None,
        },
        DeviceReply::Created(res) => match p {
            Pending::CreateLif => r == Some(
                Response::Admin(
                    match res {
                        Ok(id) => AdminResponse { id: Some(id), error: None },
                        Err(_) => admin_error(ErrorCode::AlreadyExists, None),
                    },
                ),
            ),
            Pending::ResolverPush => r is None,
            _ => r == Some(
                Response::Admin(
                    match res {
                        Ok(id) => AdminResponse { id: Some(id), error: None },
                        Err(d) => admin_error(ErrorCode::Internal, Some(d)),
                    },
                ),
            ),
        },
        DeviceReply::Lif(lif) => match p {
            Pending::LifPorts => match lif {
                Some(l) => r == Some(
                    Response::State(StateResponse::PortIds { ports: l.ports, error: None }),
                ),
                None => match r {
                    Some(Response::State(StateResponse::PortIds { ports, error })) => ports@.len()
                        == 0 && error == not_found(),
                    _ => false,
                },
            },
            _ => r == Some(
                Response::State(
                    StateResponse::Lif {
                        lif,
                        error: if lif is Some {
                            None
                        } else {
                            not_found()
                        },
                    },
                ),
            ),
        },
        DeviceReply::Lifs(v) => r == Some(Response::State(StateResponse::Lifs(v))),
        DeviceReply::Resolvers(v) => r == Some(Response::State(StateResponse::DnsResolver(v))),
        DeviceReply::Nat(b) => r == Some(
            Response::State(StateResponse::SecurityFeatures(SecurityFeatures { nat: Some(b) })),
        ),
        DeviceReply::Ports(v) => r == Some(Response::State(StateResponse::Ports(v))),
        DeviceReply::Filters(res) => match res {
            Ok(v) => r == Some(Response::State(StateResponse::Filters(v))),
            Err(_) => match r {
                Some(Response::State(StateResponse::Filters(v))) => v@.len() == 0,
                _ => false,
            },
        },
    }
}

/// The loop's own state: where it is in its life, what the discovery
/// origins last reported, and the device reply it waits for, if any.
///
/// `pending` is set exactly while a device command is outstanding.
/// `handle_event` requires it clear and `complete` clears it, so a second
/// command is never issued before the first one has been answered.
pub struct EventLoop {
    pub phase: Phase,
    pub dns_servers: DnsServers,
    pub pending: Option<Pending>,
}

impl EventLoop {
    pub open spec fn wf(&self) -> bool {
        &&& self.dns_servers.wf()
        &&& self.pending is Some ==> self.phase == Phase::Steady
    }

    /// A loop about to load the persisted configuration.
    pub fn new() -> (r: EventLoop)
        ensures
            r.wf(),
            r.phase == Phase::LoadingConfig,
            r.pending is None,
            r.dns_servers.view() == Map::<Seq<char>, Seq<DnsServer>>::empty(),
    {
        EventLoop { phase: Phase::LoadingConfig, dns_servers: DnsServers::new(), pending: None }
    }

    pub open spec fn initializing(&self) -> bool {
        ||| self.phase == Phase::LoadingConfig
        ||| self.phase == Phase::StartingServices
        ||| self.phase == Phase::PopulatingState
    }

    /// The device command of the current initialization step.
    pub fn init_command(&self) -> (r: Command)
        requires
            self.initializing(),
        ensures
            self.phase == Phase::LoadingConfig ==> r == Command::LoadConfig,
            self.phase == Phase::StartingServices ==> r == Command::StartServices,
            self.phase == Phase::PopulatingState ==> r == Command::PopulateState,
    {
        match self.phase {
            Phase::LoadingConfig => Command::LoadConfig,
            Phase::StartingServices => Command::StartServices,
            _ => Command::PopulateState,
        }
    }

    /// Takes the outcome of the current initialization step. A configuration
    /// that fails to load leaves the defaults in place and initialization goes
    /// on; a failure to start the services or to populate the state stops the
    /// loop and is handed back.
    pub fn init_done(&mut self, result: Result<(), String>) -> (r: Result<(), String>)
        requires
            old(self).wf(),
            old(self).initializing(),
        ensures
            final(self).wf(),
            final(self).dns_servers == old(self).dns_servers,
            final(self).pending == old(self).pending,
            old(self).phase == Phase::LoadingConfig ==> final(self).phase == Phase::StartingServices
                && r is Ok,
            old(self).phase == Phase::StartingServices ==> if result is Ok {
                final(self).phase == Phase::PopulatingState && r is Ok
            } else {
                final(self).phase == Phase::Stopped && r == result
            },
            old(self).phase == Phase::PopulatingState ==> if result is Ok {
                final(self).phase == Phase::Steady && r is Ok
            } else {
                final(self).phase == Phase::Stopped && r == result
            },
    {
        match self.phase {
            Phase::LoadingConfig => {
                self.phase = Phase::StartingServices;
                Ok(())
            },
            Phase::StartingServices => {
                self.phase = if result.is_ok() {
                    Phase::PopulatingState
                } else {
                    Phase::Stopped
                };
                result
            },
            _ => {
                self.phase = if result.is_ok() {
                    Phase::Steady
                } else {
                    Phase::Stopped
                };
                result
            },
        }
    }

    /// The queue of events has ended: the loop stops, reporting why.
    pub fn end_of_stream(&mut self) -> (r: String)
        ensures
            final(self).phase == Phase::Stopped,
            final(self).dns_servers == old(self).dns_servers,
            final(self).pending == old(self).pending,
            r@ == events_ended(),
    {
        self.phase = Phase::Stopped;
        String::from_str("Stream of events ended unexpectedly")
    }

    fn await_reply(&mut self, p: Pending, c: Command) -> (r: Dispatch)
        ensures
            final(self).pending == Some(p),
            final(self).phase == old(self).phase,
            final(self).dns_servers == old(self).dns_servers,
            r == Dispatch::Call(c),
    {
        self.pending = Some(p);
        Dispatch::Call(c)
    }

    fn handle_admin(&mut self, req: AdminRequest) -> (r: Dispatch)
        requires
            old(self).pending is None,
        ensures
            final(self).phase == old(self).phase,
            final(self).dns_servers == old(self).dns_servers,
            match r {
                Dispatch::Call(c) => final(self).pending matches Some(p) && calls_for(
                    Event::Admin(req),
                    final(self).dns_servers,
                    c,
                    p,
                ),
                Dispatch::Respond(resp) => final(self).pending is None && answers_at_once(
                    Event::Admin(req),
                    resp,
                ),
            },
    {
        match req {
            AdminRequest::CreateWan { name, vlan, ports } => {
                let ports = port_ids(&ports);
                self.await_reply(
                    Pending::CreateLif,
                    Command::CreateLif { role: LifRole::Wan, name, vlan, ports },
                )
            },
            AdminRequest::CreateLan { name, vlan, ports } => {
                let ports = port_ids(&ports);
                self.await_reply(
                    Pending::CreateLif,
                    Command::CreateLif { role: LifRole::Lan, name, vlan, ports },
                )
            },
            AdminRequest::RemoveWan { wan_id } => {
                self.await_reply(Pending::RemoveLif, Command::DeleteLif { id: wan_id.uuid })
            },
            AdminRequest::RemoveLan { lan_id } => {
                self.await_reply(Pending::RemoveLif, Command::DeleteLif { id: lan_id.uuid })
            },
            AdminRequest::SetWanProperties { wan_id, properties } => {
                self.await_reply(
                    Pending::SetLifProperties,
                    Command::UpdateLifProperties { id: wan_id.uuid, role: LifRole::Wan, properties },
                )
            },
            AdminRequest::SetLanProperties { lan_id, properties } => {
                self.await_reply(
                    Pending::SetLifProperties,
                    Command::UpdateLifProperties { id: lan_id.uuid, role: LifRole::Lan, properties },
                )
            },
            AdminRequest::SetDnsResolver { servers } => {
                let servers = static_servers_of(&servers);
                self.await_reply(Pending::SetResolvers, Command::SetResolvers { servers })
            },
            AdminRequest::SetSecurityFeatures { features } => match features.nat {
                Some(enabled) => self.await_reply(Pending::SetNat, Command::SetNat { enabled }),
                None => Dispatch::Respond(Response::Admin(AdminResponse { id: None, error: None })),
            },
            AdminRequest::SetFilter { rule } => {
                self.await_reply(Pending::SetFilter, Command::SetFilter { rule, interface: 0 })
            },
            AdminRequest::DeleteFilter { rule_id } => {
                self.await_reply(Pending::DeleteFilter, Command::DeleteFilter { rule_id })
            },
            AdminRequest::Unsupported(_) => Dispatch::Respond(
                Response::Admin(
                    AdminResponse {
                        id: None,
                        error: Some(RouterError { code: ErrorCode::NotSupported, description: None }),
                    },
                ),
            ),
        }
    }

    fn handle_state(&mut self, req: StateRequest) -> (r: Dispatch)
        requires
            old(self).pending is None,
        ensures
            final(self).phase == old(self).phase,
            final(self).dns_servers == old(self).dns_servers,
            match r {
                Dispatch::Call(c) => final(self).pending matches Some(p) && calls_for(
                    Event::State(req),
                    final(self).dns_servers,
                    c,
                    p,
                ),
                Dispatch::Respond(resp) => final(self).pending is None && answers_at_once(
                    Event::State(req),
                    resp,
                ),
            },
    {
        match req {
            StateRequest::GetWanPorts { wan_id } => {
                self.await_reply(Pending::LifPorts, Command::LookupLif { id: wan_id.uuid })
            },
            StateRequest::GetLanPorts { lan_id } => {
                self.await_reply(Pending::LifPorts, Command::LookupLif { id: lan_id.uuid })
            },
            StateRequest::GetWan { wan_id } => {
                self.await_reply(Pending::Lif, Command::LookupLif { id: wan_id.uuid })
            },
            StateRequest::GetLan { lan_id } => {
                self.await_reply(Pending::Lif, Command::LookupLif { id: lan_id.uuid })
            },
            StateRequest::GetWans => {
                self.await_reply(Pending::Lifs, Command::ListLifs { role: LifRole::Wan })
            },
            StateRequest::GetLans => {
                self.await_reply(Pending::Lifs, Command::ListLifs { role: LifRole::Lan })
            },
            StateRequest::GetDnsResolver => self.await_reply(
                Pending::Resolvers,
                Command::GetResolvers,
            ),
            StateRequest::GetSecurityFeatures => self.await_reply(
                Pending::SecurityFeatures,
                Command::IsNatEnabled,
            ),
            StateRequest::GetPorts => self.await_reply(Pending::Ports, Command::ListPorts),
            StateRequest::GetFilters => self.await_reply(Pending::Filters, Command::ListFilters),
            StateRequest::Unsupported(_) => Dispatch::Respond(
                Response::State(StateResponse::NotSupported),
            ),
            StateRequest::Empty(_) => Dispatch::Respond(Response::State(StateResponse::Empty)),
        }
    }

    /// Takes the next event off the queue. The loop either answers it at once
    /// or issues one device command and waits for its reply (`complete`)
    /// before it takes another event. A discovery update replaces that
    /// origin's list and pushes the new consolidated list to the device.
    pub fn handle_event(&mut self, event: Event) -> (r: Dispatch)
        requires
            old(self).wf(),
            old(self).phase == Phase::Steady,
            old(self).pending is None,
        ensures
            final(self).wf(),
            final(self).phase == Phase::Steady,
            final(self).dns_servers.view() == match event {
                Event::DnsDiscovery { origin, servers } => old(self).dns_servers.view().insert(
                    origin@,
                    servers@,
                ),
                _ => old(self).dns_servers.view(),
            },
            match r {
                Dispatch::Call(c) => final(self).pending matches Some(p) && calls_for(
                    event,
                    final(self).dns_servers,
                    c,
                    p,
                ),
                Dispatch::Respond(resp) => final(self).pending is None && answers_at_once(
                    event,
                    resp,
                ),
            },
    {
        match event {
            Event::Admin(req) => self.handle_admin(req),
            Event::State(req) => self.handle_state(req),
            Event::StackStatus(payload) => self.await_reply(
                Pending::Notification,
                Command::StackStatus { payload },
            ),
            Event::NetstackStatus(payload) => self.await_reply(
                Pending::Notification,
                Command::NetstackStatus { payload },
            ),
            Event::Hotplug(payload) => self.await_reply(
                Pending::Notification,
                Command::Hotplug { payload },
            ),
            Event::DnsDiscovery { origin, servers } => {
                self.dns_servers.set_servers(origin, servers);
                let servers = self.dns_servers.consolidated();
                self.await_reply(Pending::ResolverPush, Command::SetResolvers { servers })
            },
        }
    }

    /// Whether `reply` is the kind of reply the loop waits for.
    pub fn accepts(&self, reply: &DeviceReply) -> (r: bool)
        ensures
            r == (self.pending matches Some(p) && reply_fits(p, *reply)),
    {
        match self.pending {
            None => false,
            Some(p) => match p {
                Pending::CreateLif | Pending::SetResolvers | Pending::ResolverPush => matches!(
                    reply,
                    DeviceReply::Created(_)
                ),
                Pending::LifPorts | Pending::Lif => matches!(reply, DeviceReply::Lif(_)),
                Pending::Lifs => matches!(reply, DeviceReply::Lifs(_)),
                Pending::Resolvers => matches!(reply, DeviceReply::Resolvers(_)),
                Pending::SecurityFeatures => matches!(reply, DeviceReply::Nat(_)),
                Pending::Ports => matches!(reply, DeviceReply::Ports(_)),
                Pending::Filters => matches!(reply, DeviceReply::Filters(_)),
                _ => matches!(reply, DeviceReply::Done(_)),
            },
        }
    }

    /// Takes the device's reply to the outstanding command and gives the
    /// response owed to the event's sender; notifications and resolver pushes
    /// owe none, their failures are only worth a log line.
    pub fn complete(&mut self, reply: DeviceReply) -> (r: Option<Response>)
        requires
            old(self).wf(),
            old(self).pending matches Some(p) && reply_fits(p, reply),
        ensures
            final(self).wf(),
            final(self).pending is None,
            final(self).phase == old(self).phase,
            final(self).dns_servers == old(self).dns_servers,
            completes(old(self).pending->0, reply, r),
    {
        let p = match self.pending {
            Some(p) => p,
            None => Pending::Notification,
        };
        self.pending = None;
        match reply {
            DeviceReply::Done(res) => match p {
                Pending::RemoveLif | Pending::SetLifProperties => {
                    let error = match res {
                        Ok(()) => None,
                        Err(_) => Some(RouterError { code: ErrorCode::NotFound, description: None }),
                    };
                    Some(Response::Admin(AdminResponse { id: None, error }))
                },
                Pending::SetNat => {
                    let error = match res {
                        Ok(()) => None,
                        Err(d) => Some(RouterError { code: ErrorCode::Internal, description: Some(d) }),
                    };
                    Some(Response::Admin(AdminResponse { id: None, error }))
                },
                Pending::SetFilter | Pending::DeleteFilter => {
                    let error = match res {
                        Ok(()) => None,
                        Err(_) => {
                            let d = if matches!(p, Pending::SetFilter) {
                                String::from_str("Error installing new packet filter on all interfaces")
                            } else {
                                String::from_str("Error deleting packet filter rule")
                            };
                            Some(RouterError { code: ErrorCode::Internal, description: Some(d) })
                        },
                    };
                    Some(Response::Admin(AdminResponse { id: None, error }))
                },
                _ => None,
            },
            DeviceReply::Created(res) => {
                if matches!(p, Pending::ResolverPush) {
                    return None;
                }
                let r = match res {
                    Ok(id) => AdminResponse { id: Some(id), error: None },
                    Err(d) => {
                        let error = if matches!(p, Pending::CreateLif) {
                            RouterError { code: ErrorCode::AlreadyExists, description: None }
                        } else {
                            RouterError { code: ErrorCode::Internal, description: Some(d) }
                        };
                        AdminResponse { id: None, error: Some(error) }
                    },
                };
                Some(Response::Admin(r))
            },
            DeviceReply::Lif(lif) => match p {
                Pending::LifPorts => match lif {
                    Some(l) => Some(
                        Response::State(StateResponse::PortIds { ports: l.ports, error: None }),
                    ),
                    None => Some(
                        Response::State(
                            StateResponse::PortIds {
                                ports: Vec::new(),
                                error: Some(RouterError { code: ErrorCode::NotFound, description: None }),
                            },
                        ),
                    ),
                },
                _ => {
                    let error = if lif.is_some() {
                        None
                    } else {
                        Some(RouterError { code: ErrorCode::NotFound, description: None })
                    };
                    Some(Response::State(StateResponse::Lif { lif, error }))
                },
            },
            DeviceReply::Lifs(v) => Some(Response::State(StateResponse::Lifs(v))),
            DeviceReply::Resolvers(v) => Some(Response::State(StateResponse::DnsResolver(v))),
            DeviceReply::Nat(b) => Some(
                Response::State(StateResponse::SecurityFeatures(SecurityFeatures { nat: Some(b) })),
            ),
            DeviceReply::Ports(v) => Some(Response::State(StateResponse::Ports(v))),
            DeviceReply::Filters(res) => {
                let v = match res {
                    Ok(v) => v,
                    Err(_) => Vec::new(),
                };
                Some(Response::State(StateResponse::Filters(v)))
            },
        }
    }
}

} // verus!
