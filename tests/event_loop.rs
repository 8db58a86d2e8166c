use network_manager::dns::{DnsServer, DnsServerSource, Ipv4SocketAddress, Ipv6SocketAddress, SocketAddress};
use network_manager::eventloop::{
    AdminRequest, AdminResponse, Command, DeviceReply, Dispatch, EmptyQuery, Event, EventLoop,
    Phase, Response, StateRequest, StateResponse, UnsupportedAdmin, UnsupportedQuery,
};
use network_manager::protocol::{
    ErrorCode, Id, IpAddress, LifInfo, LifRole, PortInfo, RouterError, SecurityFeatures,
};

/// An in-memory device: interfaces, NAT flag, filters and resolvers.
struct FakeDevice {
    lifs: Vec<LifInfo>,
    next_uuid: u128,
    nat: bool,
    filters: Vec<Vec<u8>>,
    resolvers: Vec<DnsServer>,
    calls: usize,
}

impl FakeDevice {
    fn new() -> FakeDevice {
        FakeDevice { lifs: vec![], next_uuid: 1, nat: false, filters: vec![], resolvers: vec![], calls: 0 }
    }

    fn execute(&mut self, command: Command) -> DeviceReply {
        self.calls += 1;
        match command {
            Command::LoadConfig | Command::StartServices | Command::PopulateState => {
                DeviceReply::Done(Ok(()))
            }
            Command::CreateLif { role, name, vlan, ports } => {
                if self.lifs.iter().any(|l| l.name == name) {
                    return DeviceReply::Created(Err("exists".to_string()));
                }
                let element = Id { uuid: self.next_uuid, version: 1 };
                self.next_uuid += 1;
                self.lifs.push(LifInfo {
                    element,
                    name,
                    role,
                    vlan,
                    ports: ports.iter().map(|p| *p as u32).collect(),
                    properties: vec![],
                });
                DeviceReply::Created(Ok(element))
            }
            Command::DeleteLif { id } => match self.lifs.iter().position(|l| l.element.uuid == id) {
                Some(i) => {
                    self.lifs.remove(i);
                    DeviceReply::Done(Ok(()))
                }
                None => DeviceReply::Done(Err("no such interface".to_string())),
            },
            Command::UpdateLifProperties { id, properties, .. } => {
                match self.lifs.iter_mut().find(|l| l.element.uuid == id) {
                    Some(l) => {
                        l.properties = properties;
                        DeviceReply::Done(Ok(()))
                    }
                    None => DeviceReply::Done(Err("no such interface".to_string())),
                }
            }
            Command::SetResolvers { servers } => {
                self.resolvers = servers;
                DeviceReply::Created(Ok(Id { uuid: 99, version: 1 }))
            }
            Command::SetNat { enabled } => {
                self.nat = enabled;
                DeviceReply::Done(Ok(()))
            }
            Command::SetFilter { rule, .. } => {
                if rule.is_empty() {
                    return DeviceReply::Done(Err("bad rule".to_string()));
                }
                self.filters.push(rule);
                DeviceReply::Done(Ok(()))
            }
            Command::DeleteFilter { .. } => DeviceReply::Done(Err("unknown rule".to_string())),
            Command::LookupLif { id } => {
                DeviceReply::Lif(self.lifs.iter().find(|l| l.element.uuid == id).cloned())
            }
            Command::ListLifs { role } => {
                DeviceReply::Lifs(self.lifs.iter().filter(|l| l.role == role).cloned().collect())
            }
            Command::GetResolvers => DeviceReply::Resolvers(self.resolvers.clone()),
            Command::IsNatEnabled => DeviceReply::Nat(self.nat),
            Command::ListPorts => DeviceReply::Ports(vec![]),
            Command::ListFilters => DeviceReply::Filters(Ok(self.filters.clone())),
            Command::StackStatus { .. } | Command::NetstackStatus { .. } | Command::Hotplug { .. } => {
                DeviceReply::Done(Ok(()))
            }
        }
    }
}

fn steady(device: &mut FakeDevice) -> EventLoop {
    let mut lp = EventLoop::new();
    while lp.phase != Phase::Steady {
        let reply = device.execute(lp.init_command());
        let result = match reply {
            DeviceReply::Done(r) => r,
            _ => panic!("initialization step answered with a value"),
        };
        lp.init_done(result).unwrap();
    }
    lp
}

fn serve(lp: &mut EventLoop, device: &mut FakeDevice, event: Event) -> Option<Response> {
    match lp.handle_event(event) {
        Dispatch::Respond(r) => Some(r),
        Dispatch::Call(c) => {
            let reply = device.execute(c);
            assert!(lp.accepts(&reply));
            lp.complete(reply)
        }
    }
}

fn admin(r: Option<Response>) -> AdminResponse {
    match r {
        Some(Response::Admin(a)) => a,
        other => panic!("expected an administrative response, got {:?}", other),
    }
}

fn state(r: Option<Response>) -> StateResponse {
    match r {
        Some(Response::State(s)) => s,
        other => panic!("expected a state response, got {:?}", other),
    }
}

fn code(a: &AdminResponse) -> Option<ErrorCode> {
    a.error.as_ref().map(|e| e.code)
}

#[test]
fn create_delete_and_delete_again() {
    let mut device = FakeDevice::new();
    let mut lp = steady(&mut device);
    let created = admin(serve(
        &mut lp,
        &mut device,
        Event::Admin(AdminRequest::CreateWan { name: "wan0".to_string(), vlan: None, ports: vec![1] }),
    ));
    assert_eq!(created.error, None);
    let id = created.id.expect("an identifier");
    assert_eq!(device.lifs[0].ports, vec![1]);
    assert_eq!(device.lifs[0].role, LifRole::Wan);

    let removed = admin(serve(&mut lp, &mut device, Event::Admin(AdminRequest::RemoveWan { wan_id: id })));
    assert_eq!(removed, AdminResponse { id: None, error: None });

    let again = admin(serve(&mut lp, &mut device, Event::Admin(AdminRequest::RemoveWan { wan_id: id })));
    assert_eq!(
        again,
        AdminResponse { id: None, error: Some(RouterError { code: ErrorCode::NotFound, description: None }) }
    );
}

#[test]
fn creating_a_taken_name_is_already_exists() {
    let mut device = FakeDevice::new();
    let mut lp = steady(&mut device);
    let req = || Event::Admin(AdminRequest::CreateLan { name: "lan0".to_string(), vlan: Some(5), ports: vec![2, 3] });
    assert_eq!(admin(serve(&mut lp, &mut device, req())).error, None);
    assert_eq!(device.lifs[0].vlan, Some(5));
    let second = admin(serve(&mut lp, &mut device, req()));
    assert_eq!(second.id, None);
    assert_eq!(code(&second), Some(ErrorCode::AlreadyExists));
    assert_eq!(second.error.unwrap().description, None);
}

#[test]
fn queries_before_any_mutation_are_empty() {
    let mut device = FakeDevice::new();
    let mut lp = steady(&mut device);
    assert_eq!(state(serve(&mut lp, &mut device, Event::State(StateRequest::GetPorts))), StateResponse::Ports(vec![]));
    assert_eq!(state(serve(&mut lp, &mut device, Event::State(StateRequest::GetFilters))), StateResponse::Filters(vec![]));
    assert_eq!(
        state(serve(&mut lp, &mut device, Event::State(StateRequest::GetSecurityFeatures))),
        StateResponse::SecurityFeatures(SecurityFeatures { nat: Some(false) })
    );
    assert_eq!(state(serve(&mut lp, &mut device, Event::State(StateRequest::GetWans))), StateResponse::Lifs(vec![]));
}

#[test]
fn unknown_interface_queries_are_not_found_with_empty_payloads() {
    let mut device = FakeDevice::new();
    let mut lp = steady(&mut device);
    let missing = Id { uuid: 42, version: 0 };
    let not_found = Some(RouterError { code: ErrorCode::NotFound, description: None });
    assert_eq!(
        state(serve(&mut lp, &mut device, Event::State(StateRequest::GetWanPorts { wan_id: missing }))),
        StateResponse::PortIds { ports: vec![], error: not_found.clone() }
    );
    assert_eq!(
        state(serve(&mut lp, &mut device, Event::State(StateRequest::GetLan { lan_id: missing }))),
        StateResponse::Lif { lif: None, error: not_found }
    );
}

#[test]
fn interface_queries_report_what_the_device_holds() {
    let mut device = FakeDevice::new();
    let mut lp = steady(&mut device);
    let id = admin(serve(
        &mut lp,
        &mut device,
        Event::Admin(AdminRequest::CreateLan { name: "lan1".to_string(), vlan: None, ports: vec![4, 5] }),
    ))
    .id
    .unwrap();
    assert_eq!(
        state(serve(&mut lp, &mut device, Event::State(StateRequest::GetLanPorts { lan_id: id }))),
        StateResponse::PortIds { ports: vec![4, 5], error: None }
    );
    match state(serve(&mut lp, &mut device, Event::State(StateRequest::GetLan { lan_id: id }))) {
        StateResponse::Lif { lif: Some(l), error: None } => assert_eq!(l.name, "lan1"),
        other => panic!("unexpected {:?}", other),
    }
}

#[test]
fn setting_properties_of_an_unknown_interface_is_not_found() {
    let mut device = FakeDevice::new();
    let mut lp = steady(&mut device);
    let r = admin(serve(
        &mut lp,
        &mut device,
        Event::Admin(AdminRequest::SetWanProperties { wan_id: Id { uuid: 5, version: 0 }, properties: vec![1] }),
    ));
    assert_eq!(code(&r), Some(ErrorCode::NotFound));
}

#[test]
fn unsupported_operations_answer_without_touching_the_device() {
    let mut device = FakeDevice::new();
    let mut lp = steady(&mut device);
    let calls = device.calls;
    let r = admin(serve(&mut lp, &mut device, Event::Admin(AdminRequest::Unsupported(UnsupportedAdmin::SetRoute))));
    assert_eq!(r, AdminResponse { id: None, error: Some(RouterError { code: ErrorCode::NotSupported, description: None }) });
    assert_eq!(
        state(serve(&mut lp, &mut device, Event::State(StateRequest::Unsupported(UnsupportedQuery::GetDmzHost)))),
        StateResponse::NotSupported
    );
    assert_eq!(
        state(serve(&mut lp, &mut device, Event::State(StateRequest::Empty(EmptyQuery::GetRoutes)))),
        StateResponse::Empty
    );
    assert_eq!(device.calls, calls);
}

#[test]
fn security_features_update_only_what_is_given() {
    let mut device = FakeDevice::new();
    let mut lp = steady(&mut device);
    let calls = device.calls;
    let r = admin(serve(&mut lp, &mut device, Event::Admin(AdminRequest::SetSecurityFeatures { features: SecurityFeatures { nat: None } })));
    assert_eq!(r, AdminResponse { id: None, error: None });
    assert_eq!(device.calls, calls);
    admin(serve(&mut lp, &mut device, Event::Admin(AdminRequest::SetSecurityFeatures { features: SecurityFeatures { nat: Some(true) } })));
    assert!(device.nat);
    admin(serve(&mut lp, &mut device, Event::Admin(AdminRequest::SetSecurityFeatures { features: SecurityFeatures { nat: None } })));
    assert!(device.nat);
}

#[test]
fn resolver_configuration_becomes_static_records_on_port_53() {
    let mut device = FakeDevice::new();
    let mut lp = steady(&mut device);
    let r = admin(serve(
        &mut lp,
        &mut device,
        Event::Admin(AdminRequest::SetDnsResolver { servers: vec![IpAddress::Ipv4(0x0102_0304), IpAddress::Ipv6(7)] }),
    ));
    assert_eq!(r, AdminResponse { id: Some(Id { uuid: 99, version: 1 }), error: None });
    assert_eq!(
        device.resolvers,
        vec![
            DnsServer {
                address: SocketAddress::Ipv4(Ipv4SocketAddress { address: 0x0102_0304, port: 53 }),
                source: Some(DnsServerSource::StaticSource),
            },
            DnsServer {
                address: SocketAddress::Ipv6(Ipv6SocketAddress { address: 7, port: 53, zone_index: 0 }),
                source: Some(DnsServerSource::StaticSource),
            },
        ]
    );
}

#[test]
fn filter_failures_are_internal_errors() {
    let mut device = FakeDevice::new();
    let mut lp = steady(&mut device);
    let r = admin(serve(&mut lp, &mut device, Event::Admin(AdminRequest::SetFilter { rule: vec![] })));
    assert_eq!(code(&r), Some(ErrorCode::Internal));
    assert_eq!(
        r.error.unwrap().description.as_deref(),
        Some("Error installing new packet filter on all interfaces")
    );
    let r = admin(serve(&mut lp, &mut device, Event::Admin(AdminRequest::DeleteFilter { rule_id: Id { uuid: 1, version: 0 } })));
    assert_eq!(r.error.unwrap().description.as_deref(), Some("Error deleting packet filter rule"));
    let r = admin(serve(&mut lp, &mut device, Event::Admin(AdminRequest::SetFilter { rule: vec![1, 2] })));
    assert_eq!(r, AdminResponse { id: None, error: None });
    assert_eq!(state(serve(&mut lp, &mut device, Event::State(StateRequest::GetFilters))), StateResponse::Filters(vec![vec![1, 2]]));
}

#[test]
fn filter_rules_go_to_all_interfaces() {
    let mut device = FakeDevice::new();
    let mut lp = steady(&mut device);
    match lp.handle_event(Event::Admin(AdminRequest::SetFilter { rule: vec![3] })) {
        Dispatch::Call(Command::SetFilter { rule, interface }) => {
            assert_eq!(rule, vec![3]);
            assert_eq!(interface, 0);
        }
        other => panic!("unexpected {:?}", other),
    }
}

#[test]
fn discovery_updates_push_the_consolidated_list() {
    let mut device = FakeDevice::new();
    let mut lp = steady(&mut device);
    let x = SocketAddress::Ipv4(Ipv4SocketAddress { address: 1, port: 53 });
    let y = SocketAddress::Ipv4(Ipv4SocketAddress { address: 2, port: 53 });
    let x_ndp = DnsServer { address: x, source: Some(DnsServerSource::Ndp { source_interface: None }) };
    let x_static = DnsServer { address: x, source: Some(DnsServerSource::StaticSource) };
    let y_dhcp = DnsServer { address: y, source: Some(DnsServerSource::Dhcp { source_interface: None }) };
    let r = serve(&mut lp, &mut device, Event::DnsDiscovery { origin: "A".to_string(), servers: vec![x_ndp] });
    assert_eq!(r, None);
    let r = serve(&mut lp, &mut device, Event::DnsDiscovery { origin: "B".to_string(), servers: vec![x_static, y_dhcp] });
    assert_eq!(r, None);
    assert_eq!(device.resolvers, vec![x_ndp, y_dhcp]);
    assert_eq!(lp.dns_servers.consolidated(), vec![x_ndp, y_dhcp]);
}

#[test]
fn a_failed_resolver_push_keeps_the_new_state() {
    let mut device = FakeDevice::new();
    let mut lp = steady(&mut device);
    let s = DnsServer {
        address: SocketAddress::Ipv4(Ipv4SocketAddress { address: 3, port: 53 }),
        source: None,
    };
    match lp.handle_event(Event::DnsDiscovery { origin: "A".to_string(), servers: vec![s] }) {
        Dispatch::Call(Command::SetResolvers { servers }) => assert_eq!(servers, vec![s]),
        other => panic!("unexpected {:?}", other),
    }
    assert_eq!(lp.complete(DeviceReply::Created(Err("down".to_string()))), None);
    assert_eq!(lp.dns_servers.consolidated(), vec![s]);
}

#[test]
fn notifications_are_forwarded_and_answer_nobody() {
    let mut device = FakeDevice::new();
    let mut lp = steady(&mut device);
    match lp.handle_event(Event::Hotplug(vec![9])) {
        Dispatch::Call(Command::Hotplug { payload }) => assert_eq!(payload, vec![9]),
        other => panic!("unexpected {:?}", other),
    }
    assert!(!lp.accepts(&DeviceReply::Nat(true)));
    assert_eq!(lp.complete(DeviceReply::Done(Err("failed".to_string()))), None);
    assert_eq!(lp.pending, None);
}

#[test]
fn one_device_command_at_a_time() {
    let mut device = FakeDevice::new();
    let mut lp = steady(&mut device);
    assert!(matches!(lp.handle_event(Event::StackStatus(vec![1])), Dispatch::Call(_)));
    assert!(lp.pending.is_some());
    assert!(!lp.accepts(&DeviceReply::Lifs(vec![])));
    assert!(lp.accepts(&DeviceReply::Done(Ok(()))));
    lp.complete(DeviceReply::Done(Ok(())));
    assert!(lp.pending.is_none());
}

#[test]
fn events_are_handled_in_arrival_order() {
    let mut device = FakeDevice::new();
    let mut lp = steady(&mut device);
    let events = vec![
        Event::DnsDiscovery { origin: "A".to_string(), servers: vec![] },
        Event::StackStatus(vec![1]),
        Event::NetstackStatus(vec![2]),
        Event::Hotplug(vec![3]),
    ];
    let mut seen = Vec::new();
    for e in events {
        match lp.handle_event(e) {
            Dispatch::Call(c) => {
                seen.push(c.clone());
                let reply = device.execute(c);
                lp.complete(reply);
            }
            Dispatch::Respond(_) => panic!("expected a device command"),
        }
    }
    assert_eq!(
        seen,
        vec![
            Command::SetResolvers { servers: vec![] },
            Command::StackStatus { payload: vec![1] },
            Command::NetstackStatus { payload: vec![2] },
            Command::Hotplug { payload: vec![3] },
        ]
    );
}

#[test]
fn initialization_tolerates_a_bad_config_but_not_a_failed_start() {
    let mut lp = EventLoop::new();
    assert_eq!(lp.init_command(), Command::LoadConfig);
    assert_eq!(lp.init_done(Err("corrupt".to_string())), Ok(()));
    assert_eq!(lp.phase, Phase::StartingServices);
    assert_eq!(lp.init_command(), Command::StartServices);
    assert_eq!(lp.init_done(Err("no netstack".to_string())), Err("no netstack".to_string()));
    assert_eq!(lp.phase, Phase::Stopped);

    let mut lp = EventLoop::new();
    lp.init_done(Ok(())).unwrap();
    lp.init_done(Ok(())).unwrap();
    assert_eq!(lp.init_command(), Command::PopulateState);
    assert_eq!(lp.init_done(Err("x".to_string())), Err("x".to_string()));
    assert_eq!(lp.phase, Phase::Stopped);
}

#[test]
fn the_end_of_the_event_stream_is_fatal() {
    let mut device = FakeDevice::new();
    let mut lp = steady(&mut device);
    assert_eq!(lp.end_of_stream(), "Stream of events ended unexpectedly");
    assert_eq!(lp.phase, Phase::Stopped);
}

#[test]
fn ports_are_passed_through() {
    let mut device = FakeDevice::new();
    let mut lp = steady(&mut device);
    assert!(matches!(lp.handle_event(Event::State(StateRequest::GetPorts)), Dispatch::Call(Command::ListPorts)));
    let port = PortInfo { element: Id { uuid: 3, version: 2 }, id: 1, path: "/dev/eth0".to_string() };
    assert_eq!(
        lp.complete(DeviceReply::Ports(vec![port.clone()])),
        Some(Response::State(StateResponse::Ports(vec![port])))
    );
}
