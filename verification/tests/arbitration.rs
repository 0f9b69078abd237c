use display_distributor::distributor::{
    is_process_exist, Device, Distributor, Gpu, Lease, Probe, Reaction,
};
use display_distributor::drm::DisplayId;
use display_distributor::error::Error;
use display_distributor::message::{ClientMessage, ServerMessage};
use display_distributor::run;
use display_distributor::session::process_seat;

const INIT: i32 = 1;
const NOBODY: i32 = i32::MAX;

fn gpu(sysname: &str, devnode: &str) -> Device {
    Device {
        devtype: String::from("drm_minor"),
        sysname: String::from(sysname),
        devnode: Some(String::from(devnode)),
        seat: None,
        parent: None,
    }
}

fn connector(sysname: &str, seat: Option<&str>, parent: Option<(&str, Option<&str>)>) -> Device {
    Device {
        devtype: String::from("drm_connector"),
        sysname: String::from(sysname),
        devnode: None,
        seat: seat.map(String::from),
        parent: parent.map(|(sysname, devnode)| Gpu {
            sysname: String::from(sysname),
            devnode: devnode.map(String::from),
        }),
    }
}

fn two_cards() -> Distributor {
    let devices = vec![
        gpu("card0", "/dev/dri/card0"),
        gpu("renderD128", "/dev/dri/renderD128"),
        connector("card0-HDMI-A-1", Some("seat0"), Some(("card0", Some("/dev/dri/card0")))),
        connector("card0-DP-1", Some("seat1"), Some(("card0", Some("/dev/dri/card0")))),
        connector("card1-DP-1", Some("seat0"), Some(("card1", Some("/dev/dri/card1")))),
        connector("card1-DP-2", None, Some(("card1", Some("/dev/dri/card1")))),
        gpu("card2", "/dev/dri/card2"),
    ];
    run("seat0", &devices).ok().unwrap()
}

fn lease_of(pid: i32, leases: &[(&str, i32, u32)]) -> Lease {
    let mut lease = Lease::new(pid);
    for (node, fd, lessee) in leases {
        lease.add_displays(String::from(*node), (*fd, *lessee));
    }
    lease
}

#[test]
fn probe_counts_everything_but_a_missing_process_as_alive() {
    assert!(Probe::Delivered.alive());
    assert!(Probe::Refused.alive());
    assert!(!Probe::NoSuchProcess.alive());
}

#[test]
fn probe_tells_a_running_process_from_none() {
    assert!(is_process_exist(INIT));
    assert!(!is_process_exist(NOBODY));
}

#[test]
fn process_seat_needs_a_name() {
    assert_eq!(process_seat("seat0"), Ok(String::from("seat0")));
    assert_eq!(process_seat(""), Err(Error::NoSeat));
}

#[test]
fn run_needs_a_seat() {
    assert!(matches!(run("", &vec![]), Err(Error::NoSeat)));
    assert!(matches!(run("", &vec![gpu("card0", "/dev/dri/card0")]), Err(Error::NoSeat)));
}

#[test]
fn run_registers_cards_and_displays() {
    let distributor = two_cards();
    assert_eq!(
        distributor.nodes(),
        vec![
            String::from("/dev/dri/card0"),
            String::from("/dev/dri/card1"),
            String::from("/dev/dri/card2"),
        ]
    );
    let seat0 = String::from("seat0");
    let seat1 = String::from("seat1");
    assert!(distributor.card("/dev/dri/card0").unwrap().has_displays(&seat0));
    assert!(distributor.card("/dev/dri/card0").unwrap().has_displays(&seat1));
    assert!(distributor.card("/dev/dri/card1").unwrap().has_displays(&seat0));
    assert!(!distributor.card("/dev/dri/card1").unwrap().has_displays(&seat1));
    assert!(!distributor.card("/dev/dri/card2").unwrap().has_displays(&seat0));
    assert!(distributor.card("/dev/dri/renderD128").is_none());
    assert_eq!(
        distributor.cards_for_seat(&seat0),
        vec![String::from("/dev/dri/card0"), String::from("/dev/dri/card1")]
    );
    assert_eq!(distributor.cards_for_seat(&seat1), vec![String::from("/dev/dri/card0")]);
    assert_eq!(distributor.cards_for_seat(&String::from("seat2")), Vec::<String>::new());
}

#[test]
fn run_registers_each_connector_under_its_own_seat() {
    let distributor = two_cards();
    let seat0 = String::from("seat0");
    let seat1 = String::from("seat1");
    let card0 = distributor.card("/dev/dri/card0").unwrap();
    let card1 = distributor.card("/dev/dri/card1").unwrap();
    assert_eq!(card0.seat_displays(&seat0), vec![DisplayId { interface: 11, id: 1 }]);
    assert_eq!(card0.seat_displays(&seat1), vec![DisplayId { interface: 10, id: 1 }]);
    assert_eq!(card1.seat_displays(&seat0), vec![DisplayId { interface: 10, id: 1 }]);
    assert!(card1.seat_displays(&seat1).is_empty());
}

#[test]
fn run_without_devices_has_no_cards() {
    let distributor = run("seat0", &vec![]).ok().unwrap();
    assert_eq!(distributor.nodes(), Vec::<String>::new());
    assert!(distributor.lease("seat0").is_none());
}

#[test]
fn registering_a_gpu_twice_keeps_one_card() {
    let mut distributor = Distributor::new();
    let node = Some(String::from("/dev/dri/card0"));
    assert_eq!(distributor.get_or_add_gpu(&node), Ok(0));
    assert_eq!(distributor.get_or_add_gpu(&Some(String::from("/dev/dri/card1"))), Ok(1));
    assert_eq!(distributor.get_or_add_gpu(&node), Ok(0));
    assert_eq!(distributor.get_or_add_gpu(&None), Err(Error::NoDeviceNode));
    assert_eq!(distributor.nodes().len(), 2);
    assert_eq!(distributor.process_device(&gpu("card0", "/dev/dri/card0")), Ok(()));
    assert_eq!(distributor.nodes().len(), 2);
}

#[test]
fn devices_that_are_no_cards_are_passed_over() {
    let mut distributor = Distributor::new();
    assert_eq!(distributor.process_device(&gpu("renderD128", "/dev/dri/renderD128")), Ok(()));
    let other = Device {
        devtype: String::from("drm_other"),
        sysname: String::from("card0"),
        devnode: Some(String::from("/dev/dri/card0")),
        seat: Some(String::from("seat0")),
        parent: None,
    };
    assert_eq!(distributor.process_device(&other), Ok(()));
    let unassigned = connector("card0-DP-1", None, None);
    assert_eq!(distributor.process_device(&unassigned), Ok(()));
    assert_eq!(distributor.nodes(), Vec::<String>::new());
}

#[test]
fn a_connector_registers_its_gpu() {
    let mut distributor = Distributor::new();
    let device = connector("card0-DP-1", Some("seat0"), Some(("card0", Some("/dev/dri/card0"))));
    assert_eq!(distributor.process_device(&device), Ok(()));
    assert_eq!(distributor.nodes(), vec![String::from("/dev/dri/card0")]);
    assert!(distributor.card("/dev/dri/card0").unwrap().has_displays(&String::from("seat0")));
}

#[test]
fn broken_devices_give_errors() {
    let mut distributor = Distributor::new();
    let no_node = Device {
        devtype: String::from("drm_minor"),
        sysname: String::from("card0"),
        devnode: None,
        seat: None,
        parent: None,
    };
    assert_eq!(distributor.process_device(&no_node), Err(Error::NoDeviceNode));
    let orphan = connector("card0-DP-1", Some("seat0"), None);
    assert_eq!(distributor.process_device(&orphan), Err(Error::NoParentGpu));
    let nodeless = connector("card0-DP-1", Some("seat0"), Some(("card0", None)));
    assert_eq!(distributor.process_device(&nodeless), Err(Error::NoDeviceNode));
    assert_eq!(distributor.nodes(), Vec::<String>::new());
    let stranger =
        connector("card1-DP-1", Some("seat0"), Some(("card0", Some("/dev/dri/card0"))));
    assert_eq!(distributor.process_device(&stranger), Err(Error::UnableToParseDisplayId));
    let numberless =
        connector("card0-HDMI-A", Some("seat0"), Some(("card0", Some("/dev/dri/card0"))));
    assert_eq!(distributor.process_device(&numberless), Err(Error::UnableToParseDisplayId));
    assert_eq!(distributor.nodes(), vec![String::from("/dev/dri/card0")]);
    assert!(!distributor.card("/dev/dri/card0").unwrap().has_displays(&String::from("seat0")));
}

#[test]
fn scan_stops_at_the_first_error() {
    let mut distributor = Distributor::new();
    let devices = vec![
        gpu("card0", "/dev/dri/card0"),
        connector("card0-DP-1", Some("seat0"), None),
        gpu("card1", "/dev/dri/card1"),
    ];
    assert_eq!(distributor.scan_devices(&devices), Err(Error::NoParentGpu));
    assert_eq!(distributor.nodes(), vec![String::from("/dev/dri/card0")]);
    assert!(matches!(run("seat0", &devices), Err(Error::NoParentGpu)));
}

#[test]
fn a_free_seat_is_to_be_leased() {
    let distributor = two_cards();
    let seat = String::from("seat0");
    match distributor.handle_request_displays(100, &seat) {
        Reaction::Lease { lease, cards } => {
            assert_eq!(lease.pid, 100);
            assert!(lease.infos.is_empty());
            assert_eq!(
                cards,
                vec![String::from("/dev/dri/card0"), String::from("/dev/dri/card1")]
            );
        }
        _ => panic!("the seat is free"),
    }
    assert!(distributor.lease("seat0").is_none());
}

#[test]
fn a_seat_without_displays_is_granted_an_empty_lease() {
    let mut distributor = two_cards();
    let seat = String::from("seat9");
    let lease = match distributor.handle_request_displays(100, &seat) {
        Reaction::Lease { lease, cards } => {
            assert!(cards.is_empty());
            lease
        }
        _ => panic!("the seat is free"),
    };
    let response = distributor.grant(seat, lease);
    assert_eq!(response.message, ServerMessage::LeaseGranted);
    assert!(response.fds.is_empty());
    assert_eq!(distributor.lease("seat9").unwrap().pid, 100);
}

#[test]
fn grant_answers_with_the_descriptors() {
    let mut distributor = two_cards();
    let lease = lease_of(INIT, &[("/dev/dri/card0", 7, 1), ("/dev/dri/card1", 9, 4)]);
    let response = distributor.grant(String::from("seat0"), lease);
    assert_eq!(response.message, ServerMessage::LeaseGranted);
    assert_eq!(response.fds, vec![7, 9]);
    let held = distributor.lease("seat0").unwrap();
    assert_eq!(held.pid, INIT);
    assert_eq!(held.lease_fds(), vec![7, 9]);
    assert_eq!(held.infos[0].card_node, "/dev/dri/card0");
    assert_eq!(held.infos[0].lessee_id, 1);
    assert_eq!(held.infos[1].card_node, "/dev/dri/card1");
    assert_eq!(held.infos[1].lessee_id, 4);
    assert!(distributor.lease("seat1").is_none());
}

#[test]
fn a_seat_with_a_living_holder_is_busy() {
    let mut distributor = two_cards();
    let seat = String::from("seat0");
    distributor.grant(seat.clone(), lease_of(INIT, &[("/dev/dri/card0", 7, 1)]));
    match distributor.handle_request_displays(200, &seat) {
        Reaction::Reply(response) => {
            assert_eq!(response.message, ServerMessage::SeatBusy);
            assert!(response.fds.is_empty());
        }
        _ => panic!("the holder is alive"),
    }
    let held = distributor.lease("seat0").unwrap();
    assert_eq!(held.pid, INIT);
    assert_eq!(held.lease_fds(), vec![7]);
    assert!(matches!(
        distributor.handle_request_displays(200, &String::from("seat1")),
        Reaction::Lease { .. }
    ));
}

#[test]
fn a_seat_with_a_dead_holder_goes_to_the_next() {
    let mut distributor = two_cards();
    let seat = String::from("seat0");
    distributor.grant(seat.clone(), lease_of(NOBODY, &[("/dev/dri/card0", 7, 1)]));
    let mut lease = match distributor.handle_request_displays(200, &seat) {
        Reaction::Lease { lease, cards } => {
            assert_eq!(cards.len(), 2);
            lease
        }
        _ => panic!("the holder is dead"),
    };
    assert_eq!(distributor.lease("seat0").unwrap().pid, NOBODY);
    lease.add_displays(String::from("/dev/dri/card0"), (11, 2));
    let response = distributor.grant(seat, lease);
    assert_eq!(response.message, ServerMessage::LeaseGranted);
    assert_eq!(response.fds, vec![11]);
    let held = distributor.lease("seat0").unwrap();
    assert_eq!(held.pid, 200);
    assert_eq!(held.infos.len(), 1);
    assert_eq!(held.infos[0].lessee_id, 2);
}

#[test]
fn answer_request_goes_by_what_the_probe_found() {
    let mut distributor = two_cards();
    let seat = String::from("seat0");
    assert!(matches!(distributor.answer_request(5, &seat, true), Reaction::Lease { .. }));
    assert!(matches!(distributor.answer_request(5, &seat, false), Reaction::Lease { .. }));
    distributor.grant(seat.clone(), lease_of(4, &[]));
    assert!(matches!(
        distributor.answer_request(5, &seat, true),
        Reaction::Reply(response) if response.message == ServerMessage::SeatBusy
    ));
    assert!(matches!(distributor.answer_request(5, &seat, false), Reaction::Lease { .. }));
    assert!(matches!(
        distributor.answer_request(4, &seat, true),
        Reaction::Reply(response) if response.message == ServerMessage::SeatBusy
    ));
}

#[test]
fn release_by_the_holder_revokes_and_then_finds_nothing() {
    let mut distributor = two_cards();
    let seat = String::from("seat0");
    distributor.grant(
        seat.clone(),
        lease_of(300, &[("/dev/dri/card0", 7, 1), ("/dev/dri/card1", 9, 4)]),
    );
    match distributor.handle_release_displays(300, &seat) {
        Reaction::Revoke { revocations, response } => {
            assert_eq!(response.message, ServerMessage::LeaseRevoked);
            assert_eq!(response.fds, vec![7, 9]);
            assert_eq!(revocations.len(), 2);
            assert_eq!(revocations[0].card_node, "/dev/dri/card0");
            assert_eq!(revocations[0].lessee_id, 1);
            assert!(revocations[0].card_known);
            assert_eq!(revocations[1].card_node, "/dev/dri/card1");
            assert_eq!(revocations[1].lessee_id, 4);
            assert!(revocations[1].card_known);
        }
        _ => panic!("the holder releases"),
    }
    assert!(distributor.lease("seat0").is_none());
    for pid in [300, 301] {
        match distributor.handle_release_displays(pid, &seat) {
            Reaction::Reply(response) => {
                assert_eq!(response.message, ServerMessage::LeaseNotFound);
                assert!(response.fds.is_empty());
            }
            _ => panic!("the lease is gone"),
        }
    }
}

#[test]
fn release_by_another_process_is_refused() {
    let mut distributor = two_cards();
    let seat = String::from("seat0");
    distributor.grant(seat.clone(), lease_of(300, &[("/dev/dri/card0", 7, 1)]));
    match distributor.handle_release_displays(301, &seat) {
        Reaction::Reply(response) => {
            assert_eq!(response.message, ServerMessage::NoPermission);
            assert!(response.fds.is_empty());
        }
        _ => panic!("the peer does not hold the lease"),
    }
    let held = distributor.lease("seat0").unwrap();
    assert_eq!(held.pid, 300);
    assert_eq!(held.lease_fds(), vec![7]);
}

#[test]
fn release_leaves_other_seats_alone() {
    let mut distributor = two_cards();
    distributor.grant(String::from("seat0"), lease_of(300, &[("/dev/dri/card0", 7, 1)]));
    distributor.grant(String::from("seat1"), lease_of(400, &[("/dev/dri/card0", 8, 2)]));
    distributor.grant(String::from("seat2"), lease_of(500, &[]));
    assert!(matches!(
        distributor.handle_release_displays(400, &String::from("seat1")),
        Reaction::Revoke { .. }
    ));
    assert_eq!(distributor.lease("seat0").unwrap().pid, 300);
    assert!(distributor.lease("seat1").is_none());
    assert_eq!(distributor.lease("seat2").unwrap().pid, 500);
}

#[test]
fn a_seat_holds_one_lease_at_a_time() {
    let mut distributor = two_cards();
    let seat = String::from("seat0");
    distributor.grant(seat.clone(), lease_of(300, &[("/dev/dri/card0", 7, 1)]));
    distributor.grant(seat.clone(), lease_of(301, &[("/dev/dri/card0", 8, 2)]));
    assert_eq!(distributor.lease("seat0").unwrap().pid, 301);
    assert!(matches!(
        distributor.handle_release_displays(300, &seat),
        Reaction::Reply(response) if response.message == ServerMessage::NoPermission
    ));
    assert!(matches!(
        distributor.handle_release_displays(301, &seat),
        Reaction::Revoke { .. }
    ));
    assert!(matches!(
        distributor.handle_release_displays(301, &seat),
        Reaction::Reply(response) if response.message == ServerMessage::LeaseNotFound
    ));
}

#[test]
fn revocation_passes_over_unknown_cards() {
    let distributor = two_cards();
    let lease = lease_of(300, &[("/dev/dri/card9", 7, 1), ("/dev/dri/card1", 9, 4)]);
    let revocations = distributor.revoke_lease(&lease);
    assert_eq!(revocations.len(), 2);
    assert_eq!(revocations[0].card_node, "/dev/dri/card9");
    assert_eq!(revocations[0].lessee_id, 1);
    assert!(!revocations[0].card_known);
    assert_eq!(revocations[1].card_node, "/dev/dri/card1");
    assert_eq!(revocations[1].lessee_id, 4);
    assert!(revocations[1].card_known);
    assert!(distributor.revoke_lease(&Lease::new(1)).is_empty());
}

#[test]
fn messages_are_dispatched() {
    let mut distributor = two_cards();
    let seat = String::from("seat1");
    let lease = match distributor.handle_client_message(600, &seat, ClientMessage::RequestDisplays)
    {
        Reaction::Lease { lease, cards } => {
            assert_eq!(cards, vec![String::from("/dev/dri/card0")]);
            lease
        }
        _ => panic!("the seat is free"),
    };
    distributor.grant(seat.clone(), lease);
    assert!(matches!(
        distributor.handle_client_message(601, &seat, ClientMessage::ReleaseDisplays),
        Reaction::Reply(response) if response.message == ServerMessage::NoPermission
    ));
    assert!(matches!(
        distributor.handle_client_message(600, &seat, ClientMessage::ReleaseDisplays),
        Reaction::Revoke { .. }
    ));
}

#[test]
fn peers_are_turned_down_in_order() {
    let mut distributor = two_cards();
    let request = ClientMessage::RequestDisplays.encode().unwrap();
    assert!(matches!(
        distributor.handle_client(None, "", &[]),
        Err((Error::NoPeerPid, None))
    ));
    assert!(matches!(
        distributor.handle_client(None, "seat0", &request),
        Err((Error::NoPeerPid, None))
    ));
    assert!(matches!(
        distributor.handle_client(Some(700), "", &[]),
        Err((Error::NoSeat, Some(700)))
    ));
    assert!(matches!(
        distributor.handle_client(Some(700), "", &request),
        Err((Error::NoSeat, Some(700)))
    ));
    assert!(matches!(
        distributor.handle_client(Some(700), "seat0", &[0, 0]),
        Err((Error::PeerBadMsg, Some(700)))
    ));
    assert!(matches!(
        distributor.handle_client(Some(700), "seat0", &[7, 0, 0, 0]),
        Err((Error::PeerBadMsg, Some(700)))
    ));
    assert!(distributor.lease("seat0").is_none());
}

#[test]
fn a_whole_exchange() {
    let mut distributor = two_cards();
    let request = ClientMessage::RequestDisplays.encode().unwrap();
    let release = ClientMessage::ReleaseDisplays.encode().unwrap();
    let mut lease = match distributor.handle_client(Some(INIT), "seat0", &request) {
        Ok(Reaction::Lease { lease, cards }) => {
            assert_eq!(cards.len(), 2);
            lease
        }
        _ => panic!("the seat is free"),
    };
    lease.add_displays(String::from("/dev/dri/card0"), (5, 1));
    lease.add_displays(String::from("/dev/dri/card1"), (6, 1));
    let response = distributor.grant(String::from("seat0"), lease);
    assert_eq!(response.message.encode(), Ok(vec![0, 0, 0, 0]));
    assert_eq!(response.fds, vec![5, 6]);
    assert!(matches!(
        distributor.handle_client(Some(800), "seat0", &request),
        Ok(Reaction::Reply(response)) if response.message == ServerMessage::SeatBusy
    ));
    assert!(matches!(
        distributor.handle_client(Some(800), "seat0", &release),
        Ok(Reaction::Reply(response)) if response.message == ServerMessage::NoPermission
    ));
    assert!(matches!(
        distributor.handle_client(Some(800), "seat1", &release),
        Ok(Reaction::Reply(response)) if response.message == ServerMessage::LeaseNotFound
    ));
    match distributor.handle_client(Some(INIT), "seat0", &release) {
        Ok(Reaction::Revoke { revocations, response }) => {
            assert_eq!(revocations.len(), 2);
            assert_eq!(response.message, ServerMessage::LeaseRevoked);
            assert_eq!(response.fds, vec![5, 6]);
        }
        _ => panic!("the holder releases"),
    }
    assert!(matches!(
        distributor.handle_client(Some(INIT), "seat0", &release),
        Ok(Reaction::Reply(response)) if response.message == ServerMessage::LeaseNotFound
    ));
}
