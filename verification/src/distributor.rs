//! The arbiter: which cards there are, and which process holds which seat.
//!
//! The arbiter does no input or output of its own. Whoever runs it hands it
//! what the device database listed and what a peer sent, and carries out what
//! it answers: lease displays on a card, revoke a lease, send a response.

use crate::drm::{
    spec_add_display, spec_connector_display, spec_lease_displays, Card, Connector, DisplayId,
    SeatDisplays,
};
use crate::error::Error;
use crate::message::{ClientMessage, ServerMessage};
use crate::registry::{
    lemma_entries_push, lemma_entries_remove, lemma_entries_update, lemma_position,
    lemma_position_found, spec_entries, spec_position, Registry,
};
use crate::text::{chars_of, contains, same_text, spec_contains, spec_texts};
use vstd::prelude::*;

verus! {

/// The name of a seat, as the session manager gives it.
pub type SeatId = String;

/// What the device database says of a GPU.
pub struct Gpu {
    /// The system name, such as `card0`.
    pub sysname: String,
    /// The path of the device node, where there is one.
    pub devnode: Option<String>,
}

/// What the device database says of a device.
pub struct Device {
    /// The device type: `drm_minor` for a GPU node, `drm_connector` for a connector.
    pub devtype: String,
    /// The system name, such as `card0` or `card0-HDMI-A-1`.
    pub sysname: String,
    /// The path of the device node, where there is one.
    pub devnode: Option<String>,
    /// The seat that the device is assigned to, where it is assigned to one.
    pub seat: Option<SeatId>,
    /// The GPU that the device belongs to, where it belongs to one.
    pub parent: Option<Gpu>,
}

/// One kernel lease: the card that issued it, the kernel's name for it, and
/// its descriptor.
pub struct LeaseInfo {
    /// The device node of the card that issued the lease.
    pub card_node: String,
    /// The kernel's identifier of the lessee.
    pub lessee_id: u32,
    /// The descriptor of the lease.
    pub lease_fd: i32,
}

/// The grant that a seat holds: the process that asked for it, and one kernel
/// lease for each card that gave displays.
pub struct Lease {
    /// The process that holds the grant.
    pub pid: i32,
    /// The kernel leases, in the order in which the cards gave them.
    pub infos: Vec<LeaseInfo>,
}

/// The descriptors of `infos`, in order.
pub open spec fn spec_lease_fds(infos: Seq<LeaseInfo>) -> Seq<i32> {
    Seq::new(infos.len(), |i: int| infos[i].lease_fd)
}

impl Lease {
    /// A grant for `pid` that holds no kernel lease yet.
    pub fn new(pid: i32) -> (r: Self)
        ensures
            r.pid == pid,
            r.infos@ == Seq::<LeaseInfo>::empty(),
    {
        Lease { pid, infos: Vec::new() }
    }

    /// Adds the kernel lease that the card at `card_node` gave: its descriptor
    /// and the lessee's identifier.
    pub fn add_displays(&mut self, card_node: String, displays_lease: (i32, u32))
        ensures
            final(self).pid == old(self).pid,
            final(self).infos@ == old(self).infos@.push(
                (LeaseInfo { card_node, lessee_id: displays_lease.1, lease_fd: displays_lease.0 }),
            ),
    {
        let (lease_fd, lessee_id) = displays_lease;
        self.infos.push(LeaseInfo { card_node, lessee_id, lease_fd });
    }

    /// The descriptors of the kernel leases, in order.
    pub fn lease_fds(&self) -> (r: Vec<i32>)
        ensures
            r@ == spec_lease_fds(self.infos@),
    {
        let mut fds: Vec<i32> = Vec::new();
        let mut i: usize = 0;
        while i < self.infos.len()
            invariant
                i <= self.infos.len(),
                fds@ == spec_lease_fds(self.infos@.subrange(0, i as int)),
            decreases self.infos.len() - i,
        {
            fds.push(self.infos[i].lease_fd);
            assert(fds@ =~= spec_lease_fds(self.infos@.subrange(0, i + 1)));
            i += 1;
        }
        assert(self.infos@.subrange(0, self.infos.len() as int) =~= self.infos@);
        fds
    }
}

/// A response and the descriptors that travel with it.
pub struct Response {
    /// The message.
    pub message: ServerMessage,
    /// The descriptors, sent beside the message's bytes.
    pub fds: Vec<i32>,
}

/// One kernel lease that is to be revoked.
pub struct Revocation {
    /// The device node of the card that issued the lease.
    pub card_node: String,
    /// The kernel's identifier of the lessee.
    pub lessee_id: u32,
    /// Whether the arbiter has a card at that device node. Where it has
    /// none, nothing can be revoked and the lease is passed over.
    pub card_known: bool,
}

/// What is to be done for a peer.
pub enum Reaction {
    /// Send the response.
    Reply(Response),
    /// The seat is free. Lease its displays on each of the cards, add each
    /// kernel lease to `lease`, and hand `lease` to `Distributor::grant`.
    Lease {
        /// A grant for the peer, without a kernel lease yet.
        lease: Lease,
        /// The device nodes of the cards that hold displays of the seat.
        cards: Vec<String>,
    },
    /// The peer's grant is gone. Revoke each kernel lease, going on where
    /// one cannot be revoked, and then send the response.
    Revoke {
        /// The kernel leases of the grant, in order.
        revocations: Vec<Revocation>,
        /// The response.
        response: Response,
    },
}

/// What a signal that probes for a process met.
#[derive(Clone, Copy, Debug, PartialEq, Eq, Structural)]
pub enum Probe {
    /// The process is there and could have been signalled.
    Delivered,
    /// There is no such process.
    NoSuchProcess,
    /// The probe failed for another reason.
    Refused,
}

impl Probe {
    /// Whether the probed process counts as alive: it does unless there is
    /// no such process.
    pub open spec fn spec_alive(self) -> bool {
        self != Probe::NoSuchProcess
    }

    /// Whether the probed process counts as alive.
    pub fn alive(self) -> (r: bool)
        ensures
            r == self.spec_alive(),
    {
        match self {
            Probe::NoSuchProcess => false,
            _ => true,
        }
    }
}

/// `nix::sys::signal::kill` with no signal, which checks whether the process
/// `pid` could be signalled and sends nothing. What comes back depends on the
/// processes of the machine, so nothing is claimed of it.
#[verifier::external_body]
fn probe_process(pid: i32) -> Probe {
    match ::nix::sys::signal::kill(::nix::unistd::Pid::from_raw(pid), None) {
        Ok(()) => Probe::Delivered,
        Err(::nix::errno::Errno::ESRCH) => Probe::NoSuchProcess,
        Err(_) => Probe::Refused,
    }
}

/// Probes whether the process `pid` is alive.
pub fn is_process_exist(pid: i32) -> bool {
    probe_process(pid).alive()
}

/// The device nodes of the cards that hold a display of `seat`, oldest first.
pub open spec fn spec_cards_for(cards: Cards, seat: Seq<char>) -> Seq<Seq<char>>
    decreases cards.nodes.len(),
{
    if cards.nodes.len() == 0 || cards.displays.len() != cards.nodes.len() {
        Seq::empty()
    } else {
        let before = spec_cards_for(
            Cards { nodes: cards.nodes.drop_last(), displays: cards.displays.drop_last() },
            seat,
        );
        if cards.displays.last().dom().contains(seat) {
            before.push(cards.nodes.last())
        } else {
            before
        }
    }
}

/// Whether `revocations` are the kernel leases `infos`, in order, each marked
/// by whether `nodes` holds its card.
pub open spec fn spec_revokes(
    revocations: Seq<Revocation>,
    infos: Seq<LeaseInfo>,
    nodes: Seq<Seq<char>>,
) -> bool {
    &&& revocations.len() == infos.len()
    &&& forall|i: int|
        0 <= i < infos.len() ==> {
            let step = #[trigger] revocations[i];
            &&& step.card_node@ == infos[i].card_node@
            &&& step.lessee_id == infos[i].lessee_id
            &&& step.card_known == spec_position(nodes, infos[i].card_node@).is_some()
        }
}

/// Whether `outcome` turns a peer down with `error`, naming the process `pid`
/// where the peer's process is known.
pub open spec fn spec_refused(
    outcome: Result<Reaction, (Error, Option<i32>)>,
    error: Error,
    pid: Option<i32>,
) -> bool {
    outcome matches Err(refusal) && refusal == (error, pid)
}

/// Whether `response` is `message` without a descriptor.
pub open spec fn spec_plain(response: Response, message: ServerMessage) -> bool {
    response.message == message && response.fds@.len() == 0
}

/// The cards of an arbiter: their device nodes, oldest first, and for each
/// the displays of each seat.
pub struct Cards {
    /// The device nodes.
    pub nodes: Seq<Seq<char>>,
    /// The displays of each card, at the place of its node.
    pub displays: Seq<SeatDisplays>,
}

/// `cards` with a card at `node`, and the place of that card: a node that is
/// there stays where it is, a new one comes last and has no display.
pub open spec fn spec_register(cards: Cards, node: Seq<char>) -> (Cards, int) {
    match spec_position(cards.nodes, node) {
        Some(i) => (cards, i),
        None => (
            Cards { nodes: cards.nodes.push(node), displays: cards.displays.push(Map::empty()) },
            cards.nodes.len() as int,
        ),
    }
}

/// What becomes of `cards` when the device `dev` is taken in, and the error
/// that the device gives, if it gives one.
///
/// A GPU node whose name holds `card` is registered under its device node.
/// A connector that is assigned to a seat has its GPU registered, and is then
/// added to that card as a display of the seat. Every other device is passed
/// over.
pub open spec fn spec_process_device(cards: Cards, dev: Device) -> (Cards, Option<Error>) {
    if dev.devtype@ == "drm_minor"@ && spec_contains(dev.sysname@, "card"@) {
        match dev.devnode {
            Some(node) => (spec_register(cards, node@).0, None),
            None => (cards, Some(Error::NoDeviceNode)),
        }
    } else if dev.devtype@ == "drm_connector"@ {
        match (dev.seat, dev.parent) {
            (None, _) => (cards, None),
            (Some(_), None) => (cards, Some(Error::NoParentGpu)),
            (Some(seat), Some(gpu)) => match gpu.devnode {
                None => (cards, Some(Error::NoDeviceNode)),
                Some(node) => {
                    let (known, i) = spec_register(cards, node@);
                    match spec_connector_display(gpu.sysname@, dev.sysname@) {
                        None => (known, Some(Error::UnableToParseDisplayId)),
                        Some(display) => (
                            Cards {
                                nodes: known.nodes,
                                displays: known.displays.update(
                                    i,
                                    spec_add_display(known.displays[i], seat@, display),
                                ),
                            },
                            None,
                        ),
                    }
                },
            },
        }
    } else {
        (cards, None)
    }
}

/// What becomes of `cards` when `devices` are taken in one after the other,
/// up to and with the first that gives an error.
pub open spec fn spec_scan_devices(cards: Cards, devices: Seq<Device>) -> (Cards, Option<Error>)
    decreases devices.len(),
{
    if devices.len() == 0 {
        (cards, None)
    } else {
        let (next, error) = spec_process_device(cards, devices.first());
        if error.is_some() {
            (next, error)
        } else {
            spec_scan_devices(next, devices.drop_first())
        }
    }
}

/// The arbiter's state: the cards by device node and the grants by seat.
pub struct Distributor {
    cards: Registry<Card>,
    leases: Registry<Lease>,
}

impl Distributor {
    /// The device nodes of the cards, oldest first.
    pub closed spec fn card_nodes(&self) -> Seq<Seq<char>> {
        self.cards.keys()
    }

    /// The cards, each at the place of its device node.
    pub closed spec fn card_list(&self) -> Seq<Card> {
        self.cards.values()
    }

    /// The seats that hold a grant, in the order of the grants.
    pub closed spec fn lease_seats(&self) -> Seq<Seq<char>> {
        self.leases.keys()
    }

    /// The grants, each at the place of its seat.
    pub closed spec fn lease_list(&self) -> Seq<Lease> {
        self.leases.values()
    }

    /// No device node and no seat stands twice, each has its entry, and every
    /// card is well formed.
    pub open spec fn wf(&self) -> bool {
        &&& self.card_nodes().len() == self.card_list().len()
        &&& self.card_nodes().no_duplicates()
        &&& forall|i: int| 0 <= i < self.card_list().len() ==> (#[trigger] self.card_list()[i]).wf()
        &&& self.lease_seats().len() == self.lease_list().len()
        &&& self.lease_seats().no_duplicates()
    }

    /// The cards: their device nodes and the displays of each.
    pub open spec fn cards(&self) -> Cards {
        Cards {
            nodes: self.card_nodes(),
            displays: Seq::new(self.card_list().len(), |i: int| self.card_list()[i].displays()),
        }
    }

    /// The grant of each seat that holds one.
    pub open spec fn leases(&self) -> Map<Seq<char>, Lease> {
        spec_entries(self.lease_seats(), self.lease_list())
    }

    /// An arbiter without cards and without grants.
    pub fn new() -> (r: Self)
        ensures
            r.wf(),
            r.cards() == (Cards { nodes: Seq::empty(), displays: Seq::empty() }),
            r.leases() == Map::<Seq<char>, Lease>::empty(),
    {
        let r = Distributor { cards: Registry::new(), leases: Registry::new() };
        assert(r.leases() =~= Map::<Seq<char>, Lease>::empty());
        assert(r.cards().displays =~= Seq::<SeatDisplays>::empty());
        r
    }

    /// Finds the card at the device node of a GPU, or registers one there, and
    /// gives its place. A GPU without a device node cannot be a card.
    pub fn get_or_add_gpu(&mut self, devnode: &Option<String>) -> (r: Result<usize, Error>)
        requires
            old(self).wf(),
        ensures
            final(self).wf(),
            final(self).lease_seats() == old(self).lease_seats(),
            final(self).lease_list() == old(self).lease_list(),
            match devnode {
                Some(node) => r matches Ok(i) && (final(self).cards(), i as int) == spec_register(
                    old(self).cards(),
                    node@,
                ) && i < final(self).card_nodes().len(),
                None => r == Err::<usize, Error>(Error::NoDeviceNode) && final(self).cards()
                    == old(self).cards(),
            },
    {
        match devnode {
            None => Err(Error::NoDeviceNode),
            Some(node) => match self.cards.position(node.as_str()) {
                Some(i) => Ok(i),
                None => {
                    let i = self.cards.insert(node.clone(), Card::new());
                    proof {
                        let registered = spec_register(old(self).cards(), node@).0;
                        assert(self.cards().nodes =~= registered.nodes);
                        assert(self.cards().displays =~~= registered.displays);
                    }
                    Ok(i)
                },
            },
        }
    }

    /// Takes in one device of the device database.
    pub fn process_device(&mut self, dev: &Device) -> (r: Result<(), Error>)
        requires
            old(self).wf(),
        ensures
            final(self).wf(),
            final(self).lease_seats() == old(self).lease_seats(),
            final(self).lease_list() == old(self).lease_list(),
            final(self).cards() == spec_process_device(old(self).cards(), *dev).0,
            match spec_process_device(old(self).cards(), *dev).1 {
                Some(error) => r == Err::<(), Error>(error),
                None => r.is_ok(),
            },
    {
        if same_text(dev.devtype.as_str(), "drm_minor") && contains(
            &chars_of(dev.sysname.as_str()),
            &chars_of("card"),
        ) {
            match self.get_or_add_gpu(&dev.devnode) {
                Ok(_) => Ok(()),
                Err(error) => Err(error),
            }
        } else if same_text(dev.devtype.as_str(), "drm_connector") {
            let seat = match &dev.seat {
                Some(seat) => seat,
                None => {
                    return Ok(());
                },
            };
            let gpu = match &dev.parent {
                Some(gpu) => gpu,
                None => {
                    return Err(Error::NoParentGpu);
                },
            };
            let i = match self.get_or_add_gpu(&gpu.devnode) {
                Ok(i) => i,
                Err(error) => {
                    return Err(error);
                },
            };
            let ghost known = self.cards();
            let display = match DisplayId::of_connector(gpu.sysname.as_str(), dev.sysname.as_str()) {
                Ok(display) => display,
                Err(error) => {
                    return Err(error);
                },
            };
            let ghost cards_before = self.card_list();
            let card = self.cards.value_mut(i);
            card.add_seat_display(seat.clone(), display);
            proof {
                assert forall|k: int| 0 <= k < self.card_list().len() implies (
                #[trigger] self.card_list()[k]).wf() by {
                    if k != i {
                        assert(self.card_list()[k] == cards_before[k]);
                    }
                }
                assert(self.cards().displays =~~= known.displays.update(
                    i as int,
                    spec_add_display(known.displays[i as int], seat@, display),
                ));
            }
            Ok(())
        } else {
            Ok(())
        }
    }

    /// Takes in the devices that the device database listed, in order, and
    /// stops at the first that gives an error.
    pub fn scan_devices(&mut self, devices: &Vec<Device>) -> (r: Result<(), Error>)
        requires
            old(self).wf(),
        ensures
            final(self).wf(),
            final(self).lease_seats() == old(self).lease_seats(),
            final(self).lease_list() == old(self).lease_list(),
            final(self).cards() == spec_scan_devices(old(self).cards(), devices@).0,
            match spec_scan_devices(old(self).cards(), devices@).1 {
                Some(error) => r == Err::<(), Error>(error),
                None => r.is_ok(),
            },
    {
        let mut i: usize = 0;
        assert(devices@.subrange(0, devices.len() as int) =~= devices@);
        while i < devices.len()
            invariant
                i <= devices.len(),
                self.wf(),
                self.lease_seats() == old(self).lease_seats(),
                self.lease_list() == old(self).lease_list(),
                spec_scan_devices(old(self).cards(), devices@) == spec_scan_devices(
                    self.cards(),
                    devices@.subrange(i as int, devices.len() as int),
                ),
            decreases devices.len() - i,
        {
            let ghost rest = devices@.subrange(i as int, devices.len() as int);
            assert(rest.first() == devices@[i as int]);
            assert(rest.drop_first() =~= devices@.subrange(i + 1, devices.len() as int));
            match self.process_device(&devices[i]) {
                Ok(()) => {},
                Err(error) => {
                    return Err(error);
                },
            }
            i += 1;
        }
        Ok(())
    }

    /// Whether `reaction` answers a request of `peer_pid` for the displays of
    /// `seat`, where `holder_alive` says whether the process that holds the
    /// seat's grant is alive. A seat whose holder is alive is busy. Any other
    /// seat is free: its displays are to be leased on every card that holds
    /// one, and a seat without a display is granted an empty lease.
    pub open spec fn spec_request(
        &self,
        reaction: Reaction,
        peer_pid: i32,
        seat: Seq<char>,
        holder_alive: bool,
    ) -> bool {
        if self.leases().dom().contains(seat) && holder_alive {
            reaction matches Reaction::Reply(response) && spec_plain(
                response,
                ServerMessage::SeatBusy,
            )
        } else {
            reaction matches Reaction::Lease { lease, cards } && lease.pid == peer_pid
                && lease.infos@.len() == 0 && spec_texts(cards@) == spec_cards_for(
                self.cards(),
                seat,
            )
        }
    }

    /// Whether `after` and `response` are what granting `lease` to `seat`
    /// makes of `self`: the lease is the seat's grant, whatever the seat held
    /// before, and the response carries the lease's descriptors.
    pub open spec fn spec_grant(
        &self,
        after: Distributor,
        response: Response,
        seat: Seq<char>,
        lease: Lease,
    ) -> bool {
        &&& after.wf()
        &&& after.card_nodes() == self.card_nodes()
        &&& after.card_list() == self.card_list()
        &&& after.leases() == self.leases().insert(seat, lease)
        &&& response.message == ServerMessage::LeaseGranted
        &&& response.fds@ == spec_lease_fds(lease.infos@)
    }

    /// Whether `after` and `reaction` are what `peer_pid` giving back the
    /// grant of `seat` makes of `self`. A seat without a grant gives
    /// `LeaseNotFound`, the grant of another process `NoPermission`, and both
    /// leave the arbiter as it is. The peer's own grant leaves the registry;
    /// its kernel leases are to be revoked and its descriptors go back with
    /// `LeaseRevoked`.
    pub open spec fn spec_release(
        &self,
        after: Distributor,
        reaction: Reaction,
        peer_pid: i32,
        seat: Seq<char>,
    ) -> bool {
        &&& after.wf()
        &&& after.card_nodes() == self.card_nodes()
        &&& after.card_list() == self.card_list()
        &&& if !self.leases().dom().contains(seat) {
            &&& after == *self
            &&& reaction matches Reaction::Reply(response) && spec_plain(
                response,
                ServerMessage::LeaseNotFound,
            )
        } else if self.leases()[seat].pid != peer_pid {
            &&& after == *self
            &&& reaction matches Reaction::Reply(response) && spec_plain(
                response,
                ServerMessage::NoPermission,
            )
        } else {
            &&& after.leases() == self.leases().remove(seat)
            &&& reaction matches Reaction::Revoke { revocations, response } && spec_revokes(
                revocations@,
                self.leases()[seat].infos@,
                self.card_nodes(),
            ) && response.message == ServerMessage::LeaseRevoked && response.fds@
                == spec_lease_fds(self.leases()[seat].infos@)
        }
    }

    /// Whether `after` and `reaction` are what the message of `peer_pid` on
    /// `seat` makes of `self`, for one outcome of the probe for the holder.
    pub open spec fn spec_dispatch(
        &self,
        after: Distributor,
        reaction: Reaction,
        peer_pid: i32,
        seat: Seq<char>,
        message: ClientMessage,
    ) -> bool {
        match message {
            ClientMessage::RequestDisplays => after == *self && (self.spec_request(
                reaction,
                peer_pid,
                seat,
                true,
            ) || self.spec_request(reaction, peer_pid, seat, false)),
            ClientMessage::ReleaseDisplays => self.spec_release(after, reaction, peer_pid, seat),
        }
    }

    /// The device nodes of the cards that hold a display of `seat`.
    pub fn cards_for_seat(&self, seat: &SeatId) -> (r: Vec<String>)
        requires
            self.wf(),
        ensures
            spec_texts(r@) == spec_cards_for(self.cards(), seat@),
    {
        let ghost all = self.cards();
        let mut found: Vec<String> = Vec::new();
        let mut i: usize = 0;
        let n: usize = self.cards.len();
        assert(spec_texts(found@) =~= Seq::<Seq<char>>::empty());
        while i < n
            invariant
                self.wf(),
                all == self.cards(),
                n == all.nodes.len(),
                i <= n,
                spec_texts(found@) == spec_cards_for(
                    Cards {
                        nodes: all.nodes.subrange(0, i as int),
                        displays: all.displays.subrange(0, i as int),
                    },
                    seat@,
                ),
            decreases n - i,
        {
            let ghost upto = Cards {
                nodes: all.nodes.subrange(0, i + 1),
                displays: all.displays.subrange(0, i + 1),
            };
            proof {
                assert(upto.nodes.drop_last() =~= all.nodes.subrange(0, i as int));
                assert(upto.displays.drop_last() =~= all.displays.subrange(0, i as int));
                assert(upto.displays.last() == self.card_list()[i as int].displays());
            }
            if self.cards.value(i).has_displays(seat) {
                let node = self.cards.key(i).clone();
                let ghost before = found@;
                found.push(node);
                assert(spec_texts(found@) =~= spec_texts(before).push(all.nodes[i as int]));
            }
            i += 1;
        }
        proof {
            assert(all.nodes.subrange(0, n as int) =~= all.nodes);
            assert(all.displays.subrange(0, n as int) =~= all.displays);
        }
        found
    }

    /// Answers a request of `peer_pid` for the displays of `peer_seat`, given
    /// whether the holder of the seat's grant is alive.
    pub fn answer_request(&self, peer_pid: i32, peer_seat: &SeatId, holder_alive: bool) -> (r:
        Reaction)
        requires
            self.wf(),
        ensures
            self.spec_request(r, peer_pid, peer_seat@, holder_alive),
    {
        if holder_alive && self.leases.position(peer_seat.as_str()).is_some() {
            Reaction::Reply(Response { message: ServerMessage::SeatBusy, fds: Vec::new() })
        } else {
            Reaction::Lease { lease: Lease::new(peer_pid), cards: self.cards_for_seat(peer_seat) }
        }
    }

    /// Answers a request of `peer_pid` for the displays of `peer_seat`. Where
    /// the seat holds a grant, its holder is probed, and the answer is the
    /// one for what the probe found.
    pub fn handle_request_displays(&self, peer_pid: i32, peer_seat: &SeatId) -> (r: Reaction)
        requires
            self.wf(),
        ensures
            self.spec_request(r, peer_pid, peer_seat@, true) || self.spec_request(
                r,
                peer_pid,
                peer_seat@,
                false,
            ),
            !self.leases().dom().contains(peer_seat@) ==> self.spec_request(
                r,
                peer_pid,
                peer_seat@,
                false,
            ),
    {
        let holder_alive = match self.leases.position(peer_seat.as_str()) {
            Some(i) => is_process_exist(self.leases.value(i).pid),
            None => false,
        };
        self.answer_request(peer_pid, peer_seat, holder_alive)
    }

    /// Makes `lease` the grant of `peer_seat`, in place of any that the seat
    /// held, and gives the response that tells the peer so.
    pub fn grant(&mut self, peer_seat: SeatId, lease: Lease) -> (r: Response)
        requires
            old(self).wf(),
        ensures
            old(self).spec_grant(*final(self), r, peer_seat@, lease),
    {
        let fds = lease.lease_fds();
        match self.leases.position(peer_seat.as_str()) {
            Some(i) => {
                proof {
                    lemma_position_found(self.lease_seats(), peer_seat@);
                    lemma_entries_update(self.lease_seats(), self.lease_list(), i as int, lease);
                }
                let held = self.leases.value_mut(i);
                *held = lease;
            },
            None => {
                proof {
                    lemma_entries_push(
                        self.lease_seats(),
                        self.lease_list(),
                        peer_seat@,
                        lease,
                    );
                }
                self.leases.insert(peer_seat, lease);
            },
        }
        Response { message: ServerMessage::LeaseGranted, fds }
    }

    /// Lists the kernel leases of `lease` for revocation, each marked by
    /// whether its card is known.
    pub fn revoke_lease(&self, lease: &Lease) -> (r: Vec<Revocation>)
        requires
            self.wf(),
        ensures
            spec_revokes(r@, lease.infos@, self.card_nodes()),
    {
        let mut revocations: Vec<Revocation> = Vec::new();
        let mut i: usize = 0;
        while i < lease.infos.len()
            invariant
                self.wf(),
                i <= lease.infos.len(),
                spec_revokes(revocations@, lease.infos@.subrange(0, i as int), self.card_nodes()),
            decreases lease.infos.len() - i,
        {
            let info = &lease.infos[i];
            let card_known = self.cards.position(info.card_node.as_str()).is_some();
            revocations.push(
                Revocation {
                    card_node: info.card_node.clone(),
                    lessee_id: info.lessee_id,
                    card_known,
                },
            );
            i += 1;
        }
        assert(lease.infos@.subrange(0, lease.infos.len() as int) =~= lease.infos@);
        revocations
    }

    /// Takes the grant of `peer_seat` back from `peer_pid`.
    pub fn handle_release_displays(&mut self, peer_pid: i32, peer_seat: &SeatId) -> (r: Reaction)
        requires
            old(self).wf(),
        ensures
            old(self).spec_release(*final(self), r, peer_pid, peer_seat@),
    {
        match self.leases.position(peer_seat.as_str()) {
            None => Reaction::Reply(
                Response { message: ServerMessage::LeaseNotFound, fds: Vec::new() },
            ),
            Some(i) => {
                proof {
                    lemma_position_found(self.lease_seats(), peer_seat@);
                }
                if self.leases.value(i).pid != peer_pid {
                    Reaction::Reply(
                        Response { message: ServerMessage::NoPermission, fds: Vec::new() },
                    )
                } else {
                    proof {
                        lemma_entries_remove(self.lease_seats(), self.lease_list(), i as int);
                    }
                    let (_, lease) = self.leases.remove(i);
                    let revocations = self.revoke_lease(&lease);
                    let fds = lease.lease_fds();
                    Reaction::Revoke {
                        revocations,
                        response: Response { message: ServerMessage::LeaseRevoked, fds },
                    }
                }
            },
        }
    }

    /// Does what the message of `peer_pid` on `peer_seat` asks for.
    pub fn handle_client_message(
        &mut self,
        peer_pid: i32,
        peer_seat: &SeatId,
        message: ClientMessage,
    ) -> (r: Reaction)
        requires
            old(self).wf(),
        ensures
            final(self).wf(),
            old(self).spec_dispatch(*final(self), r, peer_pid, peer_seat@, message),
    {
        match message {
            ClientMessage::RequestDisplays => self.handle_request_displays(peer_pid, peer_seat),
            ClientMessage::ReleaseDisplays => self.handle_release_displays(peer_pid, peer_seat),
        }
    }

    /// Serves one connection, given what was learned of the peer: the process
    /// that its credentials name, the seat that the session manager gave for
    /// that process, and the bytes that it sent. A peer without a process, a
    /// process without a seat and bytes that are no request are turned down,
    /// in this order, and leave the arbiter as it is.
    pub fn handle_client(&mut self, peer_pid: Option<i32>, seat_id: &str, request: &[u8]) -> (r:
        Result<Reaction, (Error, Option<i32>)>)
        requires
            old(self).wf(),
        ensures
            final(self).wf(),
            match peer_pid {
                None => *final(self) == *old(self) && spec_refused(r, Error::NoPeerPid, None),
                Some(pid) => if seat_id@.len() == 0 {
                    *final(self) == *old(self) && spec_refused(r, Error::NoSeat, Some(pid))
                } else {
                    match ClientMessage::spec_decode(request@) {
                        None => *final(self) == *old(self) && spec_refused(
                            r,
                            Error::PeerBadMsg,
                            Some(pid),
                        ),
                        Some(message) => r matches Ok(reaction) && old(self).spec_dispatch(
                            *final(self),
                            reaction,
                            pid,
                            seat_id@,
                            message,
                        ),
                    }
                },
            },
    {
        let pid = match peer_pid {
            Some(pid) => pid,
            None => {
                return Err((Error::NoPeerPid, None));
            },
        };
        let peer_seat = match crate::session::process_seat(seat_id) {
            Ok(seat) => seat,
            Err(error) => {
                return Err((error, Some(pid)));
            },
        };
        let message = match ClientMessage::decode(request) {
            Ok(message) => message,
            Err(error) => {
                return Err((error, Some(pid)));
            },
        };
        Ok(self.handle_client_message(pid, &peer_seat, message))
    }

    /// The device nodes of the cards, oldest first.
    pub fn nodes(&self) -> (r: Vec<String>)
        requires
            self.wf(),
        ensures
            spec_texts(r@) == self.card_nodes(),
    {
        let mut nodes: Vec<String> = Vec::new();
        let mut i: usize = 0;
        let n: usize = self.cards.len();
        while i < n
            invariant
                self.wf(),
                n == self.card_nodes().len(),
                i <= n,
                spec_texts(nodes@) == self.card_nodes().subrange(0, i as int),
            decreases n - i,
        {
            let ghost before = nodes@;
            nodes.push(self.cards.key(i).clone());
            assert(spec_texts(nodes@) =~= spec_texts(before).push(self.card_nodes()[i as int]));
            i += 1;
        }
        assert(self.card_nodes().subrange(0, n as int) =~= self.card_nodes());
        nodes
    }

    /// The card at the device node `node`, if there is one.
    pub fn card(&self, node: &str) -> (r: Option<&Card>)
        requires
            self.wf(),
        ensures
            match spec_position(self.card_nodes(), node@) {
                Some(i) => r matches Some(card) && *card == self.card_list()[i] && card.wf(),
                None => r.is_none(),
            },
    {
        match self.cards.position(node) {
            Some(i) => Some(self.cards.value(i)),
            None => None,
        }
    }

    /// The grant of `seat`, if the seat holds one.
    pub fn lease(&self, seat: &str) -> (r: Option<&Lease>)
        requires
            self.wf(),
        ensures
            r.is_some() == self.leases().dom().contains(seat@),
            r matches Some(lease) ==> *lease == self.leases()[seat@],
    {
        match self.leases.position(seat) {
            Some(i) => Some(self.leases.value(i)),
            None => None,
        }
    }
}

/// Registering a device node twice is registering it once.
pub proof fn lemma_register_again(cards: Cards, node: Seq<char>)
    requires
        cards.nodes.no_duplicates(),
    ensures
        spec_register(spec_register(cards, node).0, node) == spec_register(cards, node),
{
    lemma_position_found(cards.nodes, node);
    if spec_position(cards.nodes, node).is_none() {
        let more = cards.nodes.push(node);
        assert(more.no_duplicates());
        lemma_position(more, cards.nodes.len() as int);
    }
}

/// At most one grant per seat: two grants of an arbiter that stand under the
/// same seat are one and the same.
pub proof fn lemma_one_lease_per_seat(distributor: Distributor, i: int, j: int)
    requires
        distributor.wf(),
        0 <= i < distributor.lease_seats().len(),
        0 <= j < distributor.lease_seats().len(),
        distributor.lease_seats()[i] == distributor.lease_seats()[j],
    ensures
        i == j,
{
}

/// A seat that was granted is busy for whoever asks next while the holder is
/// alive, and the holder's grant is still what the seat holds.
pub proof fn lemma_granted_seat_is_busy(
    before: Distributor,
    granted: Distributor,
    response: Response,
    seat: Seq<char>,
    lease: Lease,
    next_pid: i32,
    reaction: Reaction,
)
    requires
        before.spec_grant(granted, response, seat, lease),
        granted.spec_request(reaction, next_pid, seat, true),
    ensures
        reaction matches Reaction::Reply(answer) && spec_plain(answer, ServerMessage::SeatBusy),
        granted.leases().dom().contains(seat),
        granted.leases()[seat] == lease,
{
}

/// A seat whose holder is dead is free: whoever asks is told to lease its
/// displays, and the grant that follows belongs to the one who asked.
pub proof fn lemma_dead_holder_is_superseded(
    before: Distributor,
    peer_pid: i32,
    seat: Seq<char>,
    reaction: Reaction,
    lease: Lease,
    granted: Distributor,
    response: Response,
)
    requires
        before.spec_request(reaction, peer_pid, seat, false),
        reaction matches Reaction::Lease { lease: empty, .. } && lease.pid == empty.pid,
        before.spec_grant(granted, response, seat, lease),
    ensures
        granted.leases().dom().contains(seat),
        granted.leases()[seat].pid == peer_pid,
        response.message == ServerMessage::LeaseGranted,
        forall|other: Seq<char>|
            other != seat ==> granted.leases().dom().contains(other)
                == before.leases().dom().contains(other),
{
}

/// The holder's release takes the grant away, and a release that follows,
/// whoever sends it, finds none and changes nothing.
pub proof fn lemma_release_twice(
    before: Distributor,
    released: Distributor,
    last: Distributor,
    peer_pid: i32,
    next_pid: i32,
    seat: Seq<char>,
    first: Reaction,
    second: Reaction,
)
    requires
        before.leases().dom().contains(seat),
        before.leases()[seat].pid == peer_pid,
        before.spec_release(released, first, peer_pid, seat),
        released.spec_release(last, second, next_pid, seat),
    ensures
        first matches Reaction::Revoke { response, .. } && response.message
            == ServerMessage::LeaseRevoked,
        !released.leases().dom().contains(seat),
        second matches Reaction::Reply(answer) && spec_plain(answer, ServerMessage::LeaseNotFound),
        last == released,
{
}

/// A release by a process that does not hold the seat's grant is answered
/// with `NoPermission` and leaves the arbiter as it is.
pub proof fn lemma_release_needs_holder(
    before: Distributor,
    after: Distributor,
    peer_pid: i32,
    seat: Seq<char>,
    reaction: Reaction,
)
    requires
        before.leases().dom().contains(seat),
        before.leases()[seat].pid != peer_pid,
        before.spec_release(after, reaction, peer_pid, seat),
    ensures
        reaction matches Reaction::Reply(answer) && spec_plain(answer, ServerMessage::NoPermission),
        after == before,
{
}

/// A request names a card exactly when the card holds a display of the seat.
pub proof fn lemma_cards_for(cards: Cards, seat: Seq<char>, node: Seq<char>)
    requires
        cards.nodes.len() == cards.displays.len(),
    ensures
        spec_cards_for(cards, seat).contains(node) <==> exists|i: int|
            0 <= i < cards.nodes.len() && cards.nodes[i] == node
                && #[trigger] cards.displays[i].dom().contains(seat),
    decreases cards.nodes.len(),
{
    if cards.nodes.len() > 0 {
        let n = cards.nodes.len() - 1;
        let fewer = Cards { nodes: cards.nodes.drop_last(), displays: cards.displays.drop_last() };
        let before = spec_cards_for(fewer, seat);
        lemma_cards_for(fewer, seat, node);
        if spec_cards_for(cards, seat).contains(node) {
            if before.contains(node) {
                let i = choose|i: int|
                    0 <= i < fewer.nodes.len() && fewer.nodes[i] == node
                        && #[trigger] fewer.displays[i].dom().contains(seat);
                assert(cards.nodes[i] == node && cards.displays[i].dom().contains(seat));
            } else {
                let k = choose|k: int|
                    0 <= k < spec_cards_for(cards, seat).len() && spec_cards_for(cards, seat)[k]
                        == node;
                if cards.displays.last().dom().contains(seat) {
                    if k < before.len() {
                        assert(before[k] == node);
                    }
                    assert(cards.nodes[n] == node && cards.displays[n].dom().contains(seat));
                }
            }
        }
        if exists|i: int|
            0 <= i < cards.nodes.len() && cards.nodes[i] == node
                && #[trigger] cards.displays[i].dom().contains(seat) {
            let i = choose|i: int|
                0 <= i < cards.nodes.len() && cards.nodes[i] == node
                    && #[trigger] cards.displays[i].dom().contains(seat);
            if i < n {
                assert(fewer.nodes[i] == node && fewer.displays[i].dom().contains(seat));
                let k = choose|k: int| 0 <= k < before.len() && before[k] == node;
                if cards.displays.last().dom().contains(seat) {
                    assert(before.push(cards.nodes.last())[k] == node);
                }
            } else {
                assert(before.push(cards.nodes.last())[before.len() as int] == node);
            }
        }
    }
}

/// A card without a display for a seat gives the seat nothing: asked for a
/// lease it answers `NoDisplaysForSeat`, and a request for the seat does not
/// name it.
pub proof fn lemma_card_without_displays(
    cards: Cards,
    i: int,
    seat: Seq<char>,
    connectors: Seq<Connector>,
)
    requires
        cards.nodes.len() == cards.displays.len(),
        cards.nodes.no_duplicates(),
        0 <= i < cards.nodes.len(),
        !cards.displays[i].dom().contains(seat),
    ensures
        spec_lease_displays(cards.displays[i], seat, connectors) == Err::<Seq<u32>, Error>(
            Error::NoDisplaysForSeat,
        ),
        !spec_cards_for(cards, seat).contains(cards.nodes[i]),
{
    lemma_cards_for(cards, seat, cards.nodes[i]);
}

/// A card that holds a display of a seat gives the seat a lease: asked for
/// one it names resources, and a request for the seat names the card.
pub proof fn lemma_card_with_displays(
    cards: Cards,
    i: int,
    seat: Seq<char>,
    connectors: Seq<Connector>,
)
    requires
        cards.nodes.len() == cards.displays.len(),
        0 <= i < cards.nodes.len(),
        cards.displays[i].dom().contains(seat),
    ensures
        spec_lease_displays(cards.displays[i], seat, connectors).is_ok(),
        spec_cards_for(cards, seat).contains(cards.nodes[i]),
{
    lemma_cards_for(cards, seat, cards.nodes[i]);
}

/// Whether each device node of `cards` has its displays and none stands twice.
pub open spec fn spec_cards_wf(cards: Cards) -> bool {
    cards.nodes.len() == cards.displays.len() && cards.nodes.no_duplicates()
}

/// Whether `after` holds all that `before` holds: every card of `before` at
/// its place, with every display that it had for every seat.
pub open spec fn spec_cards_kept(before: Cards, after: Cards) -> bool {
    &&& before.nodes.len() <= after.nodes.len()
    &&& forall|i: int| 0 <= i < before.nodes.len() ==> #[trigger] after.nodes[i] == before.nodes[i]
    &&& forall|i: int, seat: Seq<char>, display: DisplayId|
        0 <= i < before.nodes.len() && before.displays[i].dom().contains(seat)
            && #[trigger] before.displays[i][seat].contains(display)
            ==> after.displays[i].dom().contains(seat) && after.displays[i][seat].contains(
            display,
        )
}

/// Taking a device in only adds: no card and no display is lost, whether or
/// not the device gives an error.
pub proof fn lemma_process_device_keeps(cards: Cards, dev: Device)
    requires
        spec_cards_wf(cards),
    ensures
        spec_cards_wf(spec_process_device(cards, dev).0),
        spec_cards_kept(cards, spec_process_device(cards, dev).0),
{
    let after = spec_process_device(cards, dev).0;
    if after != cards {
        let node = if dev.devtype@ == "drm_minor"@ && spec_contains(dev.sysname@, "card"@) {
            dev.devnode.unwrap()@
        } else {
            dev.parent.unwrap().devnode.unwrap()@
        };
        let (known, i) = spec_register(cards, node);
        lemma_position_found(cards.nodes, node);
        assert(spec_cards_wf(known));
        assert(spec_cards_kept(cards, known));
        assert(0 <= i < known.nodes.len());
        assert(spec_cards_kept(known, after));
    }
}

/// Taking devices in only adds: no card and no display is lost, wherever
/// the scan stops.
pub proof fn lemma_scan_devices_keeps(cards: Cards, devices: Seq<Device>)
    requires
        spec_cards_wf(cards),
    ensures
        spec_cards_wf(spec_scan_devices(cards, devices).0),
        spec_cards_kept(cards, spec_scan_devices(cards, devices).0),
    decreases devices.len(),
{
    if devices.len() > 0 {
        let (next, error) = spec_process_device(cards, devices.first());
        lemma_process_device_keeps(cards, devices.first());
        if error.is_none() {
            lemma_scan_devices_keeps(next, devices.drop_first());
            let last = spec_scan_devices(next, devices.drop_first()).0;
            assert forall|i: int, seat: Seq<char>, display: DisplayId|
                0 <= i < cards.nodes.len() && cards.displays[i].dom().contains(seat)
                    && #[trigger] cards.displays[i][seat].contains(
                    display,
                ) implies last.displays[i].dom().contains(seat) && last.displays[i][seat].contains(
                display,
            ) by {
                assert(next.displays[i][seat].contains(display));
            }
            assert forall|i: int| 0 <= i < cards.nodes.len() implies #[trigger] last.nodes[i]
                == cards.nodes[i] by {
                assert(next.nodes[i] == cards.nodes[i]);
            }
        }
    }
}

} // verus!
