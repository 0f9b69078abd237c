//! Displays and cards: which connector is which display, which displays of a
//! card belong to which seat, and what a lease for a seat has to name.

use crate::distributor::SeatId;
use crate::error::Error;
use crate::registry::{lemma_position, lemma_position_found, spec_position, Registry};
use crate::text::{
    chars_of, last_index_of, lemma_last_index_of, lemma_last_index_of_is, matches_at, parse_u32,
    same_chars, spec_has_prefix, spec_last_index_of, spec_parse_u32, spec_texts,
};
use vstd::prelude::*;

verus! {

/// The highest interface number with a name of its own.
pub const LAST_INTERFACE: u32 = 20;

/// The name that the `drm` crate gives to the connector interface with the
/// number `code`, such as `HDMI-A` or `DP`.
pub uninterp spec fn spec_interface_name(code: u32) -> Seq<char>;

/// `drm::control::connector::Interface::as_str`, reached from the interface's
/// number through `Interface::from`. The name depends on the number alone.
#[verifier::external_body]
fn interface_name(code: u32) -> (r: String)
    ensures
        r@ == spec_interface_name(code),
{
    ::drm::control::connector::Interface::from(code).as_str().to_owned()
}

/// The names of the interfaces, each at the place of its number.
pub open spec fn spec_interface_names() -> Seq<Seq<char>> {
    Seq::new((LAST_INTERFACE + 1) as nat, |code: int| spec_interface_name(code as u32))
}

/// The first place from `from` on at which `name` stands in `names`, or zero
/// where it stands at none of them.
pub open spec fn spec_place_from(names: Seq<Seq<char>>, name: Seq<char>, from: int) -> int
    decreases names.len() - from,
{
    if from < 0 || from >= names.len() {
        0
    } else if names[from] == name {
        from
    } else {
        spec_place_from(names, name, from + 1)
    }
}

/// The number of the interface that goes by `name`, where `names` holds the
/// name of each interface at the place of its number. Zero is the number of
/// the unknown interface: a name that no interface goes by gives it.
pub open spec fn spec_interface_among(names: Seq<Seq<char>>, name: Seq<char>) -> int {
    spec_place_from(names, name, 1)
}

/// The number of the interface that goes by `name`.
pub open spec fn spec_interface(name: Seq<char>) -> u32 {
    spec_interface_among(spec_interface_names(), name) as u32
}

/// A connector of a card: the kind of its interface and its number among the
/// connectors of that kind.
#[derive(Clone, Copy, Debug, PartialEq, Eq, Hash, Structural)]
pub struct DisplayId {
    /// The number of the interface kind.
    pub interface: u32,
    /// The number of the connector among those of its kind.
    pub id: u32,
}

/// The interface name and the number that `value` is made of: the name is
/// the text before the last `-`, the number is written behind it.
pub open spec fn spec_split_display(value: Seq<char>) -> Option<(Seq<char>, u32)> {
    match spec_last_index_of(value, '-') {
        Some(i) => match spec_parse_u32(value.subrange(i + 1, value.len() as int)) {
            Some(id) => Some((value.subrange(0, i), id)),
            None => None,
        },
        None => None,
    }
}

/// The display that `value` names.
pub open spec fn spec_display_id(value: Seq<char>) -> Option<DisplayId> {
    match spec_split_display(value) {
        Some((name, id)) => Some(DisplayId { interface: spec_interface(name), id }),
        None => None,
    }
}

/// The display that the connector `connector` of the GPU `gpu` is: what
/// follows the GPU's name and a `-` names it.
pub open spec fn spec_connector_display(gpu: Seq<char>, connector: Seq<char>) -> Option<
    DisplayId,
> {
    let prefix = gpu.push('-');
    if spec_has_prefix(connector, prefix) {
        spec_display_id(connector.subrange(prefix.len() as int, connector.len() as int))
    } else {
        None
    }
}

/// Finds the number of the interface that goes by `name`, given the name of
/// each interface at the place of its number.
pub fn interface_among(names: &Vec<String>, name: &Vec<char>) -> (r: u32)
    requires
        names.len() <= u32::MAX,
    ensures
        r == spec_interface_among(spec_texts(names@), name@),
        r == 0 || r < names.len(),
{
    let ghost texts = spec_texts(names@);
    let mut code: usize = 1;
    while code < names.len()
        invariant
            1 <= code,
            names.len() <= u32::MAX,
            texts == spec_texts(names@),
            spec_interface_among(texts, name@) == spec_place_from(texts, name@, code as int),
        decreases names.len() - code,
    {
        let known = chars_of(names[code].as_str());
        if same_chars(&known, name) {
            return code as u32;
        }
        code += 1;
    }
    0
}

/// The name of each interface, at the place of its number.
pub fn interface_names() -> (r: Vec<String>)
    ensures
        spec_texts(r@) == spec_interface_names(),
{
    let mut names: Vec<String> = Vec::new();
    let mut code: u32 = 0;
    while code <= LAST_INTERFACE
        invariant
            code <= LAST_INTERFACE + 1,
            names@.len() == code,
            forall|k: int| 0 <= k < code ==> (#[trigger] names@[k])@ == spec_interface_name(k as u32),
        decreases LAST_INTERFACE + 1 - code,
    {
        names.push(interface_name(code));
        code += 1;
    }
    assert(spec_texts(names@) =~= spec_interface_names());
    names
}

/// Finds the number of the interface that goes by `name`.
pub fn interface_of(name: &Vec<char>) -> (r: u32)
    ensures
        r == spec_interface(name@),
        r <= LAST_INTERFACE,
{
    let names = interface_names();
    interface_among(&names, name)
}

/// Splits the characters of `value` that follow position `from` into an
/// interface name and a number.
pub fn split_display(value: &Vec<char>, from: usize) -> (r: Option<(Vec<char>, u32)>)
    requires
        from <= value.len(),
    ensures
        match spec_split_display(value@.subrange(from as int, value.len() as int)) {
            Some((name, id)) => r matches Some(found) && found.0@ == name && found.1 == id,
            None => r.is_none(),
        },
{
    let mut rest: Vec<char> = Vec::new();
    let mut i: usize = from;
    while i < value.len()
        invariant
            from <= i <= value.len(),
            rest@ == value@.subrange(from as int, i as int),
        decreases value.len() - i,
    {
        rest.push(value[i]);
        i += 1;
    }
    match last_index_of(&rest, '-') {
        None => None,
        Some(dash) => {
            let mut name: Vec<char> = Vec::new();
            let mut k: usize = 0;
            while k < dash
                invariant
                    k <= dash < rest.len(),
                    name@ == rest@.subrange(0, k as int),
                decreases dash - k,
            {
                name.push(rest[k]);
                k += 1;
            }
            match parse_u32(&rest, dash + 1) {
                None => None,
                Some(id) => Some((name, id)),
            }
        },
    }
}

/// Reads a display from the characters of `value` that follow position `from`.
fn display_from(value: &Vec<char>, from: usize) -> (r: Option<DisplayId>)
    requires
        from <= value.len(),
    ensures
        r == spec_display_id(value@.subrange(from as int, value.len() as int)),
{
    match split_display(value, from) {
        None => None,
        Some((name, id)) => Some(DisplayId { interface: interface_of(&name), id }),
    }
}

impl DisplayId {
    /// Reads a display from `<interface>-<id>`. The interface is the text
    /// before the last `-`; a name that no interface goes by gives the unknown
    /// interface. The number is written in decimal digits and fits in 32
    /// bits. Without a `-`, or with anything else behind it, there is no display.
    pub fn try_from(value: &str) -> (r: Result<DisplayId, Error>)
        ensures
            r == match spec_display_id(value@) {
                Some(display) => Ok::<DisplayId, Error>(display),
                None => Err(Error::UnableToParseDisplayId),
            },
    {
        let chars = chars_of(value);
        assert(chars@.subrange(0, chars.len() as int) =~= chars@);
        match display_from(&chars, 0) {
            Some(display) => Ok(display),
            None => Err(Error::UnableToParseDisplayId),
        }
    }

    /// Reads the display of a connector from the connector's name, which is
    /// the name of its GPU, a `-`, and then `<interface>-<id>`.
    pub fn of_connector(gpu: &str, connector: &str) -> (r: Result<DisplayId, Error>)
        ensures
            r == match spec_connector_display(gpu@, connector@) {
                Some(display) => Ok::<DisplayId, Error>(display),
                None => Err(Error::UnableToParseDisplayId),
            },
    {
        let mut prefix = chars_of(gpu);
        prefix.push('-');
        let name = chars_of(connector);
        if !matches_at(&name, 0, &prefix) {
            return Err(Error::UnableToParseDisplayId);
        }
        match display_from(&name, prefix.len()) {
            Some(display) => Ok(display),
            None => Err(Error::UnableToParseDisplayId),
        }
    }

    /// The name of the display's interface.
    pub fn interface_name(&self) -> (r: String)
        ensures
            r@ == spec_interface_name(self.interface),
    {
        interface_name(self.interface)
    }
}

/// What a card reports of one of its connectors.
pub struct Connector {
    /// The connector's resource handle.
    pub handle: u32,
    /// The display that the connector is.
    pub display: DisplayId,
    /// For each encoder that the connector can use, in the card's order, the
    /// handle of the CRTC that the encoder drives at present, if it drives one.
    pub crtcs: Vec<Option<u32>>,
}

/// The CRTCs that the encoders drive, in the encoders' order.
pub open spec fn spec_crtcs(encoders: Seq<Option<u32>>) -> Seq<u32>
    decreases encoders.len(),
{
    if encoders.len() == 0 {
        Seq::empty()
    } else {
        let before = spec_crtcs(encoders.drop_last());
        match encoders.last() {
            Some(crtc) => before.push(crtc),
            None => before,
        }
    }
}

/// The resources of a lease on `displays`: in the card's order, each
/// connector that is one of the displays, followed by the CRTCs reachable
/// through its encoders.
pub open spec fn spec_resources(displays: Set<DisplayId>, connectors: Seq<Connector>) -> Seq<u32>
    decreases connectors.len(),
{
    if connectors.len() == 0 {
        Seq::empty()
    } else {
        let before = spec_resources(displays, connectors.drop_last());
        let connector = connectors.last();
        if displays.contains(connector.display) {
            before.push(connector.handle) + spec_crtcs(connector.crtcs@)
        } else {
            before
        }
    }
}

/// What a lease of the displays of `seat` names on a card with `displays`,
/// or the error where the card has no display for the seat.
pub open spec fn spec_lease_displays(
    displays: SeatDisplays,
    seat: Seq<char>,
    connectors: Seq<Connector>,
) -> Result<Seq<u32>, Error> {
    if displays.dom().contains(seat) {
        Ok(spec_resources(displays[seat], connectors))
    } else {
        Err(Error::NoDisplaysForSeat)
    }
}

/// Tests whether `display` is among `displays`.
fn holds_display(displays: &Vec<DisplayId>, display: DisplayId) -> (r: bool)
    ensures
        r == displays@.contains(display),
{
    let mut i: usize = 0;
    while i < displays.len()
        invariant
            i <= displays.len(),
            forall|k: int| 0 <= k < i ==> displays@[k] != display,
        decreases displays.len() - i,
    {
        if displays[i] == display {
            return true;
        }
        i += 1;
    }
    false
}

/// The displays of each seat that has any on one card.
pub type SeatDisplays = Map<Seq<char>, Set<DisplayId>>;

/// The displays of `seat` in `displays`; none where the seat has none.
pub open spec fn spec_displays_of(displays: SeatDisplays, seat: Seq<char>) -> Set<DisplayId> {
    if displays.dom().contains(seat) {
        displays[seat]
    } else {
        Set::empty()
    }
}

/// `displays` with `display` as one more display of `seat`.
pub open spec fn spec_add_display(
    displays: SeatDisplays,
    seat: Seq<char>,
    display: DisplayId,
) -> SeatDisplays {
    displays.insert(seat, spec_displays_of(displays, seat).insert(display))
}

/// A GPU: for each seat, the displays of the card that belong to it.
pub struct Card {
    displays: Registry<Vec<DisplayId>>,
}

impl Card {
    /// Every seat that the card knows has a display.
    pub closed spec fn wf(&self) -> bool {
        &&& self.displays.wf()
        &&& forall|i: int|
            0 <= i < self.displays.values().len() ==> {
                let held = #[trigger] self.displays.values()[i];
                held@.len() > 0 && held@.no_duplicates()
            }
    }

    /// The displays of each seat that has any on this card.
    pub closed spec fn displays(&self) -> SeatDisplays {
        Map::new(
            |seat: Seq<char>| self.displays.has(seat),
            |seat: Seq<char>| self.displays.at(seat)@.to_set(),
        )
    }

    /// A seat that the card knows has a display on it.
    pub proof fn lemma_known_seat_has_display(&self, seat: Seq<char>)
        requires
            self.wf(),
            self.displays().dom().contains(seat),
        ensures
            exists|display: DisplayId| self.displays()[seat].contains(display),
    {
        lemma_position_found(self.displays.keys(), seat);
        let i = spec_position(self.displays.keys(), seat).unwrap();
        let held = self.displays.values()[i];
        assert(held@.len() > 0);
        assert(held@.contains(held@[0]));
        assert(self.displays()[seat].contains(held@[0]));
    }

    /// A card that no display has been registered on.
    pub fn new() -> (r: Self)
        ensures
            r.wf(),
            r.displays() == Map::<Seq<char>, Set<DisplayId>>::empty(),
    {
        let r = Card { displays: Registry::new() };
        assert(r.displays() =~= Map::<Seq<char>, Set<DisplayId>>::empty());
        r
    }

    /// Registers `display` as one of the displays of `seat`.
    pub fn add_seat_display(&mut self, seat: SeatId, display: DisplayId)
        requires
            old(self).wf(),
        ensures
            final(self).wf(),
            final(self).displays() == spec_add_display(old(self).displays(), seat@, display),
    {
        match self.displays.position(seat.as_str()) {
            Some(i) => {
                proof {
                    lemma_position_found(self.displays.keys(), seat@);
                }
                let held = self.displays.value_mut(i);
                if !holds_display(held, display) {
                    held.push(display);
                }
                proof {
                    let before = old(self).displays.values()[i as int];
                    let after = self.displays.values()[i as int];
                    assert(after@.to_set() =~= before@.to_set().insert(display)) by {
                        assert forall|d: DisplayId|
                            after@.contains(d) <==> before@.contains(d) || d == display by {
                            if after@ != before@ {
                                assert(after@ == before@.push(display));
                                if before@.contains(d) {
                                    let k = choose|k: int| 0 <= k < before@.len() && before@[k] == d;
                                    assert(after@[k] == d);
                                }
                                if d == display {
                                    assert(after@[before@.len() as int] == d);
                                }
                            }
                        }
                    }
                    assert forall|k: int| 0 <= k < self.displays.values().len() implies {
                        let held = #[trigger] self.displays.values()[k];
                        held@.len() > 0 && held@.no_duplicates()
                    } by {
                        if k != i {
                            assert(self.displays.values()[k] == old(self).displays.values()[k]);
                        } else {
                            assert(before@.len() > 0 && before@.no_duplicates());
                        }
                    }
                    assert(self.displays() =~= spec_add_display(
                        old(self).displays(),
                        seat@,
                        display,
                    ));
                }
            },
            None => {
                let mut held: Vec<DisplayId> = Vec::new();
                held.push(display);
                let ghost first = held;
                self.displays.insert(seat, held);
                proof {
                    assert(first@.to_set() =~= Set::<DisplayId>::empty().insert(display)) by {
                        assert(first@[0] == display);
                    }
                    let keys = self.displays.keys();
                    lemma_position(keys, keys.len() - 1);
                    assert forall|other: Seq<char>| other != seat@ implies (
                    spec_position(keys, other)
                        == spec_position(old(self).displays.keys(), other)) by {
                        lemma_position_found(keys, other);
                        lemma_position_found(old(self).displays.keys(), other);
                        match spec_position(old(self).displays.keys(), other) {
                            Some(k) => {
                                lemma_position(keys, k);
                            },
                            None => {},
                        }
                    }
                    assert(self.displays() =~= spec_add_display(
                        old(self).displays(),
                        seat@,
                        display,
                    ));
                }
            },
        }
    }

    /// The displays that are registered on this card for `seat`, each once,
    /// in the order in which they were registered.
    pub fn seat_displays(&self, seat: &SeatId) -> (r: Vec<DisplayId>)
        requires
            self.wf(),
        ensures
            r@.no_duplicates(),
            r@.to_set() == spec_displays_of(self.displays(), seat@),
    {
        let mut displays: Vec<DisplayId> = Vec::new();
        match self.displays.position(seat.as_str()) {
            Some(i) => {
                let held = self.displays.value(i);
                let mut k: usize = 0;
                while k < held.len()
                    invariant
                        k <= held.len(),
                        displays@ == held@.subrange(0, k as int),
                    decreases held.len() - k,
                {
                    displays.push(held[k]);
                    k += 1;
                }
                assert(held@.subrange(0, held.len() as int) =~= held@);
            },
            None => {
                assert(displays@.to_set() =~= Set::<DisplayId>::empty());
            },
        }
        displays
    }

    /// Whether a display is registered on this card for `seat`.
    pub fn has_displays(&self, seat: &SeatId) -> (r: bool)
        requires
            self.wf(),
        ensures
            r == self.displays().dom().contains(seat@),
    {
        self.displays.position(seat.as_str()).is_some()
    }

    /// Says which resources a lease of the displays of `seat` on this card
    /// names, given what the card reports of its connectors. A card without a
    /// display for the seat has nothing to lease.
    pub fn lease_displays(&self, seat: &SeatId, connectors: &Vec<Connector>) -> (r: Result<
        Vec<u32>,
        Error,
    >)
        requires
            self.wf(),
        ensures
            match spec_lease_displays(self.displays(), seat@, connectors@) {
                Ok(named) => r matches Ok(resources) && resources@ == named,
                Err(error) => r matches Err(given) && given == error,
            },
    {
        let held = match self.displays.position(seat.as_str()) {
            Some(i) => self.displays.value(i),
            None => {
                return Err(Error::NoDisplaysForSeat);
            },
        };
        let ghost displays = self.displays()[seat@];
        assert(displays == held@.to_set());
        let mut resources: Vec<u32> = Vec::new();
        let mut i: usize = 0;
        while i < connectors.len()
            invariant
                i <= connectors.len(),
                displays == held@.to_set(),
                resources@ == spec_resources(displays, connectors@.subrange(0, i as int)),
            decreases connectors.len() - i,
        {
            let connector = &connectors[i];
            let ghost upto = connectors@.subrange(0, i + 1);
            assert(upto.drop_last() =~= connectors@.subrange(0, i as int));
            assert(upto.last() == *connector);
            if holds_display(held, connector.display) {
                resources.push(connector.handle);
                let ghost base = resources@;
                let mut k: usize = 0;
                while k < connector.crtcs.len()
                    invariant
                        k <= connector.crtcs.len(),
                        resources@ == base + spec_crtcs(connector.crtcs@.subrange(0, k as int)),
                    decreases connector.crtcs.len() - k,
                {
                    let ghost seen = connector.crtcs@.subrange(0, k + 1);
                    assert(seen.drop_last() =~= connector.crtcs@.subrange(0, k as int));
                    assert(seen.last() == connector.crtcs@[k as int]);
                    match connector.crtcs[k] {
                        Some(crtc) => {
                            resources.push(crtc);
                            assert(resources@ =~= base + spec_crtcs(seen));
                        },
                        None => {},
                    }
                    k += 1;
                }
                assert(connector.crtcs@.subrange(0, connector.crtcs.len() as int)
                    =~= connector.crtcs@);
            }
            i += 1;
        }
        assert(connectors@.subrange(0, connectors.len() as int) =~= connectors@);
        Ok(resources)
    }
}

/// A name without a dash names no display, and neither does one without a
/// number behind its last dash. A connector whose name does not begin with
/// the name of its GPU and a dash is no display of that GPU.
pub proof fn lemma_no_display(gpu: Seq<char>, value: Seq<char>)
    ensures
        (forall|i: int| 0 <= i < value.len() ==> value[i] != '-') ==> spec_display_id(
            value,
        ).is_none(),
        forall|i: int|
            0 <= i < value.len() && value[i] == '-' && (forall|k: int|
                i < k < value.len() ==> value[k] != '-') && spec_parse_u32(
                value.subrange(i + 1, value.len() as int),
            ).is_none() ==> spec_display_id(value).is_none(),
        !spec_has_prefix(value, gpu.push('-')) ==> spec_connector_display(gpu, value).is_none(),
{
    lemma_last_index_of(value, '-');
    assert forall|i: int|
        0 <= i < value.len() && value[i] == '-' && (forall|k: int|
            i < k < value.len() ==> value[k] != '-') && spec_parse_u32(
            value.subrange(i + 1, value.len() as int),
        ).is_none() implies spec_display_id(value).is_none() by {
        lemma_last_index_of_is(value, '-', i);
    }
}

} // verus!
