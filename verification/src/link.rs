//! Which keyboard carries which pointing devices along, and how each device is
//! reached.

use vstd::prelude::*;

verus! {

/// How one device is reached.
#[derive(Debug, PartialEq, Eq)]
pub enum DeviceRoute {
    /// A slot of a Bolt receiver.
    Bolt {
        /// The receiver's unique id.
        receiver_uid: String,
        /// The receiver slot the device is paired to.
        slot: u8,
    },
    /// A device reached without a receiver.
    Direct {
        /// What tells this device from every other one.
        id: String,
    },
}

/// A route as a mathematical value.
#[verifier::ext_equal]
pub enum RouteView {
    Bolt { receiver_uid: Seq<char>, slot: u8 },
    Direct { id: Seq<char> },
}

impl View for DeviceRoute {
    type V = RouteView;

    open spec fn view(&self) -> RouteView {
        match self {
            DeviceRoute::Bolt { receiver_uid, slot } => RouteView::Bolt {
                receiver_uid: receiver_uid@,
                slot: *slot,
            },
            DeviceRoute::Direct { id } => RouteView::Direct { id: id@ },
        }
    }
}

impl Clone for DeviceRoute {
    fn clone(&self) -> (copy: Self)
        ensures
            copy@ == self@,
            copy is Bolt <==> self is Bolt,
            copy is Bolt ==> {
                &&& copy->receiver_uid@ == self->receiver_uid@
                &&& copy->slot == self->slot
            },
            copy is Direct ==> copy->id@ == self->id@,
    {
        match self {
            DeviceRoute::Bolt { receiver_uid, slot } => DeviceRoute::Bolt {
                receiver_uid: receiver_uid.clone(),
                slot: *slot,
            },
            DeviceRoute::Direct { id } => DeviceRoute::Direct { id: id.clone() },
        }
    }
}

impl DeviceRoute {
    /// Whether two routes name the same device.
    #[must_use]
    pub fn same_as(&self, other: &DeviceRoute) -> (same: bool)
        ensures
            same == (self@ == other@),
    {
        match (self, other) {
            (
                DeviceRoute::Bolt { receiver_uid: left_uid, slot: left_slot },
                DeviceRoute::Bolt { receiver_uid: right_uid, slot: right_slot },
            ) => *left_uid == *right_uid && *left_slot == *right_slot,
            (DeviceRoute::Direct { id: left_id }, DeviceRoute::Direct { id: right_id }) => *left_id
                == *right_id,
            _ => false,
        }
    }
}

impl RouteView {
    /// The values of a sequence of routes.
    pub open spec fn each(routes: Seq<DeviceRoute>) -> Seq<RouteView> {
        Seq::new(routes.len(), |i: int| routes[i]@)
    }
}

/// One resolved link. Configuration keys are converted to live routes before
/// they get here, so nothing below needs to understand the device inventory.
#[derive(Debug, PartialEq, Eq)]
pub struct HostSwitchLink {
    /// Keyboard whose host switch keys initiate the transition.
    pub keyboard: DeviceRoute,
    /// Pointing devices that follow the keyboard.
    pub targets: Vec<DeviceRoute>,
}

/// A link as a mathematical value.
#[verifier::ext_equal]
pub struct LinkView {
    pub keyboard: RouteView,
    pub targets: Seq<RouteView>,
}

impl View for HostSwitchLink {
    type V = LinkView;

    open spec fn view(&self) -> LinkView {
        LinkView { keyboard: self.keyboard@, targets: RouteView::each(self.targets@) }
    }
}

impl LinkView {
    /// The values of a sequence of links.
    pub open spec fn each(links: Seq<HostSwitchLink>) -> Seq<LinkView> {
        Seq::new(links.len(), |i: int| links[i]@)
    }
}

impl Clone for HostSwitchLink {
    fn clone(&self) -> (copy: Self)
        ensures
            copy@ == self@,
    {
        let mut targets: Vec<DeviceRoute> = Vec::new();
        let mut i: usize = 0;
        while i < self.targets.len()
            invariant
                i <= self.targets.len(),
                targets@.len() == i,
                forall|k: int| 0 <= k < i ==> #[trigger] targets@[k]@ == self.targets@[k]@,
            decreases self.targets.len() - i,
        {
            targets.push(self.targets[i].clone());
            i = i + 1;
        }
        assert(RouteView::each(targets@) =~= RouteView::each(self.targets@));
        HostSwitchLink { keyboard: self.keyboard.clone(), targets }
    }
}

impl HostSwitchLink {
    /// Whether two links carry the same devices.
    #[must_use]
    pub fn same_as(&self, other: &HostSwitchLink) -> (same: bool)
        ensures
            same == (self@ == other@),
    {
        if !self.keyboard.same_as(&other.keyboard) || self.targets.len() != other.targets.len() {
            assert(self@ != other@) by {
                if self@ == other@ {
                    assert(RouteView::each(self.targets@).len() == RouteView::each(other.targets@).len());
                }
            }
            return false;
        }
        let mut i: usize = 0;
        while i < self.targets.len()
            invariant
                i <= self.targets.len(),
                self.targets.len() == other.targets.len(),
                forall|k: int| 0 <= k < i ==> #[trigger] self.targets@[k]@ == other.targets@[k]@,
            decreases self.targets.len() - i,
        {
            if !self.targets[i].same_as(&other.targets[i]) {
                assert(RouteView::each(self.targets@)[i as int] != RouteView::each(other.targets@)[i as int]);
                return false;
            }
            i = i + 1;
        }
        assert(RouteView::each(self.targets@) =~= RouteView::each(other.targets@));
        true
    }
}

/// Two routes are the same exactly if they name the same slot of the same
/// receiver, or the same device without one.
pub proof fn law_a_route_is_its_receiver_and_slot(a: DeviceRoute, b: DeviceRoute)
    ensures
        a@ == b@ <==> match (a, b) {
            (
                DeviceRoute::Bolt { receiver_uid: a_uid, slot: a_slot },
                DeviceRoute::Bolt { receiver_uid: b_uid, slot: b_slot },
            ) => a_uid@ == b_uid@ && a_slot == b_slot,
            (DeviceRoute::Direct { id: a_id }, DeviceRoute::Direct { id: b_id }) => a_id@ == b_id@,
            _ => false,
        },
{
}

/// Two links are the same exactly if they carry the same devices, the pointing
/// devices in the same order.
pub proof fn law_a_link_is_its_devices(a: HostSwitchLink, b: HostSwitchLink)
    ensures
        a@ == b@ <==> {
            &&& a.keyboard@ == b.keyboard@
            &&& a.targets@.len() == b.targets@.len()
            &&& forall|i: int|
                0 <= i < a.targets@.len() ==> (#[trigger] a.targets@[i])@ == b.targets@[i]@
        },
        a@.keyboard == a.keyboard@,
        a@.targets.len() == a.targets@.len(),
{
    let left = a@.targets;
    let right = b@.targets;
    if left == right {
        assert(left.len() == right.len());
        assert forall|i: int| 0 <= i < a.targets@.len() implies (#[trigger] a.targets@[i])@
            == b.targets@[i]@ by {
            assert(left[i] == right[i]);
        }
    } else if a.targets@.len() == b.targets@.len() && forall|i: int|
        0 <= i < a.targets@.len() ==> (#[trigger] a.targets@[i])@ == b.targets@[i]@ {
        assert(left =~= right);
    }
}

/// Whether `link` is one of `links`.
#[must_use]
pub fn contains_link(links: &[HostSwitchLink], link: &HostSwitchLink) -> (found: bool)
    ensures
        found == LinkView::each(links@).contains(link@),
{
    let mut i: usize = 0;
    while i < links.len()
        invariant
            i <= links.len(),
            forall|k: int| 0 <= k < i ==> #[trigger] links@[k]@ != link@,
        decreases links.len() - i,
    {
        if links[i].same_as(link) {
            assert(LinkView::each(links@)[i as int] == link@);
            return true;
        }
        i = i + 1;
    }
    assert(!LinkView::each(links@).contains(link@)) by {
        if LinkView::each(links@).contains(link@) {
            let k = choose|k: int| 0 <= k < LinkView::each(links@).len() && LinkView::each(links@)[k] == link@;
            assert(links@[k]@ == link@);
        }
    }
    false
}

/// A copy of `links`.
#[must_use]
pub fn copy_links(links: &[HostSwitchLink]) -> (copy: Vec<HostSwitchLink>)
    ensures
        LinkView::each(copy@) == LinkView::each(links@),
{
    let mut copy: Vec<HostSwitchLink> = Vec::new();
    let mut i: usize = 0;
    while i < links.len()
        invariant
            i <= links.len(),
            copy@.len() == i,
            forall|k: int| 0 <= k < i ==> #[trigger] copy@[k]@ == links@[k]@,
        decreases links.len() - i,
    {
        copy.push(links[i].clone());
        i = i + 1;
    }
    assert(LinkView::each(copy@) =~= LinkView::each(links@));
    copy
}

} // verus!
