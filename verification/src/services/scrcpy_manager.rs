use vstd::prelude::*;

use dashmap::DashMap;

verus! {

/// The serials a map of pushed devices holds.
pub uninterp spec fn pushed_serials(m: DashMap<String, bool>) -> Set<Seq<char>>;

/// An empty map (`DashMap::new`). Trusted: it holds no serial.
#[verifier::external_body]
fn pushed_map_new() -> (r: DashMap<String, bool>)
    ensures
        pushed_serials(r) == Set::<Seq<char>>::empty(),
{
    DashMap::new()
}

/// Whether the map holds `serial` (`DashMap::contains_key`). Trusted: true
/// exactly when it does.
#[verifier::external_body]
fn pushed_map_contains(m: &DashMap<String, bool>, serial: &str) -> (r: bool)
    ensures
        r == pushed_serials(*m).contains(serial@),
{
    m.contains_key(serial)
}

/// Records `serial` (`DashMap::insert`). Trusted: the map then holds it, and
/// the other serials stay.
#[verifier::external_body]
fn pushed_map_insert(m: &mut DashMap<String, bool>, serial: String, pushed: bool)
    ensures
        pushed_serials(*final(m)) == pushed_serials(*old(m)).insert(serial@),
{
    m.insert(serial, pushed);
}

/// Forgets `serial` (`DashMap::remove`). Trusted: the map no longer holds it,
/// and the other serials stay.
#[verifier::external_body]
fn pushed_map_remove(m: &mut DashMap<String, bool>, serial: &str)
    ensures
        pushed_serials(*final(m)) == pushed_serials(*old(m)).remove(serial@),
{
    m.remove(serial);
}

/// What making scrcpy ready on a device takes next.
#[derive(Debug, PartialEq, Eq)]
pub enum ReadyStep {
    /// This session pushed the server already: nothing to do.
    AlreadyPushed,
    /// The server's JAR is not on this host: fail with this error.
    MissingJar(String),
    /// Push the JAR to the device, then record the device as done.
    Push,
}

/// The model of a step.
pub enum ReadyStepView {
    AlreadyPushed,
    MissingJar(Seq<char>),
    Push,
}

impl View for ReadyStep {
    type V = ReadyStepView;

    open spec fn view(&self) -> ReadyStepView {
        match self {
            ReadyStep::AlreadyPushed => ReadyStepView::AlreadyPushed,
            ReadyStep::MissingJar(e) => ReadyStepView::MissingJar(e@),
            ReadyStep::Push => ReadyStepView::Push,
        }
    }
}

/// The error when the server's JAR is not on this host.
pub open spec fn missing_jar_error() -> Seq<char> {
    "scrcpy-server.jar not found locally"@
}

/// The next step for `serial`, given the serials this session pushed to and
/// whether the JAR is on this host: a device already served needs nothing,
/// whether or not the JAR is still there.
pub open spec fn ready_spec(pushed: Set<Seq<char>>, serial: Seq<char>, jar_available: bool) -> ReadyStepView {
    if pushed.contains(serial) {
        ReadyStepView::AlreadyPushed
    } else if !jar_available {
        ReadyStepView::MissingJar(missing_jar_error())
    } else {
        ReadyStepView::Push
    }
}

/// The devices that scrcpy-server.jar was pushed to in this session.
pub struct PushedDevices {
    map: DashMap<String, bool>,
}

impl View for PushedDevices {
    type V = Set<Seq<char>>;

    closed spec fn view(&self) -> Set<Seq<char>> {
        pushed_serials(self.map)
    }
}

impl PushedDevices {
    /// No device pushed yet.
    pub fn new() -> (r: Self)
        ensures
            r@ == Set::<Seq<char>>::empty(),
    {
        PushedDevices { map: pushed_map_new() }
    }

    /// The next step for `serial` (see `ready_spec`).
    pub fn ready_step(&self, serial: &str, jar_available: bool) -> (r: ReadyStep)
        ensures
            r@ == ready_spec(self@, serial@, jar_available),
    {
        if pushed_map_contains(&self.map, serial) {
            ReadyStep::AlreadyPushed
        } else if !jar_available {
            ReadyStep::MissingJar("scrcpy-server.jar not found locally".to_string())
        } else {
            ReadyStep::Push
        }
    }

    /// Records that the JAR was pushed to `serial`.
    pub fn record_pushed(&mut self, serial: &str)
        ensures
            final(self)@ == old(self)@.insert(serial@),
    {
        pushed_map_insert(&mut self.map, serial.to_string(), true);
    }

    /// Forgets `serial` (when the device disconnects).
    pub fn remove_device(&mut self, serial: &str)
        ensures
            final(self)@ == old(self)@.remove(serial@),
    {
        pushed_map_remove(&mut self.map, serial);
    }
}

/// The JAR is pushed at most once per device and session: once a device is
/// recorded, it needs nothing more, whether or not the JAR is still on this
/// host, until it is removed; other devices are not affected by recording
/// it; after its removal it is treated as a device never served.
pub proof fn lemma_pushed_once_per_session(pushed: Set<Seq<char>>, serial: Seq<char>, other: Seq<char>, jar_available: bool)
    ensures
        ready_spec(pushed.insert(serial), serial, jar_available) == ReadyStepView::AlreadyPushed,
        other != serial ==> ready_spec(pushed.insert(serial), other, jar_available) == ready_spec(
            pushed,
            other,
            jar_available,
        ),
        ready_spec(pushed.remove(serial), serial, jar_available) == ready_spec(
            Set::<Seq<char>>::empty(),
            serial,
            jar_available,
        ),
{
}

/// What happens to the record of pushed devices: a push recorded for a
/// serial, or a serial removed.
pub enum PushEvent {
    Pushed(Seq<char>),
    Removed(Seq<char>),
}

/// The serials recorded after `events`, one after the other, starting from
/// `pushed` (each as `record_pushed` and `remove_device` state it).
pub open spec fn after_events(pushed: Set<Seq<char>>, events: Seq<PushEvent>) -> Set<Seq<char>>
    decreases events.len(),
{
    if events.len() == 0 {
        pushed
    } else {
        let rest = after_events(pushed, events.drop_last());
        match events.last() {
            PushEvent::Pushed(s) => rest.insert(s),
            PushEvent::Removed(s) => rest.remove(s),
        }
    }
}

/// Whatever else happens in between, a device whose push was recorded needs
/// nothing more as long as it is not removed after that: the JAR goes to a
/// device at most once per session.
pub proof fn lemma_pushed_until_removed(
    pushed: Set<Seq<char>>,
    events: Seq<PushEvent>,
    i: int,
    serial: Seq<char>,
    jar_available: bool,
)
    requires
        0 <= i < events.len(),
        events[i] == PushEvent::Pushed(serial),
        forall|j: int| i < j < events.len() ==> events[j] != PushEvent::Removed(serial),
    ensures
        after_events(pushed, events).contains(serial),
        ready_spec(after_events(pushed, events), serial, jar_available) == ReadyStepView::AlreadyPushed,
    decreases events.len(),
{
    let rest = events.drop_last();
    if i < events.len() - 1 {
        assert forall|j: int| i < j < rest.len() implies rest[j] != PushEvent::Removed(serial) by {
            assert(rest[j] == events[j]);
        }
        assert(rest[i] == events[i]);
        lemma_pushed_until_removed(pushed, rest, i, serial, jar_available);
        assert(events.last() != PushEvent::Removed(serial));
    }
}

} // verus!
