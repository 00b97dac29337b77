//! The handler table: callbacks under opaque integer handles.
//!
//! A callback is named by a token that the application chooses. The table
//! gives each registered token a handle that no other live entry has. The
//! handle is what is written into the document, as the value of a synthetic
//! attribute, so the document holds strings and never a callback.
use slotmap::{DefaultKey, Key, KeyData, SlotMap};
use vstd::prelude::*;

verus! {

/// The token by which the application names one of its callbacks.
pub type Callback = u64;

/// A slot map of the `slotmap` crate, from its default keys to callbacks.
#[verifier::external_body]
pub struct Slots {
    map: SlotMap<DefaultKey, Callback>,
}

/// What a slot map holds: its values, each under the 64-bit form of its key.
pub uninterp spec fn slot_entries(slots: Slots) -> Map<u64, Callback>;

/// The 64-bit form of the key that an integer is read as. A key's version,
/// the upper half, is odd: reading an integer as a key sets that bit.
pub open spec fn handle_key(handle: u64) -> u64 {
    handle | 0x1_0000_0000u64
}

/// The entries of an empty slot map.
pub open spec fn no_entries() -> Map<u64, Callback> {
    Map::empty()
}

/// `entries` is a finite table of `count` entries.
pub open spec fn counted(entries: Map<u64, Callback>, count: usize) -> bool {
    entries.dom().finite() && entries.len() == count
}

/// The value that `entries` holds under the key that `handle` is read as, if
/// it holds one.
pub open spec fn entry_at(entries: Map<u64, Callback>, handle: u64) -> Option<Callback> {
    if entries.contains_key(handle_key(handle)) {
        Some(entries[handle_key(handle)])
    } else {
        None
    }
}

/// `SlotMap::new`: an empty slot map.
#[verifier::external_body]
fn slots_new() -> (slots: Slots)
    ensures
        slot_entries(slots) == no_entries(),
{
    Slots { map: SlotMap::new() }
}

/// `SlotMap::len`: the number of values held.
#[verifier::external_body]
fn slots_len(slots: &Slots) -> (count: usize)
    ensures
        counted(slot_entries(*slots), count),
{
    slots.map.len()
}

/// `SlotMap::insert`, with the key handed out in its 64-bit form
/// (`KeyData::as_ffi`): the value is stored under a key that no entry had,
/// and the key reads back as itself. The slot map panics when it is full,
/// which a count below the 32-bit limit less the slot it reserves rules out.
#[verifier::external_body]
fn slots_insert(slots: &mut Slots, value: Callback) -> (key: u64)
    requires
        slot_entries(*old(slots)).len() + 1 < u32::MAX,
    ensures
        !slot_entries(*old(slots)).contains_key(key),
        slot_entries(*final(slots)) == slot_entries(*old(slots)).insert(key, value),
        handle_key(key) == key,
{
    slots.map.insert(value).data().as_ffi()
}

/// `SlotMap::remove`, with the key read from its 64-bit form
/// (`KeyData::from_ffi`): the entry under that key leaves, and its value is
/// handed back; without such an entry nothing changes.
#[verifier::external_body]
fn slots_remove(slots: &mut Slots, handle: u64) -> (value: Option<Callback>)
    ensures
        value == entry_at(slot_entries(*old(slots)), handle),
        slot_entries(*final(slots)) == slot_entries(*old(slots)).remove(handle_key(handle)),
{
    slots.map.remove(KeyData::from_ffi(handle).into())
}

/// `SlotMap::get`, with the key read from its 64-bit form
/// (`KeyData::from_ffi`): the value under that key, if there is one.
#[verifier::external_body]
fn slots_get(slots: &Slots, handle: u64) -> (value: Option<Callback>)
    ensures
        value == entry_at(slot_entries(*slots), handle),
{
    slots.map.get(KeyData::from_ffi(handle).into()).copied()
}

/// The handler table.
pub struct EventRegistry {
    handlers: Slots,
}

impl View for EventRegistry {
    type V = Map<u64, Callback>;

    /// The registered callbacks, by handle.
    closed spec fn view(&self) -> Map<u64, Callback> {
        slot_entries(self.handlers)
    }
}

/// The most callbacks that a table holds.
pub const MAX_HANDLERS: usize = 0xffff_fffe;

impl EventRegistry {
    /// The table is well formed: every handle reads back as itself.
    pub open spec fn wf(&self) -> bool {
        &&& self@.dom().finite()
        &&& forall|h: u64| #[trigger] self@.contains_key(h) ==> handle_key(h) == h
    }

    /// The callback that a dispatch of `handle` reaches, if the handle is
    /// known.
    pub open spec fn lookup(&self, handle: u64) -> Option<Callback> {
        entry_at(self@, handle)
    }

    /// An empty table.
    pub fn new() -> (events: EventRegistry)
        ensures
            events.wf(),
            events@ == Map::<u64, Callback>::empty(),
    {
        EventRegistry { handlers: slots_new() }
    }

    /// The number of registered callbacks.
    pub fn len(&self) -> (len: usize)
        requires
            self.wf(),
        ensures
            len == self@.len(),
    {
        slots_len(&self.handlers)
    }
}

/// The token that a callback receives when it is invoked.
#[derive(Clone, Copy, Debug, PartialEq, Eq, Structural)]
pub struct Event;

impl Event {
    /// Registers `callback` and returns its handle, which no live entry has.
    pub fn insert(events: &mut EventRegistry, callback: Callback) -> (handle: u64)
        requires
            old(events).wf(),
            old(events)@.len() < MAX_HANDLERS,
        ensures
            final(events).wf(),
            !old(events)@.contains_key(handle),
            final(events)@ == old(events)@.insert(handle, callback),
            final(events).lookup(handle) == Some(callback),
    {
        slots_insert(&mut events.handlers, callback)
    }

    /// Registers `callback` where the table has room for it, and returns its
    /// handle; a full table is left as it is.
    pub fn try_insert(events: &mut EventRegistry, callback: Callback) -> (handle: Option<u64>)
        requires
            old(events).wf(),
        ensures
            final(events).wf(),
            handle is Some <==> old(events)@.len() < MAX_HANDLERS,
            handle matches Some(h) ==> !old(events)@.contains_key(h) && final(events)@ == old(
                events,
            )@.insert(h, callback) && final(events).lookup(h) == Some(callback),
            handle is None ==> *final(events) == *old(events),
    {
        if events.len() < MAX_HANDLERS {
            Some(Event::insert(events, callback))
        } else {
            None
        }
    }

    /// Erases the entry of `handle`. From then on the handle reaches no
    /// callback, until a later registration receives it again.
    pub fn remove(events: &mut EventRegistry, handle: u64)
        requires
            old(events).wf(),
        ensures
            final(events).wf(),
            final(events)@ == old(events)@.remove(handle_key(handle)),
            final(events).lookup(handle) is None,
    {
        slots_remove(&mut events.handlers, handle);
        assert(handle_key(handle_key(handle)) == handle_key(handle)) by (bit_vector)
            requires
                handle_key(handle) == handle | 0x1_0000_0000u64,
                handle_key(handle_key(handle)) == handle_key(handle) | 0x1_0000_0000u64,
        ;
    }

    /// Looks `handle` up for a dispatch: the callback to invoke with an
    /// [`Event`], or nothing where the handle is unknown, which is no error.
    pub fn call_mut(events: &EventRegistry, handle: u64) -> (callback: Option<Callback>)
        requires
            events.wf(),
        ensures
            callback == events.lookup(handle),
    {
        slots_get(&events.handlers, handle)
    }
}

} // verus!
