//! The key-value store and its expiry policy.
//!
//! The store is a map from keys to entries. An entry holds a value and,
//! where the value was written with a time to live, the instant at which it
//! stops being served. Instants are milliseconds on the caller's clock.
//! Reading never removes anything: an entry past its deadline stays in the
//! map, unseen, until the key is written again.

use crate::clock::time_now;
use vstd::hash_map::StringHashMap;
use vstd::prelude::*;
use vstd::string::*;

verus! {

/// A stored value with its deadline.
#[derive(Debug, Clone, PartialEq, Eq)]
pub struct Entry {
    pub value: String,
    /// The first instant at which the value is no longer served; `None` for
    /// a value that is served for ever.
    pub expires_at: Option<u128>,
}

/// What an `Entry` holds, as mathematical text.
pub struct EntryView {
    pub value: Seq<char>,
    pub expires_at: Option<u128>,
}

impl View for Entry {
    type V = EntryView;

    open spec fn view(&self) -> EntryView {
        EntryView { value: self.value@, expires_at: self.expires_at }
    }
}

impl EntryView {
    /// Whether the entry is still served at `now`: it is until its deadline,
    /// and no longer at the deadline itself.
    pub open spec fn live_at(self, now: u128) -> bool {
        match self.expires_at {
            None => true,
            Some(deadline) => now < deadline,
        }
    }
}

/// The contents of a store.
pub type StoreView = Map<Seq<char>, EntryView>;

/// A message to the store.
#[derive(Debug, Clone, PartialEq, Eq)]
pub enum Command {
    /// Write `value` under `key`, to be served for `expiry_ms` milliseconds
    /// from now, or for ever where there is none.
    Put { key: String, value: String, expiry_ms: Option<u128> },
    /// Read what is served under `key`.
    Get { key: String },
}

/// What a `Command` holds, as mathematical text.
pub enum CommandView {
    Put { key: Seq<char>, value: Seq<char>, expiry_ms: Option<u128> },
    Get { key: Seq<char> },
}

impl View for Command {
    type V = CommandView;

    open spec fn view(&self) -> CommandView {
        match *self {
            Command::Put { key, value, expiry_ms } => CommandView::Put {
                key: key@,
                value: value@,
                expiry_ms,
            },
            Command::Get { key } => CommandView::Get { key: key@ },
        }
    }
}

/// What the store answers to a command.
#[derive(Debug, Clone, PartialEq, Eq)]
pub enum Outcome {
    /// The write was applied.
    Stored,
    /// The key is served, with this value.
    Found(String),
    /// Nothing is served under the key: it was never written, or what was
    /// written has reached its deadline.
    Missing,
}

/// What an `Outcome` holds, as mathematical text.
pub enum OutcomeView {
    Stored,
    Found(Seq<char>),
    Missing,
}

impl View for Outcome {
    type V = OutcomeView;

    open spec fn view(&self) -> OutcomeView {
        match *self {
            Outcome::Stored => OutcomeView::Stored,
            Outcome::Found(value) => OutcomeView::Found(value@),
            Outcome::Missing => OutcomeView::Missing,
        }
    }
}

/// The deadline of a value written at `now` to be served for `expiry_ms`
/// milliseconds: the instant `now + expiry_ms`. Where that instant lies past
/// the last one a clock can show, no clock ever reaches it, and the value has
/// no deadline, like one written without a time to live.
pub open spec fn deadline(now: u128, expiry_ms: Option<u128>) -> Option<u128> {
    match expiry_ms {
        Some(ms) => if now + ms <= u128::MAX {
            Some((now + ms) as u128)
        } else {
            None
        },
        None => None,
    }
}

/// The store after `value` has been written under `key` at `now`.
pub open spec fn after_set(
    store: StoreView,
    key: Seq<char>,
    value: Seq<char>,
    expiry_ms: Option<u128>,
    now: u128,
) -> StoreView {
    store.insert(key, EntryView { value, expires_at: deadline(now, expiry_ms) })
}

/// What the store serves under `key` at `now`.
pub open spec fn served(store: StoreView, key: Seq<char>, now: u128) -> Option<Seq<char>> {
    if store.contains_key(key) && store[key].live_at(now) {
        Some(store[key].value)
    } else {
        None
    }
}

/// The store after `command` has been applied at `now`.
pub open spec fn next_store(store: StoreView, command: CommandView, now: u128) -> StoreView {
    match command {
        CommandView::Put { key, value, expiry_ms } => after_set(store, key, value, expiry_ms, now),
        CommandView::Get { .. } => store,
    }
}

/// What the store answers to `command` at `now`.
pub open spec fn outcome_of(store: StoreView, command: CommandView, now: u128) -> OutcomeView {
    match command {
        CommandView::Put { .. } => OutcomeView::Stored,
        CommandView::Get { key } => match served(store, key, now) {
            Some(value) => OutcomeView::Found(value),
            None => OutcomeView::Missing,
        },
    }
}

/// The key-value store. It has one owner, which applies the commands it is
/// given one after the other.
pub struct Store {
    entries: StringHashMap<Entry>,
}

impl View for Store {
    type V = StoreView;

    closed spec fn view(&self) -> StoreView {
        self.entries@.map_values(|entry: Entry| entry@)
    }
}

impl Store {
    /// A store that holds nothing.
    pub fn new() -> (store: Store)
        ensures
            store@ == Map::<Seq<char>, EntryView>::empty(),
    {
        let store = Store { entries: StringHashMap::new() };
        assert(store@ =~= Map::<Seq<char>, EntryView>::empty());
        store
    }

    /// Writes `value` under `key`, in place of what was there. With a time to
    /// live the value is served until `now + expiry_ms`; without one, for ever.
    pub fn set(&mut self, key: String, value: String, expiry_ms: Option<u128>, now: u128)
        ensures
            final(self)@ == after_set(old(self)@, key@, value@, expiry_ms, now),
    {
        let expires_at = match expiry_ms {
            Some(ms) => now.checked_add(ms),
            None => None,
        };
        let entry = Entry { value, expires_at };
        let ghost before = self.entries@;
        self.entries.insert(key, entry);
        assert(self@ =~= after_set(old(self)@, key@, value@, expiry_ms, now)) by {
            assert(self.entries@ == before.insert(key@, entry));
        }
    }

    /// Reads what is served under `key` at `now`: the value last written under
    /// it, unless `now` has reached its deadline. Nothing is changed.
    pub fn get(&self, key: &str, now: u128) -> (value: Option<String>)
        ensures
            match value {
                Some(v) => served(self@, key@, now) == Some(v@),
                None => served(self@, key@, now) is None,
            },
    {
        match self.entries.get(key) {
            Some(entry) => {
                let live = match entry.expires_at {
                    Some(deadline) => now < deadline,
                    None => true,
                };
                if live {
                    Some(entry.value.clone())
                } else {
                    None
                }
            },
            None => None,
        }
    }

    /// Applies one command at `now` and gives the answer to it.
    pub fn apply(&mut self, command: Command, now: u128) -> (outcome: Outcome)
        ensures
            final(self)@ == next_store(old(self)@, command@, now),
            outcome@ == outcome_of(old(self)@, command@, now),
    {
        match command {
            Command::Put { key, value, expiry_ms } => {
                self.set(key, value, expiry_ms, now);
                Outcome::Stored
            },
            Command::Get { key } => match self.get(key.as_str(), now) {
                Some(value) => Outcome::Found(value),
                None => Outcome::Missing,
            },
        }
    }

    /// Applies one command at the instant the clock shows, which is one that
    /// `time_now` can give.
    pub fn handle(&mut self, command: Command) -> (outcome: Outcome)
        ensures
            exists|now: u128|
                {
                    &&& now <= u64::MAX * 1000 + 999
                    &&& final(self)@ == next_store(old(self)@, command@, now)
                    &&& outcome@ == outcome_of(old(self)@, command@, now)
                },
    {
        let now = time_now();
        self.apply(command, now)
    }
}

// ---------------------------------------------------------------------------
// Histories
// ---------------------------------------------------------------------------

/// A command with the instant at which the store applies it.
pub struct Event {
    pub command: CommandView,
    pub at: u128,
}

/// Whether `command` writes under `key`.
pub open spec fn writes(command: CommandView, key: Seq<char>) -> bool {
    command matches CommandView::Put { key: written, .. } && written == key
}

/// The store after the events of `history` have been applied to `store`, one
/// after the other, the first one first.
pub open spec fn replay(store: StoreView, history: Seq<Event>) -> StoreView
    decreases history.len(),
{
    if history.len() == 0 {
        store
    } else {
        next_store(replay(store, history.drop_last()), history.last().command, history.last().at)
    }
}

// ---------------------------------------------------------------------------
// Laws
// ---------------------------------------------------------------------------

/// A value written without a time to live is served under its key at every
/// instant.
pub proof fn law_set_then_get(
    store: StoreView,
    key: Seq<char>,
    value: Seq<char>,
    now: u128,
    later: u128,
)
    ensures
        served(after_set(store, key, value, None, now), key, later) == Some(value),
{
}

/// A value written without a time to live stays served, whatever is read or
/// is written under other keys after it.
pub proof fn law_set_lasts(
    store: StoreView,
    key: Seq<char>,
    value: Seq<char>,
    now: u128,
    history: Seq<Event>,
    later: u128,
)
    requires
        forall|i: int| 0 <= i < history.len() ==> !writes(#[trigger] history[i].command, key),
    ensures
        served(replay(after_set(store, key, value, None, now), history), key, later) == Some(
            value,
        ),
{
    let written = after_set(store, key, value, None, now);
    lemma_replay_keeps_unwritten_key(written, history, key);
}

/// A value written at `now` to be served for `ms` milliseconds is served
/// under its key at every instant before `now + ms`, and at none from
/// `now + ms` on. With `ms > 0` it is served at `now`.
pub proof fn law_set_with_expiry(
    store: StoreView,
    key: Seq<char>,
    value: Seq<char>,
    ms: u128,
    now: u128,
    at: u128,
)
    ensures
        at < now + ms ==> served(after_set(store, key, value, Some(ms), now), key, at) == Some(
            value,
        ),
        at >= now + ms ==> served(after_set(store, key, value, Some(ms), now), key, at) is None,
        ms > 0 ==> served(after_set(store, key, value, Some(ms), now), key, now) == Some(value),
{
}

/// At its deadline an entry is no longer served.
pub proof fn law_deadline_is_inclusive(store: StoreView, key: Seq<char>, deadline: u128)
    requires
        store.contains_key(key),
        store[key].expires_at == Some(deadline),
    ensures
        served(store, key, deadline) is None,
        deadline > 0 ==> served(store, key, (deadline - 1) as u128) == Some(store[key].value),
{
}

/// A key that was never written is not served: after any history without a
/// write under `key`, a store that began empty answers a read of `key` with
/// `Missing`.
pub proof fn law_unwritten_key_is_missing(history: Seq<Event>, key: Seq<char>, now: u128)
    requires
        forall|i: int| 0 <= i < history.len() ==> !writes(#[trigger] history[i].command, key),
    ensures
        served(replay(Map::empty(), history), key, now) is None,
        outcome_of(replay(Map::empty(), history), CommandView::Get { key }, now)
            == OutcomeView::Missing,
{
    lemma_replay_keeps_unwritten_key(Map::empty(), history, key);
}

/// Of two writes under one key the later one stands: the store is as if the
/// earlier one had not been made, in whichever order the two are applied.
pub proof fn law_last_write_wins(
    store: StoreView,
    key: Seq<char>,
    first: Event,
    second: Event,
)
    requires
        writes(first.command, key),
        writes(second.command, key),
    ensures
        replay(store, seq![first, second]) == replay(store, seq![second]),
        replay(store, seq![second, first]) == replay(store, seq![first]),
        replay(store, seq![first, second])[key].value == second.command->Put_value,
        replay(store, seq![second, first])[key].value == first.command->Put_value,
{
    lemma_replay_two(store, first, second);
    lemma_replay_two(store, second, first);
    lemma_replay_one(store, first);
    lemma_replay_one(store, second);
    assert(replay(store, seq![first, second]) =~= replay(store, seq![second]));
    assert(replay(store, seq![second, first]) =~= replay(store, seq![first]));
}

/// A history of one event is that event's step.
pub proof fn lemma_replay_one(store: StoreView, event: Event)
    ensures
        replay(store, seq![event]) == next_store(store, event.command, event.at),
{
    let history = seq![event];
    assert(history.drop_last() =~= Seq::<Event>::empty());
    assert(replay(store, history.drop_last()) == store);
}

/// A history of two events is the second one's step after the first one's.
pub proof fn lemma_replay_two(store: StoreView, first: Event, second: Event)
    ensures
        replay(store, seq![first, second]) == next_store(
            next_store(store, first.command, first.at),
            second.command,
            second.at,
        ),
{
    let history = seq![first, second];
    assert(history.drop_last() =~= seq![first]);
    lemma_replay_one(store, first);
}

/// A history without a write under `key` leaves what the store holds under
/// `key` as it was.
pub proof fn lemma_replay_keeps_unwritten_key(
    store: StoreView,
    history: Seq<Event>,
    key: Seq<char>,
)
    requires
        forall|i: int| 0 <= i < history.len() ==> !writes(#[trigger] history[i].command, key),
    ensures
        replay(store, history).contains_key(key) == store.contains_key(key),
        store.contains_key(key) ==> replay(store, history)[key] == store[key],
        forall|now: u128| served(replay(store, history), key, now) == served(store, key, now),
    decreases history.len(),
{
    if history.len() > 0 {
        let earlier = history.drop_last();
        assert forall|i: int| 0 <= i < earlier.len() implies !writes(
            #[trigger] earlier[i].command,
            key,
        ) by {
            assert(earlier[i] == history[i]);
        }
        lemma_replay_keeps_unwritten_key(store, earlier, key);
        assert(!writes(history[history.len() - 1].command, key));
    }
}

} // verus!
