//! An executable model of the store and of the single-writer pipeline: two
//! bounded FIFO queues and one worker that drains commands strictly in
//! submission order, one full command at a time.
//!
//! The live application talks to a remote store instead; its worker makes
//! the same decisions through the outcome functions of the pipeline module.
//! This model is what the pipeline's ordering laws are stated and tested
//! against.

use vstd::prelude::*;

use crate::kinds::RedisType;
use crate::kinds::RedisValue;
use crate::kinds::ValueModel;
use crate::kinds::kind_of_model;
use crate::kinds::value_model;
use crate::pipeline::CommandModel;
use crate::pipeline::EventModel;
use crate::pipeline::RedisCommand;
use crate::pipeline::UiMessage;
use crate::pipeline::command_model;
use crate::pipeline::commands_model;
use crate::pipeline::events_model;
use crate::pipeline::lossy_utf8;
use crate::pipeline::utf8_lossy;
use crate::tree::keys_model;

verus! {

/// One stored value with its remaining time-to-live (negative: no expiry).
pub struct StoreEntry {
    pub value: RedisValue,
    pub ttl: i64,
}

/// The model store: keyed entries, unique keys, insertion order kept.
pub struct StoreModel {
    pub entries: Vec<(String, StoreEntry)>,
}

/// The mathematical image of the store: key, value model, ttl.
pub open spec fn store_model(s: Seq<(String, StoreEntry)>) -> Seq<(Seq<char>, ValueModel, int)> {
    Seq::new(s.len(), |i: int| (s[i].0@, value_model(s[i].1.value), s[i].1.ttl as int))
}

/// The first index holding the key, or the length if the key is absent.
pub open spec fn store_find(m: Seq<(Seq<char>, ValueModel, int)>, k: Seq<char>) -> int
    decreases m.len(),
{
    if m.len() == 0 {
        0
    } else if m[0].0 == k {
        0
    } else {
        1 + store_find(m.drop_first(), k)
    }
}

/// `store_find` returns the least matching index, or the length.
pub proof fn lemma_store_find(m: Seq<(Seq<char>, ValueModel, int)>, k: Seq<char>)
    ensures
        0 <= store_find(m, k) <= m.len(),
        store_find(m, k) < m.len() ==> m[store_find(m, k)].0 == k,
        forall|j: int| 0 <= j < store_find(m, k) ==> m[j].0 != k,
    decreases m.len(),
{
    if m.len() == 0 {
    } else if m[0].0 == k {
    } else {
        lemma_store_find(m.drop_first(), k);
        let rec = store_find(m.drop_first(), k);
        assert forall|j: int| 0 <= j < 1 + rec implies m[j].0 != k by {
            if j > 0 {
                assert(m[j] == m.drop_first()[j - 1]);
            }
        }
    }
}

/// The key is present in the store.
pub open spec fn store_has(m: Seq<(Seq<char>, ValueModel, int)>, k: Seq<char>) -> bool {
    store_find(m, k) < m.len()
}

/// What a full scan lists: every key with its kind, in store order.
pub open spec fn scan_of(m: Seq<(Seq<char>, ValueModel, int)>) -> Seq<(Seq<char>, RedisType)> {
    Seq::new(m.len(), |i: int| (m[i].0, kind_of_model(m[i].1)))
}

/// A write: the key now holds the text as a string value with no expiry;
/// a fresh key is appended at the end.
pub open spec fn store_set_spec(
    m: Seq<(Seq<char>, ValueModel, int)>,
    k: Seq<char>,
    text: Seq<char>,
) -> Seq<(Seq<char>, ValueModel, int)> {
    let i = store_find(m, k);
    if i == m.len() {
        m.push((k, ValueModel::VString(text), -1int))
    } else {
        m.update(i, (k, ValueModel::VString(text), -1int))
    }
}

/// A delete: the key's entry is removed; deleting an absent key is a no-op.
pub open spec fn store_delete_spec(
    m: Seq<(Seq<char>, ValueModel, int)>,
    k: Seq<char>,
) -> Seq<(Seq<char>, ValueModel, int)> {
    let i = store_find(m, k);
    if i == m.len() {
        m
    } else {
        m.remove(i)
    }
}

/// The events one command emits against a store with the given contents.
/// A fetch of an absent key loads the missing value with ttl -2 and kind
/// unknown, exactly as the remote store reports one.
pub open spec fn worker_events(
    cmd: CommandModel,
    m: Seq<(Seq<char>, ValueModel, int)>,
) -> Seq<EventModel> {
    match cmd {
        CommandModel::MScan(_) => seq![EventModel::MKeysLoaded(scan_of(m))],
        CommandModel::MGet(k) => {
            if store_has(m, k) {
                let e = m[store_find(m, k)];
                seq![
                    EventModel::MValueLoaded {
                        key: k,
                        value: e.1,
                        ttl: e.2,
                        redis_type: kind_of_model(e.1),
                    },
                ]
            } else {
                seq![
                    EventModel::MValueLoaded {
                        key: k,
                        value: ValueModel::VMissing,
                        ttl: -2int,
                        redis_type: RedisType::Unknown,
                    },
                ]
            }
        },
        CommandModel::MSet(k, _bytes) => seq![EventModel::MWriteSuccess(k)],
        CommandModel::MDelete(k) => seq![EventModel::MDeleteSuccess(k)],
    }
}

/// The store contents after one command.
pub open spec fn worker_store(
    cmd: CommandModel,
    m: Seq<(Seq<char>, ValueModel, int)>,
) -> Seq<(Seq<char>, ValueModel, int)> {
    match cmd {
        CommandModel::MScan(_) => m,
        CommandModel::MGet(_) => m,
        CommandModel::MSet(k, bytes) => store_set_spec(m, k, lossy_utf8(bytes)),
        CommandModel::MDelete(k) => store_delete_spec(m, k),
    }
}

/// The follow-up a command triggers: a delete re-submits a full rescan.
pub open spec fn worker_followup(cmd: CommandModel) -> Option<CommandModel> {
    match cmd {
        CommandModel::MDelete(_) => Some(CommandModel::MScan("*"@)),
        _ => None,
    }
}

impl StoreModel {
    /// The mathematical image of this store.
    pub open spec fn model(self) -> Seq<(Seq<char>, ValueModel, int)> {
        store_model(self.entries@)
    }

    /// An empty store.
    pub fn new() -> (r: Self)
        ensures
            r.model().len() == 0,
    {
        let r = Self { entries: Vec::new() };
        proof {
            assert(r.model() =~= Seq::<(Seq<char>, ValueModel, int)>::empty());
        }
        r
    }

    /// Add one entry at the end. Meant for setting up a store; requires the
    /// key to be fresh so that keys stay unique.
    pub fn seed(&mut self, key: String, value: RedisValue, ttl: i64)
        requires
            !store_has(old(self).model(), key@),
        ensures
            final(self).model() == old(self).model().push(
                (key@, value_model(value), ttl as int),
            ),
    {
        let ghost m0 = self.model();
        self.entries.push((key, StoreEntry { value, ttl }));
        proof {
            assert(self.model() =~= m0.push(
                (self.entries@.last().0@, value_model(self.entries@.last().1.value), ttl as int),
            ));
        }
    }

    /// The first entry index holding the key, if the key is present.
    fn find(&self, key: &String) -> (r: Option<usize>)
        ensures
            (r is Some) == store_has(self.model(), key@),
            r is Some ==> r->0 == store_find(self.model(), key@),
    {
        let ghost m = self.model();
        let n = self.entries.len();
        let mut i: usize = 0;
        while i < n
            invariant
                i <= n,
                n == self.entries@.len(),
                m == self.model(),
                forall|j: int| 0 <= j < i ==> (#[trigger] self.entries@[j]).0@ != key@,
            decreases n - i,
        {
            if self.entries[i].0 == *key {
                proof {
                    lemma_store_find(m, key@);
                    assert(m[i as int].0 == key@);
                    assert(forall|j: int| 0 <= j < i ==> m[j].0 != key@);
                    if store_find(m, key@) < i as int {
                        assert(m[store_find(m, key@)].0 == key@);
                        assert(false);
                    }
                    if store_find(m, key@) > i as int {
                        assert(m[i as int].0 != key@);
                        assert(false);
                    }
                }
                return Some(i);
            }
            i += 1;
        }
        proof {
            lemma_store_find(m, key@);
            assert(forall|j: int| 0 <= j < m.len() ==> m[j].0 != key@);
            if store_find(m, key@) < m.len() {
                assert(m[store_find(m, key@)].0 == key@);
                assert(false);
            }
        }
        None
    }

    /// Run one command completely against this store: the returned events,
    /// the store change and the follow-up command are exactly what the
    /// worker specifications state.
    pub fn run_command(&mut self, cmd: RedisCommand) -> (r: (Vec<UiMessage>, Option<RedisCommand>))
        ensures
            events_model(r.0@) == worker_events(command_model(cmd), old(self).model()),
            final(self).model() == worker_store(command_model(cmd), old(self).model()),
            (r.1 is Some) == (worker_followup(command_model(cmd)) is Some),
            r.1 is Some ==> command_model(r.1->0) == worker_followup(command_model(cmd))->0,
    {
        let ghost m = self.model();
        let ghost cm = command_model(cmd);
        let mut evs: Vec<UiMessage> = Vec::new();
        match cmd {
            RedisCommand::ScanKeys { pattern: _ } => {
                let list = self.scan();
                evs.push(UiMessage::KeysLoaded(list));
                proof {
                    assert(events_model(evs@) =~= worker_events(cm, m));
                }
                (evs, None)
            },
            RedisCommand::GetValue { key } => {
                let msg = match self.find(&key) {
                    Some(i) => {
                        let entry = &self.entries[i];
                        let value = entry.1.value.duplicate();
                        let ttl = entry.1.ttl;
                        let redis_type = entry.1.value.kind();
                        UiMessage::ValueLoaded { key, value, ttl, redis_type }
                    },
                    None => UiMessage::ValueLoaded {
                        key,
                        value: RedisValue::Missing,
                        ttl: -2,
                        redis_type: RedisType::Unknown,
                    },
                };
                evs.push(msg);
                proof {
                    assert(events_model(evs@) =~= worker_events(cm, m));
                }
                (evs, None)
            },
            RedisCommand::SetValue { key, value } => {
                let text = utf8_lossy(value.as_slice());
                let entry = StoreEntry { value: RedisValue::String(text), ttl: -1 };
                match self.find(&key) {
                    Some(i) => {
                        self.entries[i].1 = entry;
                        proof {
                            lemma_store_find(m, key@);
                            assert(self.model() =~= store_set_spec(m, key@, lossy_utf8(value@)));
                        }
                    },
                    None => {
                        self.entries.push((key.clone(), entry));
                        proof {
                            lemma_store_find(m, key@);
                            assert(self.model() =~= store_set_spec(m, key@, lossy_utf8(value@)));
                        }
                    },
                }
                evs.push(UiMessage::WriteSuccess(key));
                proof {
                    assert(events_model(evs@) =~= worker_events(cm, m));
                }
                (evs, None)
            },
            RedisCommand::DeleteKey { key } => {
                match self.find(&key) {
                    Some(i) => {
                        let _ = self.entries.remove(i);
                        proof {
                            lemma_store_find(m, key@);
                            assert(self.model() =~= store_delete_spec(m, key@));
                        }
                    },
                    None => {
                        proof {
                            lemma_store_find(m, key@);
                            assert(self.model() =~= store_delete_spec(m, key@));
                        }
                    },
                }
                evs.push(UiMessage::DeleteSuccess(key));
                let pattern = String::from_str("*");
                proof {
                    assert(events_model(evs@) =~= worker_events(cm, m));
                }
                (evs, Some(RedisCommand::ScanKeys { pattern }))
            },
        }
    }

    /// A full scan: every key with its kind, in store order.
    fn scan(&self) -> (r: Vec<(String, RedisType)>)
        ensures
            keys_model(r@) == scan_of(self.model()),
    {
        let mut r: Vec<(String, RedisType)> = Vec::new();
        let n = self.entries.len();
        let mut i: usize = 0;
        while i < n
            invariant
                i <= n,
                n == self.entries@.len(),
                r@.len() == i,
                forall|j: int|
                    0 <= j < i ==> (#[trigger] r@[j]).0@ == self.entries@[j].0@ && r@[j].1
                        == kind_of_model(value_model(self.entries@[j].1.value)),
            decreases n - i,
        {
            let pair = &self.entries[i];
            r.push((pair.0.clone(), pair.1.value.kind()));
            i += 1;
        }
        proof {
            assert(keys_model(r@) =~= scan_of(self.model()));
        }
        r
    }
}

/// The two bounded, ordered queues and the single-flight worker: commands
/// are drained strictly in submission order, one command's whole work at a
/// time, and events are appended in emission order.
pub struct Pipeline {
    pub commands: Vec<RedisCommand>,
    pub events: Vec<UiMessage>,
    pub capacity: usize,
}

impl Pipeline {
    /// Empty queues with the given bound.
    pub fn new(capacity: usize) -> (r: Self)
        requires
            capacity >= 1,
        ensures
            r.commands@.len() == 0,
            r.events@.len() == 0,
            r.capacity == capacity,
    {
        Self { commands: Vec::new(), events: Vec::new(), capacity }
    }

    /// A user-submitted command. The caller awaits queue space, so
    /// submission order matches input order.
    pub fn submit(&mut self, cmd: RedisCommand)
        requires
            old(self).commands@.len() < old(self).capacity,
        ensures
            final(self).commands@ == old(self).commands@.push(cmd),
            final(self).events == old(self).events,
            final(self).capacity == old(self).capacity,
    {
        self.commands.push(cmd);
    }

    /// Process exactly the head command, completely: its events are appended
    /// to the event queue in emission order, the store is updated, and any
    /// follow-up command is enqueued best-effort — dropped silently when the
    /// command queue is full, since it is a refresh convenience.
    pub fn step(&mut self, store: &mut StoreModel)
        ensures
            final(self).capacity == old(self).capacity,
            old(self).commands@.len() == 0 ==> *final(self) == *old(self) && *final(store) == *old(
                store,
            ),
            old(self).commands@.len() > 0 ==> ({
                let cmd = command_model(old(self).commands@[0]);
                let sm = old(store).model();
                let rest = commands_model(old(self).commands@).drop_first();
                &&& events_model(final(self).events@) == events_model(old(self).events@)
                    + worker_events(cmd, sm)
                &&& final(store).model() == worker_store(cmd, sm)
                &&& commands_model(final(self).commands@) == (match worker_followup(cmd) {
                    Some(f) => if rest.len() < old(self).capacity {
                        rest.push(f)
                    } else {
                        rest
                    },
                    None => rest,
                })
            }),
    {
        if self.commands.len() == 0 {
            return ;
        }
        let ghost cmds0 = self.commands@;
        let ghost evs0 = events_model(self.events@);
        let ghost sm = store.model();
        let cmd = self.commands.remove(0);
        let ghost cm = command_model(cmd);
        proof {
            assert(commands_model(self.commands@) =~= commands_model(cmds0).drop_first());
        }
        let (emitted, followup) = store.run_command(cmd);
        let ghost target = evs0 + worker_events(cm, sm);
        let mut emitted = emitted;
        proof {
            assert(evs0 + events_model(emitted@) =~= events_model(self.events@) + events_model(
                emitted@,
            ));
        }
        let ghost cmds_mid = self.commands@;
        let ghost cap0 = self.capacity;
        while emitted.len() > 0
            invariant
                self.commands@ == cmds_mid,
                self.capacity == cap0,
                events_model(self.events@) + events_model(emitted@) == target,
            decreases emitted@.len(),
        {
            let ghost evs_before = events_model(self.events@);
            let ghost em_before = events_model(emitted@);
            let ev = emitted.remove(0);
            self.events.push(ev);
            proof {
                assert(events_model(emitted@) =~= em_before.drop_first());
                assert(events_model(self.events@) =~= evs_before.push(em_before[0]));
                assert(events_model(self.events@) + events_model(emitted@) =~= evs_before
                    + em_before);
            }
        }
        proof {
            assert(events_model(emitted@) =~= Seq::<EventModel>::empty());
            assert(events_model(self.events@) =~= events_model(self.events@) + events_model(
                emitted@,
            ));
        }
        match followup {
            Some(c) => {
                if self.commands.len() < self.capacity {
                    self.commands.push(c);
                    proof {
                        assert(commands_model(self.commands@) =~= commands_model(
                            cmds0,
                        ).drop_first().push(command_model(c)));
                    }
                }
            },
            None => {},
        }
    }

    /// Hand over every pending event, in arrival order; the event queue is
    /// drained completely.
    pub fn take_events(&mut self) -> (r: Vec<UiMessage>)
        ensures
            r@ == old(self).events@,
            final(self).events@.len() == 0,
            final(self).commands == old(self).commands,
            final(self).capacity == old(self).capacity,
    {
        let ghost evs0 = self.events@;
        let mut r: Vec<UiMessage> = Vec::new();
        while self.events.len() > 0
            invariant
                self.commands == old(self).commands,
                self.capacity == old(self).capacity,
                r@ + self.events@ == evs0,
            decreases self.events@.len(),
        {
            let ghost r0 = r@;
            let ghost e0 = self.events@;
            let ev = self.events.remove(0);
            r.push(ev);
            proof {
                assert(r0.push(e0[0]) + e0.drop_first() =~= r0 + e0);
            }
        }
        proof {
            assert(r@ + self.events@ =~= r@);
        }
        r
    }
}

/// Law: a full scan of the store after a delete lists every key but the
/// deleted one — so the rescan that a successful delete re-submits reports a
/// key list from which the deleted key is absent.
pub proof fn lemma_rescan_after_delete_excludes_key(
    m: Seq<(Seq<char>, ValueModel, int)>,
    k: Seq<char>,
)
    requires
        forall|i: int, j: int| 0 <= i < j < m.len() ==> (#[trigger] m[i]).0 != (#[trigger] m[j]).0,
    ensures
        forall|i: int|
            0 <= i < scan_of(store_delete_spec(m, k)).len() ==> (#[trigger] scan_of(
                store_delete_spec(m, k),
            )[i]).0 != k,
{
    lemma_store_find(m, k);
    let f = store_find(m, k);
    let d = store_delete_spec(m, k);
    assert forall|i: int| 0 <= i < d.len() implies (#[trigger] d[i]).0 != k by {
        if f == m.len() {
            assert(d[i] == m[i]);
        } else {
            if i < f {
                assert(d[i] == m[i]);
            } else {
                assert(d[i] == m[i + 1]);
                if m[i + 1].0 == k {
                    assert(m[f].0 == k);
                    assert(f < i + 1);
                    assert(false);
                }
            }
        }
    }
}

} // verus!
