//! The synchronization pipeline's message types and the worker's decision
//! logic: which event each store outcome turns into, and which follow-up
//! command a command triggers.
//!
//! The store calls themselves are asynchronous I/O and live outside this
//! library; every decision about their outcomes is made here, over plain
//! values.

use vstd::prelude::*;

use crate::kinds::RedisType;
use crate::kinds::RedisValue;
use crate::kinds::ValueModel;
use crate::kinds::value_model;

verus! {

/// A command from the view model to the store worker.
#[derive(Debug)]
pub enum RedisCommand {
    ScanKeys { pattern: String },
    GetValue { key: String },
    SetValue { key: String, value: Vec<u8> },
    DeleteKey { key: String },
}

/// An event from the store worker to the view model.
#[derive(Debug)]
pub enum UiMessage {
    KeysLoaded(Vec<(String, RedisType)>),
    ValueLoaded { key: String, value: RedisValue, ttl: i64, redis_type: RedisType },
    Error(String),
    WriteSuccess(String),
    DeleteSuccess(String),
}

/// The mathematical image of a command.
pub enum CommandModel {
    MScan(Seq<char>),
    MGet(Seq<char>),
    MSet(Seq<char>, Seq<u8>),
    MDelete(Seq<char>),
}

/// The mathematical image of an event.
pub enum EventModel {
    MKeysLoaded(Seq<(Seq<char>, RedisType)>),
    MValueLoaded { key: Seq<char>, value: ValueModel, ttl: int, redis_type: RedisType },
    MError(Seq<char>),
    MWriteSuccess(Seq<char>),
    MDeleteSuccess(Seq<char>),
}

pub open spec fn command_model(c: RedisCommand) -> CommandModel {
    match c {
        RedisCommand::ScanKeys { pattern } => CommandModel::MScan(pattern@),
        RedisCommand::GetValue { key } => CommandModel::MGet(key@),
        RedisCommand::SetValue { key, value } => CommandModel::MSet(key@, value@),
        RedisCommand::DeleteKey { key } => CommandModel::MDelete(key@),
    }
}

pub open spec fn commands_model(s: Seq<RedisCommand>) -> Seq<CommandModel> {
    Seq::new(s.len(), |i: int| command_model(s[i]))
}

pub open spec fn event_model(m: UiMessage) -> EventModel {
    match m {
        UiMessage::KeysLoaded(ks) => EventModel::MKeysLoaded(crate::tree::keys_model(ks@)),
        UiMessage::ValueLoaded { key, value, ttl, redis_type } => EventModel::MValueLoaded {
            key: key@,
            value: value_model(value),
            ttl: ttl as int,
            redis_type,
        },
        UiMessage::Error(e) => EventModel::MError(e@),
        UiMessage::WriteSuccess(k) => EventModel::MWriteSuccess(k@),
        UiMessage::DeleteSuccess(k) => EventModel::MDeleteSuccess(k@),
    }
}

pub open spec fn events_model(s: Seq<UiMessage>) -> Seq<EventModel> {
    Seq::new(s.len(), |i: int| event_model(s[i]))
}

/// The event for a finished scan: the typed key list, or the failure.
pub fn scan_outcome(scan: Result<Vec<(String, RedisType)>, String>) -> (r: UiMessage)
    ensures
        scan is Ok ==> r == UiMessage::KeysLoaded(scan->Ok_0),
        scan is Err ==> r == UiMessage::Error(scan->Err_0),
{
    match scan {
        Ok(keys) => UiMessage::KeysLoaded(keys),
        Err(e) => UiMessage::Error(e),
    }
}

/// The first index whose type lookup failed, or the list length when every
/// lookup succeeded.
pub open spec fn first_lookup_failure(types: Seq<Result<RedisType, String>>) -> int
    decreases types.len(),
{
    if types.len() == 0 {
        0
    } else if types[0] is Err {
        0
    } else {
        1 + first_lookup_failure(types.drop_first())
    }
}

pub proof fn lemma_first_lookup_failure(types: Seq<Result<RedisType, String>>)
    ensures
        0 <= first_lookup_failure(types) <= types.len(),
        first_lookup_failure(types) < types.len() ==> types[first_lookup_failure(types)] is Err,
        forall|j: int| 0 <= j < first_lookup_failure(types) ==> (#[trigger] types[j]) is Ok,
    decreases types.len(),
{
    if types.len() == 0 {
    } else if types[0] is Err {
    } else {
        lemma_first_lookup_failure(types.drop_first());
        let rec = first_lookup_failure(types.drop_first());
        assert forall|j: int| 0 <= j < 1 + rec implies (#[trigger] types[j]) is Ok by {
            if j > 0 {
                assert(types[j] == types.drop_first()[j - 1]);
            }
        }
    }
}

/// The scanned keys paired with their looked-up kinds, when every lookup
/// succeeded.
pub open spec fn typed_keys_model(
    keys: Seq<String>,
    types: Seq<Result<RedisType, String>>,
) -> Seq<(Seq<char>, RedisType)> {
    Seq::new(keys.len(), |i: int| (keys[i]@, types[i]->Ok_0))
}

/// The event after resolving every scanned key's kind, one lookup per key:
/// the complete typed list, in scan order, when every lookup succeeded;
/// otherwise the first lookup failure.
pub fn scan_types_outcome(keys: Vec<String>, types: Vec<Result<RedisType, String>>) -> (r:
    UiMessage)
    requires
        keys@.len() == types@.len(),
    ensures
        ({
            let f = first_lookup_failure(types@);
            &&& (f == types@.len() ==> (r matches UiMessage::KeysLoaded(l) && crate::tree::keys_model(
                l@,
            ) == typed_keys_model(keys@, types@)))
            &&& (f < types@.len() ==> r == UiMessage::Error(types@[f]->Err_0))
        }),
{
    let total = types.len();
    let mut rem_keys = keys;
    let mut rem_types = types;
    let mut out: Vec<(String, RedisType)> = Vec::new();
    let mut i: usize = 0;
    proof {
        assert(rem_keys@ =~= keys@.skip(0));
        assert(rem_types@ =~= types@.skip(0));
    }
    while rem_types.len() > 0
        invariant
            i + rem_types@.len() == types@.len(),
            total == types@.len(),
            rem_keys@.len() == rem_types@.len(),
            keys@.len() == types@.len(),
            rem_keys@ == keys@.skip(i as int),
            rem_types@ == types@.skip(i as int),
            out@.len() == i,
            forall|j: int| 0 <= j < i ==> (#[trigger] types@[j]) is Ok,
            forall|j: int|
                0 <= j < i ==> (#[trigger] out@[j]).0@ == keys@[j]@ && out@[j].1
                    == types@[j]->Ok_0,
        decreases rem_types@.len(),
    {
        proof {
            assert(rem_types@[0] == types@[i as int]);
            assert(rem_keys@[0] == keys@[i as int]);
            assert(rem_types@.drop_first() =~= types@.skip(i + 1));
            assert(rem_keys@.drop_first() =~= keys@.skip(i + 1));
        }
        let t = rem_types.remove(0);
        let k = rem_keys.remove(0);
        match t {
            Ok(rt) => {
                out.push((k, rt));
            },
            Err(e) => {
                proof {
                    lemma_first_lookup_failure(types@);
                    if first_lookup_failure(types@) < i as int {
                        assert(false);
                    }
                    if first_lookup_failure(types@) > i as int {
                        assert(types@[i as int] is Ok);
                        assert(false);
                    }
                }
                return UiMessage::Error(e);
            },
        }
        i += 1;
    }
    proof {
        lemma_first_lookup_failure(types@);
        if first_lookup_failure(types@) < types@.len() {
            assert(false);
        }
        assert(crate::tree::keys_model(out@) =~= typed_keys_model(keys@, types@));
    }
    UiMessage::KeysLoaded(out)
}

/// The event for a finished value fetch: loaded only when all three
/// sub-fetches succeeded; otherwise the first failure, reported in the fixed
/// priority order value, then ttl, then type.
pub fn get_value_outcome(
    key: String,
    value: Result<RedisValue, String>,
    ttl: Result<i64, String>,
    redis_type: Result<RedisType, String>,
) -> (r: UiMessage)
    ensures
        (value is Ok && ttl is Ok && redis_type is Ok) ==> r == (UiMessage::ValueLoaded {
            key,
            value: value->Ok_0,
            ttl: ttl->Ok_0,
            redis_type: redis_type->Ok_0,
        }),
        value is Err ==> r == UiMessage::Error(value->Err_0),
        (value is Ok && ttl is Err) ==> r == UiMessage::Error(ttl->Err_0),
        (value is Ok && ttl is Ok && redis_type is Err) ==> r == UiMessage::Error(
            redis_type->Err_0,
        ),
{
    match value {
        Err(e) => UiMessage::Error(e),
        Ok(v) => match ttl {
            Err(e) => UiMessage::Error(e),
            Ok(t) => match redis_type {
                Err(e) => UiMessage::Error(e),
                Ok(rt) => UiMessage::ValueLoaded { key, value: v, ttl: t, redis_type: rt },
            },
        },
    }
}

/// The event for a finished write.
pub fn set_outcome(key: String, res: Result<(), String>) -> (r: UiMessage)
    ensures
        res is Ok ==> r == UiMessage::WriteSuccess(key),
        res is Err ==> r == UiMessage::Error(res->Err_0),
{
    match res {
        Ok(_) => UiMessage::WriteSuccess(key),
        Err(e) => UiMessage::Error(e),
    }
}

/// The event for a finished delete, and the follow-up command: a successful
/// delete triggers a fresh full rescan.
pub fn delete_outcome(key: String, res: Result<(), String>) -> (r: (UiMessage, Option<
    RedisCommand,
>))
    ensures
        res is Ok ==> {
            &&& r.0 == UiMessage::DeleteSuccess(key)
            &&& r.1 matches Some(c) && (c matches RedisCommand::ScanKeys { pattern } && pattern@
                == "*"@)
        },
        res is Err ==> r.0 == UiMessage::Error(res->Err_0) && r.1 is None,
{
    match res {
        Ok(_) => {
            let pattern = String::from_str("*");
            (UiMessage::DeleteSuccess(key), Some(RedisCommand::ScanKeys { pattern }))
        },
        Err(e) => (UiMessage::Error(e), None),
    }
}

/// The text written for a byte payload that may not be UTF-8.
pub uninterp spec fn lossy_utf8(bytes: Seq<u8>) -> Seq<char>;

/// Relies on String::from_utf8_lossy: the result is a function of the bytes
/// alone; valid UTF-8 input decodes exactly.
#[verifier::external_body]
pub(crate) fn utf8_lossy(bytes: &[u8]) -> (r: String)
    ensures
        r@ == lossy_utf8(bytes@),
        vstd::utf8::valid_utf8(bytes@) ==> r@ == vstd::utf8::decode_utf8(bytes@),
{
    String::from_utf8_lossy(bytes).into_owned()
}

} // verus!
