//! The closed union of value kinds the store reports, and the typed values
//! it returns.

use vstd::prelude::*;

verus! {

/// The kind a stored value can have, as reported by the store's type query.
#[derive(Debug, Clone, Copy, PartialEq, Eq, Structural)]
pub enum RedisType {
    String,
    List,
    SetKind,
    ZSet,
    Hash,
    Stream,
    Unknown,
}

/// A typed value fetched from the store. Sorted-set scores are carried as
/// their decimal text, exactly as the wire protocol transmits them.
#[derive(Debug)]
pub enum RedisValue {
    String(String),
    List(Vec<String>),
    SetMembers(Vec<String>),
    ZSet(Vec<(String, String)>),
    Hash(Vec<(String, String)>),
    Stream(String),
    Missing,
}

/// The kind named by the store's type-query reply: one of the six known
/// type names, anything else unknown.
pub open spec fn type_name_kind(s: Seq<char>) -> RedisType {
    if s == "string"@ {
        RedisType::String
    } else if s == "list"@ {
        RedisType::List
    } else if s == "set"@ {
        RedisType::SetKind
    } else if s == "zset"@ {
        RedisType::ZSet
    } else if s == "hash"@ {
        RedisType::Hash
    } else if s == "stream"@ {
        RedisType::Stream
    } else {
        RedisType::Unknown
    }
}

fn str_eq(a: &str, b: &str) -> (r: bool)
    ensures
        r == (a@ == b@),
{
    let an = a.unicode_len();
    let bn = b.unicode_len();
    if an != bn {
        return false;
    }
    let mut i: usize = 0;
    while i < an
        invariant
            i <= an,
            an == a@.len(),
            an == b@.len(),
            forall|j: int| 0 <= j < i ==> a@[j] == b@[j],
        decreases an - i,
    {
        if a.get_char(i) != b.get_char(i) {
            return false;
        }
        i += 1;
    }
    proof {
        assert(a@ =~= b@);
    }
    true
}

/// Map the store's type-query reply to a kind.
pub fn kind_from_type_name(name: &str) -> (r: RedisType)
    ensures
        r == type_name_kind(name@),
{
    if str_eq(name, "string") {
        RedisType::String
    } else if str_eq(name, "list") {
        RedisType::List
    } else if str_eq(name, "set") {
        RedisType::SetKind
    } else if str_eq(name, "zset") {
        RedisType::ZSet
    } else if str_eq(name, "hash") {
        RedisType::Hash
    } else if str_eq(name, "stream") {
        RedisType::Stream
    } else {
        RedisType::Unknown
    }
}

/// The mathematical image of a typed value.
pub enum ValueModel {
    VString(Seq<char>),
    VList(Seq<Seq<char>>),
    VSetMembers(Seq<Seq<char>>),
    VZSet(Seq<(Seq<char>, Seq<char>)>),
    VHash(Seq<(Seq<char>, Seq<char>)>),
    VStream(Seq<char>),
    VMissing,
}

/// The views of a string list.
pub open spec fn strs_model(s: Seq<String>) -> Seq<Seq<char>> {
    Seq::new(s.len(), |i: int| s[i]@)
}

/// The views of a string-pair list.
pub open spec fn str_pairs_model(s: Seq<(String, String)>) -> Seq<(Seq<char>, Seq<char>)> {
    Seq::new(s.len(), |i: int| (s[i].0@, s[i].1@))
}

/// The model of a typed value.
pub open spec fn value_model(v: RedisValue) -> ValueModel {
    match v {
        RedisValue::String(s) => ValueModel::VString(s@),
        RedisValue::List(items) => ValueModel::VList(strs_model(items@)),
        RedisValue::SetMembers(items) => ValueModel::VSetMembers(strs_model(items@)),
        RedisValue::ZSet(items) => ValueModel::VZSet(str_pairs_model(items@)),
        RedisValue::Hash(items) => ValueModel::VHash(str_pairs_model(items@)),
        RedisValue::Stream(s) => ValueModel::VStream(s@),
        RedisValue::Missing => ValueModel::VMissing,
    }
}

/// The kind a modelled value corresponds to.
pub open spec fn kind_of_model(v: ValueModel) -> RedisType {
    match v {
        ValueModel::VString(_) => RedisType::String,
        ValueModel::VList(_) => RedisType::List,
        ValueModel::VSetMembers(_) => RedisType::SetKind,
        ValueModel::VZSet(_) => RedisType::ZSet,
        ValueModel::VHash(_) => RedisType::Hash,
        ValueModel::VStream(_) => RedisType::Stream,
        ValueModel::VMissing => RedisType::Unknown,
    }
}

fn clone_strs(v: &Vec<String>) -> (r: Vec<String>)
    ensures
        strs_model(r@) == strs_model(v@),
{
    let mut r: Vec<String> = Vec::new();
    let n = v.len();
    let mut i: usize = 0;
    while i < n
        invariant
            i <= n,
            n == v@.len(),
            r@.len() == i,
            forall|m: int| 0 <= m < i ==> (#[trigger] r@[m])@ == v@[m]@,
        decreases n - i,
    {
        r.push(v[i].clone());
        i += 1;
    }
    proof {
        assert(strs_model(r@) =~= strs_model(v@));
    }
    r
}

fn clone_str_pairs(v: &Vec<(String, String)>) -> (r: Vec<(String, String)>)
    ensures
        str_pairs_model(r@) == str_pairs_model(v@),
{
    let mut r: Vec<(String, String)> = Vec::new();
    let n = v.len();
    let mut i: usize = 0;
    while i < n
        invariant
            i <= n,
            n == v@.len(),
            r@.len() == i,
            forall|m: int|
                0 <= m < i ==> (#[trigger] r@[m]).0@ == v@[m].0@ && r@[m].1@ == v@[m].1@,
        decreases n - i,
    {
        let pair = &v[i];
        r.push((pair.0.clone(), pair.1.clone()));
        i += 1;
    }
    proof {
        assert(str_pairs_model(r@) =~= str_pairs_model(v@));
    }
    r
}

impl RedisValue {
    /// A copy of this value, equal under the model.
    pub fn duplicate(&self) -> (r: Self)
        ensures
            value_model(r) == value_model(*self),
    {
        match self {
            RedisValue::String(s) => RedisValue::String(s.clone()),
            RedisValue::List(items) => RedisValue::List(clone_strs(items)),
            RedisValue::SetMembers(items) => RedisValue::SetMembers(clone_strs(items)),
            RedisValue::ZSet(items) => RedisValue::ZSet(clone_str_pairs(items)),
            RedisValue::Hash(items) => RedisValue::Hash(clone_str_pairs(items)),
            RedisValue::Stream(s) => RedisValue::Stream(s.clone()),
            RedisValue::Missing => RedisValue::Missing,
        }
    }
}

impl RedisValue {
    /// The kind that a value of this shape corresponds to.
    pub fn kind(&self) -> (r: RedisType)
        ensures
            r == self.kind_spec(),
    {
        match self {
            RedisValue::String(_) => RedisType::String,
            RedisValue::List(_) => RedisType::List,
            RedisValue::SetMembers(_) => RedisType::SetKind,
            RedisValue::ZSet(_) => RedisType::ZSet,
            RedisValue::Hash(_) => RedisType::Hash,
            RedisValue::Stream(_) => RedisType::Stream,
            RedisValue::Missing => RedisType::Unknown,
        }
    }

    pub open spec fn kind_spec(self) -> RedisType {
        match self {
            RedisValue::String(_) => RedisType::String,
            RedisValue::List(_) => RedisType::List,
            RedisValue::SetMembers(_) => RedisType::SetKind,
            RedisValue::ZSet(_) => RedisType::ZSet,
            RedisValue::Hash(_) => RedisType::Hash,
            RedisValue::Stream(_) => RedisType::Stream,
            RedisValue::Missing => RedisType::Unknown,
        }
    }
}

} // verus!
