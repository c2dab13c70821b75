use std::collections::HashMap;
use std::hash::Hash;
use vstd::prelude::*;
use vstd::std_specs::hash::obeys_key_model;

verus! {

broadcast use vstd::std_specs::hash::group_hash_axioms;

/// A collection of attributes attached to a vertex or to an edge: it can be
/// created empty.
pub trait AttributeCollection: Sized {
    /// The collection is a fresh one, as `new` makes it.
    spec fn is_new(&self) -> bool;

    /// A fresh, empty collection.
    fn new() -> (r: Self)
        ensures
            r.is_new(),
    ;
}

impl AttributeCollection for () {
    open spec fn is_new(&self) -> bool {
        true
    }

    fn new() -> (r: Self) {
        ()
    }
}

/// A typed attribute value: a closed set of integer, boolean and string
/// kinds, alone or in lists.
#[derive(Clone, Debug)]
pub enum StaticDispatchAttributeValue {
    Int8(i8),
    Int16(i16),
    Int32(i32),
    Int64(i64),
    UInt8(u8),
    UInt16(u16),
    UInt32(u32),
    UInt64(u64),
    Bool(bool),
    Str(String),
    VecInt8(Vec<i8>),
    VecInt16(Vec<i16>),
    VecInt32(Vec<i32>),
    VecInt64(Vec<i64>),
    VecUInt8(Vec<u8>),
    VecUInt16(Vec<u16>),
    VecUInt32(Vec<u32>),
    VecUInt64(Vec<u64>),
    VecBool(Vec<bool>),
    VecStr(Vec<String>),
}

/// Attributes stored under names, each with a typed value. What the
/// contracts say holds where the name type behaves as a hash key.
#[derive(Clone)]
pub struct DynamicDispatchAttributeMap<KeyType> {
    attributes: HashMap<KeyType, StaticDispatchAttributeValue>,
}

impl<KeyType> View for DynamicDispatchAttributeMap<KeyType> {
    type V = Map<KeyType, StaticDispatchAttributeValue>;

    closed spec fn view(&self) -> Map<KeyType, StaticDispatchAttributeValue> {
        self.attributes@
    }
}

impl<KeyType: Eq + Hash> DynamicDispatchAttributeMap<KeyType> {
    /// The value stored under `attribute_name`.
    pub fn get(&self, attribute_name: &KeyType) -> (r: Option<&StaticDispatchAttributeValue>)
        ensures
            obeys_key_model::<KeyType>() ==> match r {
                Some(v) => self@.contains_key(*attribute_name) && *v == self@[*attribute_name],
                None => !self@.contains_key(*attribute_name),
            },
    {
        self.attributes.get(attribute_name)
    }

    /// Stores `attribute_value` under `attribute_name`; returns the value it
    /// replaces.
    pub fn insert(&mut self, attribute_name: KeyType, attribute_value: StaticDispatchAttributeValue) -> (r: Option<
        StaticDispatchAttributeValue,
    >)
        ensures
            obeys_key_model::<KeyType>() ==> {
                &&& final(self)@ == old(self)@.insert(attribute_name, attribute_value)
                &&& match r {
                    Some(v) => old(self)@.contains_key(attribute_name) && v == old(self)@[attribute_name],
                    None => !old(self)@.contains_key(attribute_name),
                }
            },
    {
        self.attributes.insert(attribute_name, attribute_value)
    }

    /// The stored (name, value) pairs, each once; the walk needs a name
    /// type that behaves as a hash key.
    pub fn iter(&self) -> (r: Vec<(&KeyType, &StaticDispatchAttributeValue)>)
        requires
            obeys_key_model::<KeyType>(),
        ensures
            r@.unref().to_set() == self@.kv_pairs(),
            r@.len() == self@.len(),
    {
        let mut r: Vec<(&KeyType, &StaticDispatchAttributeValue)> = Vec::new();
        for entry in it: self.attributes.iter()
            invariant
                r@ == it.seq().take(it.index() as int),
                it.seq().unref().to_set() == self@.kv_pairs(),
                it.seq().len() == self@.len(),
                it.index() == it.seq().len() ==> r@ == it.seq(),
        {
            r.push(entry);
            assert(r@ =~= it.seq().take(it.index() as int + 1));
        }
        r
    }
}

impl<KeyType: Eq + Hash> AttributeCollection for DynamicDispatchAttributeMap<KeyType> {
    open spec fn is_new(&self) -> bool {
        self@ == Map::<KeyType, StaticDispatchAttributeValue>::empty()
    }

    fn new() -> (r: Self) {
        DynamicDispatchAttributeMap { attributes: HashMap::new() }
    }
}

} // verus!
