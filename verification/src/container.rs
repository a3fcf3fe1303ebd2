//! A model container as plain data: its architecture, its metadata and its tensor
//! table. Reading one from disk is the caller's work.
use crate::text::same_text;
use vstd::prelude::*;

verus! {

/// A value under a name.
pub struct Entry<T> {
    pub key: String,
    pub value: T,
}

/// An unsigned metadata value, and the same value rounded to an f32 bit pattern.
#[derive(Debug, Clone, Copy, PartialEq, Eq, Structural)]
pub struct IntValue {
    pub value: u64,
    pub as_f32: u32,
}

/// An f32 metadata value as bits, and the bits of its reciprocal where it is positive.
#[derive(Debug, Clone, Copy, PartialEq, Eq, Structural)]
pub struct FloatValue {
    pub bits: u32,
    pub reciprocal: Option<u32>,
}

/// Where a tensor lies and what it is.
pub struct TensorInfo {
    /// Shape, fastest-moving dimension first.
    pub dims: Vec<u64>,
    /// Bytes of data.
    pub size: u64,
    /// The tensor library's type id.
    pub ty: u32,
    /// Offset of the data in its file.
    pub file_offset: u64,
}

/// What a container declares. Metadata keys are those below the architecture's own
/// prefix: `block_count`, not `llama.block_count`.
pub struct Container {
    pub architecture: String,
    pub ints: Vec<Entry<IntValue>>,
    pub floats: Vec<Entry<FloatValue>>,
    pub texts: Vec<Entry<String>>,
    pub float_lists: Vec<Entry<Vec<u32>>>,
    pub int_lists: Vec<Entry<Vec<i64>>>,
    pub tensors: Vec<Entry<TensorInfo>>,
}

/// The first entry at or after `from` whose key is `key`.
pub open spec fn seek<T>(entries: Seq<Entry<T>>, key: Seq<char>, from: int) -> Option<int>
    decreases entries.len() - from,
{
    if from < 0 || from >= entries.len() {
        None
    } else if entries[from].key@ == key {
        Some(from)
    } else {
        seek(entries, key, from + 1)
    }
}

/// The value under `key`, the first if there are several.
pub open spec fn value_of<T>(entries: Seq<Entry<T>>, key: Seq<char>) -> Option<T> {
    match seek(entries, key, 0) {
        Some(i) => Some(entries[i].value),
        None => None,
    }
}

/// What `seek` finds holds the key, and nothing before it does.
pub proof fn seek_finds<T>(entries: Seq<Entry<T>>, key: Seq<char>, from: int)
    requires
        0 <= from,
    ensures
        match seek(entries, key, from) {
            Some(i) => from <= i < entries.len() && entries[i].key@ == key && forall|j: int|
                from <= j < i ==> (#[trigger] entries[j]).key@ != key,
            None => forall|j: int|
                from <= j < entries.len() ==> (#[trigger] entries[j]).key@ != key,
        },
    decreases entries.len() - from,
{
    if from < entries.len() && entries[from].key@ != key {
        seek_finds(entries, key, from + 1);
    }
}

/// The value under `key`, the first if there are several.
pub fn find<'a, T>(entries: &'a Vec<Entry<T>>, key: &str) -> (found: Option<&'a T>)
    ensures
        match found {
            Some(v) => value_of(entries@, key@) == Some(*v),
            None => value_of(entries@, key@) is None,
        },
{
    let mut i: usize = 0;
    while i < entries.len()
        invariant
            i <= entries.len(),
            seek(entries@, key@, 0) == seek(entries@, key@, i as int),
        decreases entries.len() - i,
    {
        if same_text(entries[i].key.as_str(), key) {
            return Some(&entries[i].value);
        }
        i = i + 1;
    }
    None
}

impl Container {
    pub open spec fn int_at(&self, key: Seq<char>) -> Option<u64> {
        match value_of(self.ints@, key) {
            Some(v) => Some(v.value),
            None => None,
        }
    }

    /// The int under `key`, or `default`.
    pub open spec fn int_or(&self, key: Seq<char>, default: u64) -> u64 {
        match self.int_at(key) {
            Some(v) => v,
            None => default,
        }
    }

    /// The f32 bits under `key`, or `default`.
    pub open spec fn float_or(&self, key: Seq<char>, default: u32) -> u32 {
        match value_of(self.floats@, key) {
            Some(v) => v.bits,
            None => default,
        }
    }

    pub open spec fn tensor(&self, name: Seq<char>) -> Option<TensorInfo> {
        value_of(self.tensors@, name)
    }

    pub open spec fn has_tensor(&self, name: Seq<char>) -> bool {
        self.tensor(name) is Some
    }

    /// The unsigned value under `key`.
    pub fn arch_u64(&self, key: &str) -> (v: Option<u64>)
        ensures
            v == self.int_at(key@),
    {
        match find(&self.ints, key) {
            Some(v) => Some(v.value),
            None => None,
        }
    }

    /// The unsigned value under `key`, or `default`.
    pub fn arch_u64_or(&self, key: &str, default: u64) -> (v: u64)
        ensures
            v == self.int_or(key@, default),
    {
        match self.arch_u64(key) {
            Some(v) => v,
            None => default,
        }
    }

    /// The bits of the f32 under `key`, or `default`.
    pub fn arch_f32_or(&self, key: &str, default: u32) -> (v: u32)
        ensures
            v == self.float_or(key@, default),
    {
        match find(&self.floats, key) {
            Some(v) => v.bits,
            None => default,
        }
    }

    /// The text under `key`.
    pub fn arch_str(&self, key: &str) -> (v: Option<&String>)
        ensures
            match v {
                Some(v) => value_of(self.texts@, key@) == Some(*v),
                None => value_of(self.texts@, key@) is None,
            },
    {
        find(&self.texts, key)
    }

    /// Where the tensor `name` lies.
    pub fn location(&self, name: &str) -> (found: Option<&TensorInfo>)
        ensures
            match found {
                Some(t) => self.tensor(name@) == Some(*t),
                None => self.tensor(name@) is None,
            },
    {
        find(&self.tensors, name)
    }

    /// Whether the container ships the tensor `name`.
    pub fn has(&self, name: &str) -> (yes: bool)
        ensures
            yes == self.has_tensor(name@),
    {
        self.location(name).is_some()
    }
}

} // verus!
