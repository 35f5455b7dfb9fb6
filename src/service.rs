//! The write path as the request layer drives it: input limits, emergency
//! eviction under critical memory pressure, then the write itself.
use vstd::prelude::*;
use crate::eviction::evict_outcome;
use crate::planner::{target_capacity_spec, CRITICAL_MEMORY_PERCENT};
use crate::store::{Cache, EntryView};
use vstd::string::StringSliceAdditionalSpecFns;
use vstd::utf8::encode_utf8;

verus! {

/// Longest key or value accepted, in bytes.
pub const MAX_FIELD_BYTES: usize = 256;

/// Why a write was refused.
#[derive(Clone, Copy, Debug, PartialEq, Eq, Structural)]
pub enum WriteError {
    /// The key or the value is longer than `MAX_FIELD_BYTES` bytes.
    TooLong,
}

impl WriteError {
    /// A message for the client.
    pub fn message(&self) -> (r: &'static str)
        ensures
            r@ == "Key or Value exceeds 256 characters."@,
    {
        "Key or Value exceeds 256 characters."
    }
}

/// Both key and value are within `MAX_FIELD_BYTES` bytes of UTF-8.
pub open spec fn fits_limits(key: Seq<char>, value: Seq<char>) -> bool {
    encode_utf8(key).len() <= MAX_FIELD_BYTES && encode_utf8(value).len() <= MAX_FIELD_BYTES
}

/// Checks a write's key and value against the size limit.
pub fn validate_write(key: &str, value: &str) -> (r: Result<(), WriteError>)
    ensures
        r is Ok <==> fits_limits(key@, value@),
        r is Err ==> r == Err::<(), WriteError>(WriteError::TooLong),
{
    if key.as_bytes().len() > MAX_FIELD_BYTES || value.as_bytes().len() > MAX_FIELD_BYTES {
        Err(WriteError::TooLong)
    } else {
        Ok(())
    }
}

impl Cache {
    /// A write as the request layer makes it, at memory utilisation
    /// `memory_pct`. An oversized key or value is refused and nothing
    /// changes. Else, at critical memory utilisation an eviction pass runs
    /// first, and then `put` stores the value; the result is how many entries
    /// the pass removed (0 where none ran).
    pub fn write(&mut self, key: String, value: String, memory_pct: usize) -> (r: Result<
        usize,
        WriteError,
    >)
        requires
            old(self).wf(),
            old(self).counter() < usize::MAX,
        ensures
            final(self).wf(),
            r is Err <==> !fits_limits(key@, value@),
            r is Err ==> final(self).entries() == old(self).entries() && final(self).counter()
                == old(self).counter(),
            r is Ok ==> final(self).counter() == old(self).counter() + 1,
            r is Ok && memory_pct < CRITICAL_MEMORY_PERCENT ==> r == Ok::<usize, WriteError>(0)
                && final(self).entries() == old(self).entries().insert(
                key@,
                (value@, true, final(self).counter()),
            ),
            r is Ok && memory_pct >= CRITICAL_MEMORY_PERCENT ==> exists|m: Map<
                Seq<char>,
                EntryView,
            >|
                evict_outcome(
                    old(self).entries(),
                    m,
                    memory_pct as int,
                    target_capacity_spec(memory_pct as int),
                ) && r == Ok::<usize, WriteError>((old(self).entries().len() - m.len()) as usize)
                    && final(self).entries() == m.insert(key@, (value@, true, final(self).counter())),
    {
        match validate_write(key.as_str(), value.as_str()) {
            Err(e) => Err(e),
            Ok(()) => {
                let mut evicted: usize = 0;
                if memory_pct >= CRITICAL_MEMORY_PERCENT {
                    evicted = self.evict(memory_pct);
                }
                let ghost mid = self.entries();
                self.put(key, value);
                proof {
                    if memory_pct >= CRITICAL_MEMORY_PERCENT {
                        assert(final(self).entries() == mid.insert(key@, (value@, true, final(self).counter())));
                    }
                }
                Ok(evicted)
            }
        }
    }
}

} // verus!
