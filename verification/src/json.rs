//! A generic JSON tree value: the parser's input.
//!
//! The compiler core never decodes raw bytes; a caller supplies a decoded
//! tree in this shape (for instance by converting from a JSON library's
//! value type) and the parser classifies it.

use crate::table::{
    assoc_get, assoc_has, lemma_assoc_index, lemma_assoc_index_first, str_entries,
};
use vstd::prelude::*;

verus! {

/// A JSON number, as far as this compiler cares: either an integer that fits
/// in `i64`, a larger non-negative integer, or some other (non-integral)
/// number whose exact value the grammar never reads.
#[derive(Debug, Clone, Copy, PartialEq, Eq, Structural)]
pub enum JsonNumber {
    Int(i64),
    BigUint(u64),
    Float,
}

/// A decoded JSON value.
///
/// An object is an ordered list of key/value entries: entry order is
/// significant for this compiler (it is the only order the lowering pass has
/// to work with), so an object is kept as a sequence, not re-sorted into a
/// map.
#[derive(Debug, PartialEq)]
pub enum JsonValue {
    Null,
    Bool(bool),
    Number(JsonNumber),
    String(String),
    Array(Vec<JsonValue>),
    Object(Vec<(String, JsonValue)>),
}

impl JsonValue {
    /// Looks a key up in an object's entry list: the first entry with that
    /// key wins.
    pub fn get<'a>(entries: &'a Vec<(String, JsonValue)>, key: &str) -> (r: Option<&'a JsonValue>)
        ensures
            match r {
                Some(v) => {
                    &&& assoc_has(str_entries(entries@), key@)
                    &&& *v == assoc_get(str_entries(entries@), key@)
                },
                None => !assoc_has(str_entries(entries@), key@),
            },
    {
        proof {
            lemma_assoc_index(str_entries(entries@), key@);
        }
        let n = entries.len();
        let mut i: usize = 0;
        while i < n
            invariant
                n == entries@.len(),
                i <= n,
                forall|j: int| 0 <= j < i ==> entries@[j].0@ != key@,
            decreases n - i,
        {
            if crate::text::str_eq(entries[i].0.as_str(), key) {
                proof {
                    lemma_assoc_index_first(str_entries(entries@), key@, i as int);
                }
                return Some(&entries[i].1);
            }
            i += 1;
        }
        None
    }
}

} // verus!

