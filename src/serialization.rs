//! Conversions between a command and its wire form.
use vstd::prelude::*;

verus! {

pub trait Serialize<T> {
    /// Each argument as a bulk string, one after the other.
    fn serialize_bulk_string(&self) -> T;

    /// The arguments as one RESP array.
    fn serialize_array(&self) -> T;
}

pub trait Deserialize<T> {
    /// Reads the command from its wire form.
    fn deserialize(&mut self, input: T) -> Result<(), String>;
}

} // verus!
