//! A byte-exact MessagePack codec with machine-checked contracts.

use vstd::prelude::*;

pub mod decode;
pub mod encode;
pub mod endian;
pub mod format;
pub mod integer;
pub mod laws;
pub mod marker;
pub mod parse;
pub mod value;

verus! {

/// The outcome of asking a collection reader for its next item: either the
/// item, or the end of the collection together with the underlying reader.
pub enum MsgPackOption<T, U> {
    Item(T),
    End(U),
}

impl<T, U> MsgPackOption<T, U> {
    /// Convert to an `Option`, dropping the reader carried by `End`.
    pub fn into_option(self) -> (r: Option<T>)
        ensures
            r == (match self {
                MsgPackOption::Item(t) => Option::Some(t),
                MsgPackOption::End(_) => Option::None,
            }),
    {
        match self {
            MsgPackOption::Item(t) => Option::Some(t),
            MsgPackOption::End(_u) => Option::None,
        }
    }

    /// The item. There must be one: the collection has not ended.
    pub fn unwrap(self) -> (t: T)
        requires
            self is Item,
        ensures
            t == self->Item_0,
    {
        match self.into_option() {
            Option::Some(t) => t,
            Option::None => unreached(),
        }
    }

    /// The reader that the end of the collection hands back. The collection
    /// must have ended.
    pub fn unwrap_end(self) -> (u: U)
        requires
            self is End,
        ensures
            u == self->End_0,
    {
        match self {
            MsgPackOption::End(u) => u,
            MsgPackOption::Item(_) => unreached(),
        }
    }
}

} // verus!
