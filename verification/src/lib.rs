//! Primitives for composing suspending computations without dynamic dispatch:
//! a race combinator, a join combinator, two single-shot adaptors, and the
//! wrapper pair that marks content as address-fixed or as free to relocate.

pub mod computation;
pub mod if_ready;
pub mod ready_or_never;
pub mod completion;
pub mod join_future;
pub mod pinned_pin;
pub mod anti_pinned;
pub mod pinned_pin_pins_items;
pub mod any_future;
