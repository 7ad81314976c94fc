//! Composable computational effects sharing one `pure`/`bind` contract, and a
//! notation expander that turns a flat block of binding statements into the
//! nested `bind` calls the effect's semantics asks for.
//!
//! The base effects are the optional and multi-result computations of
//! `monad`; `reader`, `writer` and `state` thread an immutable environment, a
//! monoid log and a replaceable state; `reader_trans`, `writer_trans` and
//! `state_trans` generalise them over a multi-result inner computation.
//! `monoid` supplies the append and neutral element the writer effects rely
//! on, with the algebraic laws as proof obligations, and `util` the append
//! helpers in the shape `censor` takes. `notation` holds the block language,
//! one expander per effect family, and the comprehension law.
//!
//! Each effect module states its mathematical model — a pair, a sequence, or
//! a total function of the environment or state — and proves the monad laws
//! over that model; bridging lemmas connect the executable contracts to the
//! models wherever a computation is a stored, deferred function.

pub mod monad;
pub mod monoid;
pub mod notation;
pub mod reader;
pub mod reader_trans;
pub mod state;
pub mod state_trans;
pub mod util;
pub mod writer;
pub mod writer_trans;
