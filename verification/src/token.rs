//! The uniform surface every parse node offers: a node kind tag, a
//! per-instance label, and a half-open span. Diagnostic and serialization
//! code works against this trait alone and never special-cases node kinds.
//!
//! Two capabilities sit on top of it. [`TokenLexer`] is tentative
//! recognition: absence is a normal outcome and leaves the cursor exactly
//! where it was. [`TokenParser`] is mandatory recognition: the grammar has
//! already decided the construct must be here, so failure is always a
//! positioned error.

use crate::error::PyretResult;
use crate::state::LexerState;
use vstd::prelude::*;
use vstd::string::StrSliceExecFns;

verus! {

/// A node description for downstream tooling: `{label, half-open span}`.
#[derive(Debug, PartialEq, Eq)]
pub struct SerializedToken {
    pub name: String,
    pub span: core::ops::Range<usize>,
}

pub trait Token: Sized {
    /// Start offset of the node's span.
    spec fn spec_start(&self) -> int;

    /// End offset of the node's span.
    spec fn spec_end(&self) -> int;

    /// The label `leaf_name` returns.
    spec fn spec_leaf_name(&self) -> Seq<char>;

    /// The stable kind tag shared by every node of this type.
    fn node_name() -> (r: &'static str);

    /// A human-readable label; may differ per instance to tell sub-kinds
    /// sharing one type apart.
    fn leaf_name(&self) -> (r: &'static str)
        ensures
            r@ == self.spec_leaf_name(),
    ;

    fn start(&self) -> (r: usize)
        ensures
            r as int == self.spec_start(),
    ;

    fn end(&self) -> (r: usize)
        ensures
            r as int == self.spec_end(),
    ;

    /// The node's half-open span `start()..end()`.
    fn span(&self) -> (r: core::ops::Range<usize>)
        ensures
            r.start as int == self.spec_start(),
            r.end as int == self.spec_end(),
    {
        self.start()..self.end()
    }

    fn serialize(&self) -> (r: SerializedToken)
        ensures
            r.name@ == self.spec_leaf_name(),
            r.span.start as int == self.spec_start(),
            r.span.end as int == self.spec_end(),
    {
        SerializedToken { name: self.leaf_name().to_owned(), span: self.span() }
    }
}

/// Tentative recognition: does the input at the cursor begin this construct?
pub trait TokenLexer: Token {
    /// Returns `Ok(None)` when the construct is not present — in that case
    /// the cursor has not moved at all. Returns `Ok(Some(_))` with the cursor
    /// advanced exactly past the construct, so the token's span ends at the
    /// new cursor offset. Returns `Err(_)` only when the construct began to
    /// match and then turned out malformed.
    fn lex(state: &mut LexerState) -> (r: PyretResult<Option<Self>>)
        requires
            old(state).wf(),
        ensures
            final(state).wf(),
            final(state).text() == old(state).text(),
            old(state).cursor() <= final(state).cursor(),
            r matches Ok(None) ==> final(state).cursor() == old(state).cursor(),
            r matches Ok(Some(tok)) ==> old(state).cursor() <= tok.spec_start()
                < tok.spec_end() == final(state).cursor(),
    ;
}

/// Mandatory recognition: the grammar requires this construct here.
pub trait TokenParser: Token {
    /// Consume the construct or fail with a positioned error. On success the
    /// token's span ends exactly at the new cursor offset, which never runs
    /// past the end of the input.
    fn parse(state: &mut LexerState) -> (r: PyretResult<Self>)
        requires
            old(state).wf(),
        ensures
            final(state).wf(),
            final(state).text() == old(state).text(),
            old(state).cursor() <= final(state).cursor(),
            r matches Ok(tok) ==> old(state).cursor() <= tok.spec_start() < tok.spec_end()
                == final(state).cursor(),
    ;
}

} // verus!
