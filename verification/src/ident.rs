//! Identifiers: the one primitive token of the annotation grammar. An
//! identifier is a maximal run of identifier characters beginning with a
//! letter or `_`, and carries its name together with its span.

use crate::error::PyretResult;
use crate::lex::{id_char, id_start_char, ident_end, is_id_char, is_id_start,
    lemma_ident_end_run};
use crate::state::LexerState;
use crate::token::{Token, TokenLexer};
use vstd::prelude::*;

verus! {

#[derive(Debug, PartialEq, Eq)]
pub struct IdentifierExpression {
    pub span: (usize, usize),
    pub name: String,
}

/// `id` is exactly the maximal identifier of `s` at its start offset: its
/// name is the very text of its span, the first character can begin an
/// identifier, and the span reaches as far as identifier characters do.
pub open spec fn ident_wf(id: IdentifierExpression, s: Seq<char>) -> bool {
    &&& 0 <= id.spec_start() < id.spec_end() <= s.len()
    &&& is_id_start(s[id.spec_start()])
    &&& id.spec_end() == ident_end(s, id.spec_start())
    &&& id.spec_name() == s.subrange(id.spec_start(), id.spec_end())
}

impl IdentifierExpression {
    /// The identifier's name, as a sequence of characters.
    pub open spec fn spec_name(&self) -> Seq<char> {
        self.name@
    }
}

impl Token for IdentifierExpression {
    open spec fn spec_start(&self) -> int {
        self.span.0 as int
    }

    open spec fn spec_end(&self) -> int {
        self.span.1 as int
    }

    open spec fn spec_leaf_name(&self) -> Seq<char> {
        "identifier"@
    }

    fn node_name() -> (r: &'static str) {
        "identifier"
    }

    fn leaf_name(&self) -> (r: &'static str) {
        "identifier"
    }

    fn start(&self) -> (r: usize) {
        self.span.0
    }

    fn end(&self) -> (r: usize) {
        self.span.1
    }
}

impl IdentifierExpression {
    /// Build an identifier node directly, for callers that already know the
    /// name and where it stood.
    pub fn new(name: String, start: usize, end: usize) -> (r: Self)
        ensures
            r.spec_start() == start as int,
            r.spec_end() == end as int,
            r.spec_name() == name@,
    {
        IdentifierExpression { span: (start, end), name }
    }

    /// Optional match of one identifier exactly at the cursor, with no
    /// whitespace skipping. On `None` the state has not moved; on `Some` the
    /// returned node is the maximal identifier that began at the old cursor
    /// offset, and the cursor stands just past it.
    pub fn scan(state: &mut LexerState) -> (r: Option<IdentifierExpression>)
        requires
            old(state).wf(),
        ensures
            final(state).wf(),
            final(state).text() == old(state).text(),
            old(state).cursor() <= final(state).cursor(),
            r is None ==> final(state).cursor() == old(state).cursor() && !(old(state).cursor()
                < old(state).text().len() && is_id_start(
                old(state).text()[old(state).cursor()],
            )),
            r matches Some(id) ==> ({
                let s = old(state).text();
                let i = old(state).cursor();
                &&& i < s.len() && is_id_start(s[i])
                &&& ident_wf(id, s)
                &&& id.spec_start() == i
                &&& id.spec_end() == final(state).cursor()
            }),
    {
        let c = match state.peek() {
            Some(c) => c,
            None => {
                return None;
            },
        };
        if !id_start_char(c) {
            return None;
        }
        let start = state.offset();
        let ghost s = state.text();
        loop
            invariant
                state.wf(),
                state.text() == s,
                start as int <= state.cursor() <= s.len(),
                forall|k: int| start as int <= k < state.cursor() ==> is_id_char(s[k]),
            ensures
                state.wf(),
                state.text() == s,
                start as int <= state.cursor() <= s.len(),
                forall|k: int| start as int <= k < state.cursor() ==> is_id_char(s[k]),
                state.cursor() == s.len() || !is_id_char(s[state.cursor()]),
            decreases s.len() - state.cursor(),
        {
            match state.peek() {
                Some(c2) => {
                    if id_char(c2) {
                        state.advance();
                    } else {
                        break;
                    }
                },
                None => {
                    break;
                },
            }
        }
        proof {
            assert(is_id_char(s[start as int]));
            if state.cursor() == start as int {
                assert(false);
            }
            lemma_ident_end_run(s, start as int, state.cursor());
        }
        let end = state.offset();
        let name = state.slice(start, end);
        Some(IdentifierExpression { span: (start, end), name })
    }
}

impl TokenLexer for IdentifierExpression {
    /// Identifier lexing never errors: absent exactly when no identifier
    /// begins at the cursor, otherwise the maximal identifier standing there.
    fn lex(state: &mut LexerState) -> (r: PyretResult<Option<Self>>)
        ensures
            r is Ok,
            ({
                let s = old(state).text();
                let i = old(state).cursor();
                &&& ((r matches Ok(None)) <==> !(i < s.len() && is_id_start(s[i])))
                &&& (r matches Ok(Some(id)) ==> ({
                    &&& ident_wf(id, s)
                    &&& id.spec_start() == i
                    &&& id.spec_end() == final(state).cursor() == ident_end(s, i)
                }))
            }),
    {
        Ok(Self::scan(state))
    }
}

} // verus!
