//! The annotation tree and the recursive-descent parser that builds it.
//!
//! The grammar, starting immediately after a `::` ascription marker:
//!
//! ```text
//! annotation := dotted-path [ '<' idents '>' ] [ '%' identifier ]   name
//!             | [ '<' idents '>' ] '(' annotations ')' '->' annotation   arrow
//!             | '(' annotations ')'                                 tuple, >= 1 elements
//!             | '{' [ field (',' field)* ] '}'                      record
//! field      := identifier '::' annotation
//! dotted-path := identifier ('.' identifier)*       with no spaces around '.'
//! ```
//!
//! `(...)` is ambiguous between an arrow's argument list and a tuple: the
//! element list is parsed once, and becomes the arguments of an arrow when
//! an `->` follows the closer, a tuple otherwise. Whitespace may stand
//! between any two tokens except around the dots of a dotted path.

use crate::error::{ParseError, PyretResult};
use crate::ident::{ident_wf, IdentifierExpression};
use crate::lex::{dotted_end, ident_end, ident_list_close, is_id_start, name_list_close, ws_end};
use crate::state::{two_at, LexerState};
use crate::token::{Token, TokenLexer, TokenParser};
use vstd::prelude::*;

verus! {

/// A single bare name, or a dotted module-qualified reference of at least
/// two names.
#[derive(Debug, PartialEq, Eq)]
pub enum IdentifierAnnotation {
    Dot(Vec<IdentifierExpression>),
    Name(IdentifierExpression),
}

/// One `name :: annotation` entry of a record annotation.
#[derive(Debug, PartialEq)]
pub struct RecordField {
    pub name: IdentifierExpression,
    pub annotation: AnnotationType,
}

/// The sum of the four annotation forms.
#[derive(Debug, PartialEq)]
pub enum AnnotationType {
    /// A (possibly dotted) name, zero or more applied identifier
    /// parameters, and an optional trailing predicate identifier.
    NameAnnotation {
        value: IdentifierAnnotation,
        parameters: Vec<IdentifierExpression>,
        predicate: Option<IdentifierExpression>,
    },
    /// A function type. `generics` is `None` when no generic clause was
    /// written at all; `Some` of an empty list means `<>` was written.
    ArrowAnnotation {
        generics: Option<Vec<IdentifierExpression>>,
        arguments: Vec<AnnotationType>,
        return_annotation: Box<AnnotationType>,
    },
    /// One or more element annotations; zero-element tuples cannot be built
    /// from the grammar.
    TupleAnnotation(Vec<AnnotationType>),
    /// Field entries in insertion order; field names are unique.
    RecordAnnotation(Vec<RecordField>),
}

/// The node anchoring a `::` marker to the annotation that follows it.
#[derive(Debug, PartialEq)]
pub struct TypeAnnotation {
    pub span: (usize, usize),
    pub value: AnnotationType,
}

/// `ids` is a chain of well-formed identifiers of `s`, each pair separated
/// by exactly one `.` character.
pub open spec fn dotted_chain(ids: Seq<IdentifierExpression>, s: Seq<char>) -> bool {
    &&& forall|i: int| 0 <= i < ids.len() ==> ident_wf(#[trigger] ids[i], s)
    &&& forall|i: int|
        0 <= i < ids.len() - 1 ==> (#[trigger] ids[i]).spec_end() + 1 == ids[i + 1].spec_start()
            && s[ids[i].spec_end()] == '.'
}

/// No two fields share a name.
pub open spec fn record_fields_unique(fields: Seq<RecordField>) -> bool {
    forall|i: int, j: int|
        0 <= i < j < fields.len() ==> (#[trigger] fields[i].name.spec_name()) != (
        #[trigger] fields[j].name.spec_name())
}

/// Errors point back into the source text: an unterminated group at its
/// opener, a malformed tuple at its `(`, and a duplicate field at the second
/// occurrence of the very field name it names.
pub open spec fn error_anchored(e: ParseError, s: Seq<char>) -> bool {
    &&& (e matches ParseError::ExpectedConstruct { offset, .. } ==> offset <= s.len())
    &&& (e matches ParseError::UnterminatedGroup { offset } ==> offset < s.len() && (s[
        offset as int
    ] == '<' || s[offset as int] == '(' || s[offset as int] == '{'))
    &&& (e matches ParseError::MalformedTuple { offset } ==> offset < s.len() && s[
        offset as int
    ] == '(')
    &&& (e matches ParseError::DuplicateField { offset, name } ==> offset < s.len()
        && is_id_start(s[offset as int]) && name@ == s.subrange(
        offset as int,
        ident_end(s, offset as int),
    ))
}

/// The identifier list written between a `<` at `open` and the `>` at
/// `close`: the elements in order, separated by single commas, whitespace
/// allowed around every token. Together with each element being a maximal
/// identifier, this pins the list exactly.
pub open spec fn ident_list_at(
    ids: Seq<IdentifierExpression>,
    s: Seq<char>,
    open: int,
    close: int,
) -> bool {
    &&& 0 <= open < close < s.len()
    &&& s[open] == '<'
    &&& s[close] == '>'
    &&& if ids.len() == 0 {
        close == ws_end(s, open + 1)
    } else {
        &&& forall|i: int| 0 <= i < ids.len() ==> ident_wf(#[trigger] ids[i], s)
        &&& ids[0].spec_start() == ws_end(s, open + 1)
        &&& forall|i: int|
            0 <= i < ids.len() - 1 ==> ({
                let c = ws_end(s, (#[trigger] ids[i]).spec_end());
                c < s.len() && s[c] == ',' && ids[i + 1].spec_start() == ws_end(s, c + 1)
            })
        &&& close == ws_end(s, ids.last().spec_end())
    }
}

/// Where the optional predicate clause stands, starting at `from`: absent
/// exactly when no `%` follows there (after whitespace); present with the
/// predicate identifier right after the `%`.
pub open spec fn predicate_layout(
    pred: Option<IdentifierExpression>,
    s: Seq<char>,
    from: int,
    end: int,
) -> bool {
    match pred {
        Option::None => ({
            let k = ws_end(s, from);
            end == from && (k == s.len() || s[k] != '%')
        }),
        Option::Some(pid) => ({
            let m = ws_end(s, from);
            &&& m < s.len() && s[m] == '%'
            &&& ident_wf(pid, s)
            &&& pid.spec_start() == ws_end(s, m + 1)
            &&& end == pid.spec_end()
        }),
    }
}

/// The complete layout of a name annotation in `[start, end)` of `s`: the
/// whole dotted path written there, then the applied-parameter list exactly
/// when a `<` follows it, then the predicate clause exactly when a `%`
/// follows that.
pub open spec fn name_layout(
    value: IdentifierAnnotation,
    parameters: Seq<IdentifierExpression>,
    predicate: Option<IdentifierExpression>,
    s: Seq<char>,
    start: int,
    end: int,
) -> bool {
    &&& value.wf_path(s)
    &&& value.path_start() == start
    &&& value.path_end() == dotted_end(s, start)
    &&& ({
        let k = ws_end(s, value.path_end());
        if k < s.len() && s[k] == '<' {
            exists|close: int|
                #[trigger] ident_list_at(parameters, s, k, close) && predicate_layout(
                    predicate,
                    s,
                    close + 1,
                    end,
                )
        } else {
            parameters.len() == 0 && predicate_layout(predicate, s, value.path_end(), end)
        }
    })
}

/// The spans of the annotations written between an opener at `open` and the
/// closer at `close`, in order, separated by single commas.
pub open spec fn spans_chain(spans: Seq<(int, int)>, s: Seq<char>, open: int, close: int) -> bool {
    if spans.len() == 0 {
        close == ws_end(s, open + 1)
    } else {
        &&& spans[0].0 == ws_end(s, open + 1)
        &&& forall|i: int|
            0 <= i < spans.len() - 1 ==> ({
                let c = ws_end(s, (#[trigger] spans[i]).1);
                c < s.len() && s[c] == ',' && spans[i + 1].0 == ws_end(s, c + 1)
            })
        &&& close == ws_end(s, spans.last().1)
    }
}

/// What every successful parse guarantees of its node over the source text
/// `s` and the node's span `[start, end)`.
pub open spec fn ann_result_wf(a: AnnotationType, s: Seq<char>, start: int, end: int) -> bool
    decreases a,
{
    &&& a.shape_wf()
    &&& (a matches AnnotationType::NameAnnotation { value, parameters, predicate } ==> ({
        &&& is_id_start(s[start])
        &&& name_layout(value, parameters@, predicate, s, start, end)
    }))
    &&& (a matches AnnotationType::TupleAnnotation(elems) ==> ({
        &&& s[start] == '('
        &&& 0 <= start < end - 1 < s.len() && s[end - 1] == ')'
        &&& exists|spans: Seq<(int, int)>|
            #[trigger] spans_chain(spans, s, start, end - 1) && spans.len() == elems.len()
                && forall|i: int|
                0 <= i < elems.len() ==> ann_result_wf(
                    #[trigger] elems[i],
                    s,
                    spans[i].0,
                    spans[i].1,
                )
    }))
    &&& (a matches AnnotationType::RecordAnnotation(fields) ==> ({
        &&& s[start] == '{'
        &&& 0 <= start < end - 1 < s.len() && s[end - 1] == '}'
        &&& exists|spans: Seq<(int, int)>|
            ({
                &&& #[trigger] spans.len() == fields@.len()
                &&& (if fields@.len() == 0 {
                    end - 1 == ws_end(s, start + 1)
                } else {
                    &&& fields@[0].name.spec_start() == ws_end(s, start + 1)
                    &&& (forall|i: int|
                        0 <= i < fields@.len() ==> ({
                            let m = ws_end(s, (#[trigger] fields@[i]).name.spec_end());
                            &&& ident_wf(fields@[i].name, s)
                            &&& two_at(s, m, ':', ':')
                            &&& spans[i].0 == ws_end(s, m + 2)
                        }))
                    &&& (forall|i: int|
                        0 <= i < fields@.len() - 1 ==> ({
                            let c = ws_end(s, (#[trigger] spans[i]).1);
                            c < s.len() && s[c] == ',' && fields@[i + 1].name.spec_start()
                                == ws_end(s, c + 1)
                        }))
                    &&& end - 1 == ws_end(s, spans.last().1)
                })
                &&& (forall|i: int|
                    0 <= i < fields@.len() ==> ann_result_wf(
                        (#[trigger] fields@[i]).annotation,
                        s,
                        spans[i].0,
                        spans[i].1,
                    ))
            })
    }))
    &&& (a matches AnnotationType::ArrowAnnotation { generics, arguments, return_annotation }
        ==> ({
        &&& (generics is Some ==> s[start] == '<')
        &&& (generics is None ==> s[start] == '(')
        &&& (generics matches Some(gs) ==> exists|close: int|
            #[trigger] ident_list_at(gs@, s, start, close))
        &&& exists|aopen: int, aclose: int, spans: Seq<(int, int)>|
            ({
                &&& 0 <= aopen < aclose < s.len()
                &&& s[aopen] == '('
                &&& #[trigger] spans_chain(spans, s, aopen, aclose)
                &&& spans.len() == arguments.len()
                &&& (forall|i: int|
                    0 <= i < arguments.len() ==> ann_result_wf(
                        #[trigger] arguments[i],
                        s,
                        spans[i].0,
                        spans[i].1,
                    ))
                &&& two_at(s, ws_end(s, aclose + 1), '-', '>')
                &&& ann_result_wf(
                    *return_annotation,
                    s,
                    ws_end(s, ws_end(s, aclose + 1) + 2),
                    end,
                )
            })
    }))
}

impl IdentifierAnnotation {
    /// The path elements in order; a bare name is a one-element path.
    pub open spec fn idents(self) -> Seq<IdentifierExpression> {
        match self {
            IdentifierAnnotation::Dot(v) => v@,
            IdentifierAnnotation::Name(id) => seq![id],
        }
    }

    /// The names of the path elements, in order.
    pub open spec fn path_names(self) -> Seq<Seq<char>> {
        self.idents().map_values(|id: IdentifierExpression| id.spec_name())
    }

    pub open spec fn path_start(self) -> int {
        self.idents().first().spec_start()
    }

    pub open spec fn path_end(self) -> int {
        self.idents().last().spec_end()
    }

    /// The path is never empty, a dotted path has at least two elements, and
    /// the elements form a dot-separated chain of identifiers of `s`.
    pub open spec fn wf_path(self, s: Seq<char>) -> bool {
        &&& self.idents().len() >= 1
        &&& (self matches IdentifierAnnotation::Dot(v) ==> v@.len() >= 2)
        &&& dotted_chain(self.idents(), s)
    }
}

impl AnnotationType {
    /// Structural invariants of every tree the parser builds: dotted paths
    /// are non-empty, tuples have at least one element, record field names
    /// are unique — recursively, in every nested annotation.
    pub open spec fn shape_wf(self) -> bool
        decreases self,
    {
        match self {
            AnnotationType::NameAnnotation { value, parameters, predicate } => {
                &&& value.idents().len() >= 1
                &&& (value matches IdentifierAnnotation::Dot(v) ==> v@.len() >= 2)
            },
            AnnotationType::ArrowAnnotation { generics, arguments, return_annotation } => {
                &&& (*return_annotation).shape_wf()
                &&& forall|i: int|
                    0 <= i < arguments.len() ==> (#[trigger] arguments[i]).shape_wf()
            },
            AnnotationType::TupleAnnotation(elems) => {
                &&& elems.len() >= 1
                &&& forall|i: int| 0 <= i < elems.len() ==> (#[trigger] elems[i]).shape_wf()
            },
            AnnotationType::RecordAnnotation(fields) => {
                &&& record_fields_unique(fields@)
                &&& forall|i: int|
                    0 <= i < fields.len() ==> (#[trigger] fields[i]).annotation.shape_wf()
            },
        }
    }
}

/// `names`, joined with a `.` between each pair of neighbours.
pub open spec fn join_names(names: Seq<Seq<char>>) -> Seq<char>
    decreases names.len(),
{
    if names.len() == 0 {
        Seq::empty()
    } else if names.len() == 1 {
        names[0]
    } else {
        names[0] + seq!['.'] + join_names(names.drop_first())
    }
}

proof fn lemma_chain_join(ids: Seq<IdentifierExpression>, s: Seq<char>)
    requires
        ids.len() >= 1,
        dotted_chain(ids, s),
    ensures
        ids.first().spec_start() < ids.last().spec_end(),
        join_names(ids.map_values(|id: IdentifierExpression| id.spec_name())) == s.subrange(
            ids.first().spec_start(),
            ids.last().spec_end(),
        ),
    decreases ids.len(),
{
    let names = ids.map_values(|id: IdentifierExpression| id.spec_name());
    assert(ident_wf(ids[0], s));
    if ids.len() == 1 {
        assert(names[0] == ids[0].spec_name());
        assert(join_names(names) == names[0]);
    } else {
        let tail = ids.drop_first();
        assert forall|i: int| 0 <= i < tail.len() implies ident_wf(#[trigger] tail[i], s) by {
            assert(tail[i] == ids[i + 1]);
        }
        assert forall|i: int|
            0 <= i < tail.len() - 1 implies (#[trigger] tail[i]).spec_end() + 1 == tail[i
            + 1].spec_start() && s[tail[i].spec_end()] == '.' by {
            assert(tail[i] == ids[i + 1]);
            assert(tail[i + 1] == ids[i + 2]);
        }
        lemma_chain_join(tail, s);
        let tail_names = tail.map_values(|id: IdentifierExpression| id.spec_name());
        assert forall|i: int| 0 <= i < tail_names.len() implies tail_names[i]
            == names.drop_first()[i] by {
            assert(tail[i] == ids[i + 1]);
        }
        assert(tail_names =~= names.drop_first());
        let a0 = ids[0].spec_start();
        let e0 = ids[0].spec_end();
        let a1 = ids[1].spec_start();
        let el = ids.last().spec_end();
        assert(tail.first() == ids[1]);
        assert(tail.last() == ids.last());
        assert(a1 == e0 + 1 && s[e0] == '.');
        assert(join_names(names) == names[0] + seq!['.'] + join_names(names.drop_first()));
        assert(names[0] == s.subrange(a0, e0));
        assert(s.subrange(a0, el) =~= s.subrange(a0, e0) + seq!['.'] + s.subrange(a1, el));
    }
}

/// Parsing round-trips a dotted path: the names of a well-formed path,
/// joined with dots in their original order, are exactly the source text of
/// the path's span, so no element is dropped, changed or reordered.
pub proof fn lemma_dotted_path_round_trip(a: IdentifierAnnotation, s: Seq<char>)
    requires
        a.wf_path(s),
    ensures
        join_names(a.path_names()) == s.subrange(a.path_start(), a.path_end()),
{
    lemma_chain_join(a.idents(), s);
}

/// Optional match of a dotted identifier path exactly at the cursor. On
/// `Ok(None)` the state has not moved and no identifier begins here. On
/// `Ok(Some(_))` the path starts at the old cursor offset, ends at the new
/// one, and lists the dot-separated identifiers of that region in order.
fn parse_dotted(state: &mut LexerState) -> (r: PyretResult<Option<IdentifierAnnotation>>)
    requires
        old(state).wf(),
    ensures
        final(state).wf(),
        final(state).text() == old(state).text(),
        old(state).cursor() <= final(state).cursor(),
        r matches Ok(None) ==> final(state).cursor() == old(state).cursor() && !(old(
            state,
        ).cursor() < old(state).text().len() && is_id_start(
            old(state).text()[old(state).cursor()],
        )),
        r matches Ok(Some(a)) ==> ({
            let s = old(state).text();
            &&& a.wf_path(s)
            &&& a.path_start() == old(state).cursor()
            &&& a.path_end() == final(state).cursor()
            &&& old(state).cursor() < final(state).cursor()
            &&& final(state).cursor() == dotted_end(s, old(state).cursor())
            &&& final(state).cursor() == s.len() || s[final(state).cursor()] != '.'
        }),
        r matches Err(e) ==> ({
            let s = old(state).text();
            let e2 = dotted_end(s, old(state).cursor());
            &&& e matches ParseError::ExpectedConstruct { .. }
            &&& error_anchored(e, s)
            &&& old(state).cursor() < s.len() && is_id_start(s[old(state).cursor()])
            &&& e2 < s.len() && s[e2] == '.'
        }),
{
    let ghost s = state.text();
    let ghost start0 = state.cursor();
    let first = match IdentifierExpression::scan(state) {
        None => {
            return Ok(None);
        },
        Some(id) => id,
    };
    let mut ids: Vec<IdentifierExpression> = Vec::new();
    ids.push(first);
    loop
        invariant
            state.wf(),
            state.text() == s,
            s == old(state).text(),
            ids@.len() >= 1,
            dotted_chain(ids@, s),
            start0 == old(state).cursor(),
            ids@.first().spec_start() == start0,
            ids@.last().spec_end() == state.cursor(),
            start0 < state.cursor() <= s.len(),
            dotted_end(s, start0) == dotted_end(s, ids@.last().spec_start()),
        ensures
            state.wf(),
            state.text() == s,
            ids@.len() >= 1,
            dotted_chain(ids@, s),
            ids@.first().spec_start() == start0,
            ids@.last().spec_end() == state.cursor(),
            start0 < state.cursor() <= s.len(),
            dotted_end(s, start0) == dotted_end(s, ids@.last().spec_start()),
            state.cursor() == s.len() || s[state.cursor()] != '.',
        decreases s.len() - state.cursor(),
    {
        if !state.try_char('.') {
            break;
        }
        let ghost dot_off = state.cursor() - 1;
        let id = match IdentifierExpression::scan(state) {
            None => {
                proof {
                    let last = ids@.last();
                    assert(ident_wf(last, s));
                    assert(ident_end(s, last.spec_start()) == dot_off);
                    assert(dotted_end(s, last.spec_start()) == dot_off);
                }
                return Err(
                    ParseError::ExpectedConstruct {
                        offset: state.offset(),
                        expected: "identifier",
                    },
                );
            },
            Some(id) => id,
        };
        let ghost prev = ids@;
        ids.push(id);
        proof {
            assert(ids@ == prev.push(id));
            assert forall|i: int| 0 <= i < ids@.len() implies ident_wf(#[trigger] ids@[i], s) by {
                if i < prev.len() {
                    assert(ids@[i] == prev[i]);
                } else {
                    assert(ids@[i] == id);
                }
            }
            assert forall|i: int|
                0 <= i < ids@.len() - 1 implies (#[trigger] ids@[i]).spec_end() + 1 == ids@[i
                + 1].spec_start() && s[ids@[i].spec_end()] == '.' by {
                if i < prev.len() - 1 {
                    assert(ids@[i] == prev[i]);
                    assert(ids@[i + 1] == prev[i + 1]);
                } else {
                    assert(ids@[i] == prev.last());
                    assert(ids@[i + 1] == id);
                    assert(prev.last().spec_end() == dot_off);
                    assert(s[dot_off] == '.');
                }
            }
            let lastp = prev.last();
            assert(ident_wf(lastp, s));
            assert(ident_end(s, lastp.spec_start()) == dot_off);
            assert(id.spec_start() == dot_off + 1);
            assert(is_id_start(s[dot_off + 1]));
            assert(dotted_end(s, lastp.spec_start()) == dotted_end(s, id.spec_start()));
        }
    }
    proof {
        let last = ids@.last();
        assert(ident_wf(last, s));
        assert(ident_end(s, last.spec_start()) == state.cursor());
        assert(dotted_end(s, last.spec_start()) == state.cursor());
    }
    if ids.len() == 1 {
        let ghost whole = ids@;
        let id = ids.remove(0);
        let a = IdentifierAnnotation::Name(id);
        proof {
            assert(a.idents() =~= whole);
        }
        Ok(Some(a))
    } else {
        let ghost whole = ids@;
        let a = IdentifierAnnotation::Dot(ids);
        proof {
            assert(a.idents() == whole);
        }
        Ok(Some(a))
    }
}

/// Commit-parse the inside of a generic identifier list, the opener `<` at
/// `open_off` already consumed: zero or more comma-separated identifiers up
/// to the matching `>`.
fn parse_ident_list(state: &mut LexerState, open_off: usize) -> (r: PyretResult<
    Vec<IdentifierExpression>,
>)
    requires
        old(state).wf(),
        open_off < old(state).text().len(),
        old(state).text()[open_off as int] == '<',
        old(state).cursor() == open_off + 1,
    ensures
        r matches Err(e) ==> error_anchored(e, old(state).text()),
        final(state).wf(),
        final(state).text() == old(state).text(),
        old(state).cursor() <= final(state).cursor(),
        r matches Ok(ids) ==> old(state).cursor() < final(state).cursor() && ident_list_at(
            ids@,
            old(state).text(),
            open_off as int,
            final(state).cursor() - 1,
        ),
        ({
            let s = old(state).text();
            ident_list_close(s, old(state).cursor(), true) matches Some(close) ==> (r matches
                Ok(ids) && final(state).cursor() == close + 1)
        }),
{
    let ghost s = state.text();
    if state.try_char_ws('>') {
        return Ok(Vec::new());
    }
    let mut ids: Vec<IdentifierExpression> = Vec::new();
    loop
        invariant
            state.wf(),
            state.text() == s,
            s == old(state).text(),
            open_off < s.len() && s[open_off as int] == '<',
            old(state).cursor() == open_off + 1,
            old(state).cursor() <= state.cursor() <= s.len(),
            forall|i: int| 0 <= i < ids@.len() ==> ident_wf(#[trigger] ids@[i], s),
            ids@.len() == 0 ==> state.cursor() == open_off + 1,
            ({
                let j0 = ws_end(s, open_off as int + 1);
                !(j0 < s.len() && s[j0] == '>')
            }),
            ident_list_close(s, open_off as int + 1, true) == ident_list_close(
                s,
                state.cursor(),
                ids@.len() == 0,
            ),
            ids@.len() > 0 ==> ids@[0].spec_start() == ws_end(s, open_off as int + 1),
            forall|i: int|
                0 <= i < ids@.len() - 1 ==> ({
                    let c = ws_end(s, (#[trigger] ids@[i]).spec_end());
                    c < s.len() && s[c] == ',' && ids@[i + 1].spec_start() == ws_end(s, c + 1)
                }),
            ids@.len() > 0 ==> ({
                let c = ws_end(s, ids@.last().spec_end());
                c < s.len() && s[c] == ',' && state.cursor() == c + 1
            }),
        decreases s.len() - state.cursor(),
    {
        let ghost seg_from = state.cursor();
        let ghost first_g = ids@.len() == 0;
        state.skip_whitespace();
        let id = match IdentifierExpression::scan(state) {
            None => {
                proof {
                    assert(ident_list_close(s, seg_from, first_g) is None);
                }
                return Err(
                    ParseError::ExpectedConstruct {
                        offset: state.offset(),
                        expected: "identifier",
                    },
                );
            },
            Some(id) => id,
        };
        let ghost prev = ids@;
        ids.push(id);
        proof {
            assert(id.spec_start() == ws_end(s, seg_from));
            assert forall|i: int| 0 <= i < ids@.len() implies ident_wf(#[trigger] ids@[i], s) by {
                if i < prev.len() {
                    assert(ids@[i] == prev[i]);
                } else {
                    assert(ids@[i] == id);
                }
            }
            assert forall|i: int|
                0 <= i < ids@.len() - 1 implies ({
                    let c = ws_end(s, (#[trigger] ids@[i]).spec_end());
                    c < s.len() && s[c] == ',' && ids@[i + 1].spec_start() == ws_end(s, c + 1)
                }) by {
                if i < prev.len() - 1 {
                    assert(ids@[i] == prev[i]);
                    assert(ids@[i + 1] == prev[i + 1]);
                } else {
                    assert(ids@[i] == prev.last());
                    assert(ids@[i + 1] == id);
                }
            }
        }
        if state.try_char_ws('>') {
            proof {
                assert(ident_list_at(ids@, s, open_off as int, state.cursor() - 1));
                assert(ident_list_close(s, seg_from, first_g) == Some(state.cursor() - 1));
            }
            return Ok(ids);
        }
        if !state.try_char_ws(',') {
            proof {
                assert(ident_list_close(s, seg_from, first_g) is None);
            }
            return Err(ParseError::UnterminatedGroup { offset: open_off });
        }
        proof {
            assert(ident_list_close(s, seg_from, first_g) == ident_list_close(
                s,
                state.cursor(),
                false,
            ));
        }
    }
}

/// Commit-parse the inside of a parenthesized annotation list, the opener
/// `(` at `open_off` already consumed: zero or more comma-separated
/// annotations up to the matching `)`.
fn parse_ann_list(state: &mut LexerState, open_off: usize) -> (r: PyretResult<
    (Vec<AnnotationType>, Ghost<Seq<(int, int)>>),
>)
    requires
        old(state).wf(),
        open_off < old(state).text().len(),
        old(state).text()[open_off as int] == '(',
        old(state).cursor() == open_off + 1,
    ensures
        r matches Err(e) ==> error_anchored(e, old(state).text()),
        final(state).wf(),
        final(state).text() == old(state).text(),
        old(state).cursor() <= final(state).cursor(),
        r matches Ok(pr) ==> ({
            let s = old(state).text();
            let spans = pr.1@;
            &&& old(state).cursor() < final(state).cursor()
            &&& final(state).cursor() - 1 < s.len()
            &&& s[final(state).cursor() - 1] == ')'
            &&& spans_chain(spans, s, open_off as int, final(state).cursor() - 1)
            &&& spans.len() == pr.0@.len()
            &&& forall|i: int|
                0 <= i < pr.0@.len() ==> ann_result_wf(
                    #[trigger] pr.0@[i],
                    s,
                    spans[i].0,
                    spans[i].1,
                )
        }),
        ({
            let s = old(state).text();
            let c = ws_end(s, old(state).cursor());
            (c < s.len() && s[c] == ')') ==> (r matches Ok(pr) && pr.0@.len() == 0
                && final(state).cursor() == c + 1)
        }),
        ({
            let s = old(state).text();
            name_list_close(s, old(state).cursor(), true) matches Some(close) ==> (r matches
                Ok(pr) && final(state).cursor() == close + 1)
        }),
    decreases old(state).text().len() - old(state).cursor(), 1int,
{
    let ghost s = state.text();
    if state.try_char_ws(')') {
        return Ok((Vec::new(), Ghost(Seq::empty())));
    }
    let mut elems: Vec<AnnotationType> = Vec::new();
    let ghost mut spans: Seq<(int, int)> = Seq::empty();
    loop
        invariant
            state.wf(),
            state.text() == s,
            s == old(state).text(),
            open_off < s.len() && s[open_off as int] == '(',
            old(state).cursor() == open_off + 1,
            old(state).cursor() <= state.cursor() <= s.len(),
            ({
                let c = ws_end(s, old(state).cursor());
                !(c < s.len() && s[c] == ')')
            }),
            spans.len() == elems@.len(),
            forall|i: int|
                0 <= i < elems@.len() ==> ann_result_wf(
                    #[trigger] elems@[i],
                    s,
                    spans[i].0,
                    spans[i].1,
                ),
            elems@.len() == 0 ==> state.cursor() == open_off + 1,
            elems@.len() > 0 ==> spans[0].0 == ws_end(s, open_off as int + 1),
            forall|i: int|
                0 <= i < spans.len() - 1 ==> ({
                    let c = ws_end(s, (#[trigger] spans[i]).1);
                    c < s.len() && s[c] == ',' && spans[i + 1].0 == ws_end(s, c + 1)
                }),
            elems@.len() > 0 ==> ({
                let c = ws_end(s, spans.last().1);
                c < s.len() && s[c] == ',' && state.cursor() == c + 1
            }),
            name_list_close(s, open_off as int + 1, true) matches Some(cl)
                ==> name_list_close(s, state.cursor(), elems@.len() == 0) == Some(cl),
        decreases s.len() - state.cursor(),
    {
        let ghost seg_from = state.cursor();
        let ghost first_g = elems@.len() == 0;
        let ann = match parse_annotation(state) {
            Ok(p) => p,
            Err(e) => {
                proof {
                    match name_list_close(s, open_off as int + 1, true) {
                        Option::Some(cl) => {
                            assert(name_list_close(s, seg_from, first_g) == Some(cl));
                            let j = ws_end(s, seg_from);
                            assert(j < s.len() && is_id_start(s[j]));
                            assert(false);
                        },
                        Option::None => {},
                    }
                }
                return Err(e);
            },
        };
        let ghost prev = elems@;
        let ghost prev_spans = spans;
        let ghost sp = (ann.1.0 as int, ann.1.1 as int);
        elems.push(ann.0);
        proof {
            spans = spans.push(sp);
            assert(sp.0 == ws_end(s, seg_from));
            assert forall|i: int|
                0 <= i < elems@.len() implies ann_result_wf(
                #[trigger] elems@[i],
                s,
                spans[i].0,
                spans[i].1,
            ) by {
                if i < prev.len() {
                    assert(elems@[i] == prev[i]);
                    assert(spans[i] == prev_spans[i]);
                } else {
                    assert(elems@[i] == ann.0);
                    assert(spans[i] == sp);
                }
            }
            assert forall|i: int|
                0 <= i < spans.len() - 1 implies ({
                    let c = ws_end(s, (#[trigger] spans[i]).1);
                    c < s.len() && s[c] == ',' && spans[i + 1].0 == ws_end(s, c + 1)
                }) by {
                if i < prev_spans.len() - 1 {
                    assert(spans[i] == prev_spans[i]);
                    assert(spans[i + 1] == prev_spans[i + 1]);
                } else {
                    assert(spans[i] == prev_spans.last());
                    assert(spans[i + 1] == sp);
                }
            }
        }
        if state.try_char_ws(')') {
            proof {
                assert(spans_chain(spans, s, open_off as int, state.cursor() - 1));
                match name_list_close(s, open_off as int + 1, true) {
                    Option::Some(cl) => {
                        assert(name_list_close(s, seg_from, first_g) == Some(cl));
                        assert(cl == state.cursor() - 1);
                    },
                    Option::None => {},
                }
            }
            return Ok((elems, Ghost(spans)));
        }
        if !state.try_char_ws(',') {
            proof {
                match name_list_close(s, open_off as int + 1, true) {
                    Option::Some(cl) => {
                        assert(name_list_close(s, seg_from, first_g) == Some(cl));
                        assert(false);
                    },
                    Option::None => {},
                }
            }
            return Err(ParseError::UnterminatedGroup { offset: open_off });
        }
        proof {
            match name_list_close(s, open_off as int + 1, true) {
                Option::Some(cl) => {
                    assert(name_list_close(s, seg_from, first_g) == Some(cl));
                    assert(name_list_close(s, state.cursor(), false) == Some(cl));
                },
                Option::None => {},
            }
        }
    }
}

/// Whether one of the fields already carries this name.
fn contains_field(fields: &Vec<RecordField>, name: &String) -> (r: bool)
    ensures
        r == exists|i: int| 0 <= i < fields@.len() && (#[trigger] fields@[i]).name.spec_name()
            == name@,
{
    let mut k: usize = 0;
    while k < fields.len()
        invariant
            0 <= k <= fields@.len(),
            forall|i: int| 0 <= i < k ==> (#[trigger] fields@[i]).name.spec_name() != name@,
        decreases fields@.len() - k,
    {
        if fields[k].name.name == *name {
            return true;
        }
        k = k + 1;
    }
    false
}

/// Commit-parse the inside of a record annotation, the opener `{` at
/// `open_off` already consumed: zero or more comma-separated
/// `name :: annotation` entries up to the matching `}`. A field name seen
/// twice is a duplicate-field error anchored at its second occurrence.
fn parse_record_fields(state: &mut LexerState, open_off: usize) -> (r: PyretResult<
    (Vec<RecordField>, Ghost<Seq<(int, int)>>),
>)
    requires
        old(state).wf(),
        open_off < old(state).text().len(),
        old(state).text()[open_off as int] == '{',
        old(state).cursor() == open_off + 1,
    ensures
        r matches Err(e) ==> error_anchored(e, old(state).text()),
        final(state).wf(),
        final(state).text() == old(state).text(),
        old(state).cursor() <= final(state).cursor(),
        r matches Ok(pr) ==> ({
            let s = old(state).text();
            let fields = pr.0@;
            let spans = pr.1@;
            &&& old(state).cursor() < final(state).cursor()
            &&& final(state).cursor() - 1 < s.len()
            &&& s[final(state).cursor() - 1] == '}'
            &&& record_fields_unique(fields)
            &&& spans.len() == fields.len()
            &&& (if fields.len() == 0 {
                final(state).cursor() - 1 == ws_end(s, open_off as int + 1)
            } else {
                &&& fields[0].name.spec_start() == ws_end(s, open_off as int + 1)
                &&& (forall|i: int|
                    0 <= i < fields.len() ==> ({
                        let m = ws_end(s, (#[trigger] fields[i]).name.spec_end());
                        &&& ident_wf(fields[i].name, s)
                        &&& two_at(s, m, ':', ':')
                        &&& spans[i].0 == ws_end(s, m + 2)
                    }))
                &&& (forall|i: int|
                    0 <= i < fields.len() - 1 ==> ({
                        let c = ws_end(s, (#[trigger] spans[i]).1);
                        c < s.len() && s[c] == ',' && fields[i + 1].name.spec_start() == ws_end(
                            s,
                            c + 1,
                        )
                    }))
                &&& final(state).cursor() - 1 == ws_end(s, spans.last().1)
            })
            &&& forall|i: int|
                0 <= i < fields.len() ==> ann_result_wf(
                    (#[trigger] fields[i]).annotation,
                    s,
                    spans[i].0,
                    spans[i].1,
                )
        }),
        ({
            let s = old(state).text();
            let c = ws_end(s, old(state).cursor());
            (c < s.len() && s[c] == '}') ==> (r matches Ok(pr) && pr.0@.len() == 0
                && final(state).cursor() == c + 1)
        }),
    decreases old(state).text().len() - old(state).cursor(), 1int,
{
    let ghost s = state.text();
    if state.try_char_ws('}') {
        return Ok((Vec::new(), Ghost(Seq::empty())));
    }
    let mut fields: Vec<RecordField> = Vec::new();
    let ghost mut spans: Seq<(int, int)> = Seq::empty();
    loop
        invariant
            state.wf(),
            state.text() == s,
            s == old(state).text(),
            open_off < s.len() && s[open_off as int] == '{',
            old(state).cursor() == open_off + 1,
            old(state).cursor() <= state.cursor() <= s.len(),
            ({
                let c = ws_end(s, old(state).cursor());
                !(c < s.len() && s[c] == '}')
            }),
            record_fields_unique(fields@),
            spans.len() == fields@.len(),
            forall|i: int|
                0 <= i < fields@.len() ==> ident_wf((#[trigger] fields@[i]).name, s)
                    && fields@[i].annotation.shape_wf(),
            forall|i: int|
                0 <= i < fields@.len() ==> ann_result_wf(
                    (#[trigger] fields@[i]).annotation,
                    s,
                    spans[i].0,
                    spans[i].1,
                ),
            fields@.len() == 0 ==> state.cursor() == open_off + 1,
            fields@.len() > 0 ==> fields@[0].name.spec_start() == ws_end(
                s,
                open_off as int + 1,
            ),
            forall|i: int|
                0 <= i < fields@.len() ==> ({
                    let m = ws_end(s, (#[trigger] fields@[i]).name.spec_end());
                    two_at(s, m, ':', ':') && spans[i].0 == ws_end(s, m + 2)
                }),
            forall|i: int|
                0 <= i < spans.len() - 1 ==> ({
                    let c = ws_end(s, (#[trigger] spans[i]).1);
                    c < s.len() && s[c] == ',' && fields@[i + 1].name.spec_start() == ws_end(
                        s,
                        c + 1,
                    )
                }),
            fields@.len() > 0 ==> ({
                let c = ws_end(s, spans.last().1);
                c < s.len() && s[c] == ',' && state.cursor() == c + 1
            }),
        decreases s.len() - state.cursor(),
    {
        let ghost seg_from = state.cursor();
        state.skip_whitespace();
        let name = match IdentifierExpression::scan(state) {
            None => {
                return Err(
                    ParseError::ExpectedConstruct {
                        offset: state.offset(),
                        expected: "field name",
                    },
                );
            },
            Some(id) => id,
        };
        if contains_field(&fields, &name.name) {
            let offset = name.start();
            return Err(ParseError::DuplicateField { offset, name: name.name });
        }
        if !state.try_two_ws(':', ':') {
            state.skip_whitespace();
            return Err(
                ParseError::ExpectedConstruct { offset: state.offset(), expected: "::" },
            );
        }
        let ghost m_g = state.cursor() - 2;
        let ann = match parse_annotation(state) {
            Ok(p) => p,
            Err(e) => {
                return Err(e);
            },
        };
        let ghost prev = fields@;
        let ghost prev_spans = spans;
        let ghost sp = (ann.1.0 as int, ann.1.1 as int);
        let field = RecordField { name, annotation: ann.0 };
        fields.push(field);
        proof {
            spans = spans.push(sp);
            assert(field.name.spec_start() == ws_end(s, seg_from));
            assert(m_g == ws_end(s, field.name.spec_end()));
            assert(sp.0 == ws_end(s, m_g + 2));
            assert forall|i: int|
                0 <= i < fields@.len() implies ident_wf((#[trigger] fields@[i]).name, s)
                && fields@[i].annotation.shape_wf() by {
                if i < prev.len() {
                    assert(fields@[i] == prev[i]);
                } else {
                    assert(fields@[i] == field);
                }
            }
            assert forall|i: int|
                0 <= i < fields@.len() implies ann_result_wf(
                (#[trigger] fields@[i]).annotation,
                s,
                spans[i].0,
                spans[i].1,
            ) by {
                if i < prev.len() {
                    assert(fields@[i] == prev[i]);
                    assert(spans[i] == prev_spans[i]);
                } else {
                    assert(fields@[i] == field);
                    assert(spans[i] == sp);
                }
            }
            assert forall|i: int|
                0 <= i < fields@.len() implies ({
                    let m = ws_end(s, (#[trigger] fields@[i]).name.spec_end());
                    two_at(s, m, ':', ':') && spans[i].0 == ws_end(s, m + 2)
                }) by {
                if i < prev.len() {
                    assert(fields@[i] == prev[i]);
                    assert(spans[i] == prev_spans[i]);
                } else {
                    assert(fields@[i] == field);
                    assert(spans[i] == sp);
                }
            }
            assert forall|i: int|
                0 <= i < spans.len() - 1 implies ({
                    let c = ws_end(s, (#[trigger] spans[i]).1);
                    c < s.len() && s[c] == ',' && fields@[i + 1].name.spec_start() == ws_end(
                        s,
                        c + 1,
                    )
                }) by {
                if i < prev_spans.len() - 1 {
                    assert(spans[i] == prev_spans[i]);
                    assert(fields@[i + 1] == prev[i + 1]);
                } else {
                    assert(spans[i] == prev_spans.last());
                    assert(fields@[i + 1] == field);
                }
            }
            assert forall|i: int, j: int|
                0 <= i < j < fields@.len() implies (#[trigger] fields@[i].name.spec_name()) != (
                #[trigger] fields@[j].name.spec_name()) by {
                if j < prev.len() {
                    assert(fields@[i] == prev[i]);
                    assert(fields@[j] == prev[j]);
                } else {
                    assert(fields@[j] == field);
                    assert(fields@[i] == prev[i]);
                }
            }
        }
        if state.try_char_ws('}') {
            return Ok((fields, Ghost(spans)));
        }
        if !state.try_char_ws(',') {
            return Err(ParseError::UnterminatedGroup { offset: open_off });
        }
    }
}

/// Parse one annotation. The cursor may stand on leading whitespace; the
/// returned span starts at the first non-whitespace character and ends
/// exactly at the cursor offset after parsing, which never exceeds the input
/// length. When no alternative of the grammar can begin at that character,
/// the result is an expected-construct error anchored there.
#[verifier::rlimit(60)]
pub fn parse_annotation(state: &mut LexerState) -> (r: PyretResult<
    (AnnotationType, (usize, usize)),
>)
    requires
        old(state).wf(),
    ensures
        final(state).wf(),
        final(state).text() == old(state).text(),
        old(state).cursor() <= final(state).cursor(),
        r matches Ok(p) ==> ({
            let s = old(state).text();
            &&& old(state).cursor() <= p.1.0 as int
            &&& p.1.0 as int == ws_end(s, old(state).cursor())
            &&& p.1.0 < p.1.1
            &&& p.1.1 as int == final(state).cursor()
            &&& final(state).cursor() <= s.len()
            &&& ann_result_wf(p.0, s, p.1.0 as int, p.1.1 as int)
        }),
        ({
            let s = old(state).text();
            let j = ws_end(s, old(state).cursor());
            let c2 = ws_end(s, j + 1);
            (j < s.len() && s[j] == '(' && c2 < s.len() && s[c2] == ')' && !two_at(
                s,
                ws_end(s, c2 + 1),
                '-',
                '>',
            )) ==> (r matches Err(e) && e matches ParseError::MalformedTuple {
                offset,
            } && offset as int == j)
        }),
        ({
            let s = old(state).text();
            let j = ws_end(s, old(state).cursor());
            let c2 = ws_end(s, j + 1);
            (j < s.len() && s[j] == '{' && c2 < s.len() && s[c2] == '}') ==> (r matches Ok(p)
                && p.0 matches AnnotationType::RecordAnnotation(fields) && fields@.len() == 0
                && p.1.1 as int == c2 + 1)
        }),
        r matches Err(e) ==> error_anchored(e, old(state).text()),
        ({
            let s = old(state).text();
            let j = ws_end(s, old(state).cursor());
            let e = dotted_end(s, j);
            let k = ws_end(s, e);
            (j < s.len() && is_id_start(s[j]) && (e == s.len() || s[e] != '.') && (k == s.len()
                || (s[k] != '<' && s[k] != '%'))) ==> (r matches Ok(p) && p.0 matches
                AnnotationType::NameAnnotation { value, parameters, predicate }
                && parameters@.len() == 0 && predicate is None && p.1.1 as int == e)
        }),
        ({
            let s = old(state).text();
            let j = ws_end(s, old(state).cursor());
            let e = dotted_end(s, j);
            let k = ws_end(s, e);
            (j < s.len() && is_id_start(s[j]) && (e == s.len() || s[e] != '.') && k < s.len()
                && s[k] == '<') ==> (ident_list_close(s, k + 1, true) matches Some(close)
                ==> ({
                let k2 = ws_end(s, close + 1);
                (k2 == s.len() || s[k2] != '%') ==> (r matches Ok(p) && p.0 matches
                    AnnotationType::NameAnnotation { .. } && p.1.1 as int == close + 1)
            }))
        }),
        ({
            let s = old(state).text();
            let j = ws_end(s, old(state).cursor());
            (j < s.len() && s[j] == '(') ==> (name_list_close(s, j + 1, true) matches Some(close)
                ==> ({
                let k2 = ws_end(s, j + 1);
                let a2 = ws_end(s, close + 1);
                (!(k2 < s.len() && s[k2] == ')') && !two_at(s, a2, '-', '>')) ==> (r matches
                    Ok(p) && p.0 matches AnnotationType::TupleAnnotation(..) && p.1.1 as int
                    == close + 1)
            }))
        }),
        ({
            let s = old(state).text();
            let j = ws_end(s, old(state).cursor());
            (j < s.len() && s[j] == '(') ==> (name_list_close(s, j + 1, true) matches
                Some(aclose) ==> ({
                let ap = ws_end(s, aclose + 1);
                let j2 = ws_end(s, ap + 2);
                let e2 = dotted_end(s, j2);
                let k2 = ws_end(s, e2);
                (two_at(s, ap, '-', '>') && j2 < s.len() && is_id_start(s[j2]) && (e2 == s.len()
                    || s[e2] != '.') && (k2 == s.len() || (s[k2] != '<' && s[k2] != '%'))) ==> (
                r matches Ok(p) && p.0 matches AnnotationType::ArrowAnnotation {
                    generics: None,
                    ..
                } && p.1.1 as int == e2)
            }))
        }),
        ({
            let s = old(state).text();
            let j = ws_end(s, old(state).cursor());
            (j < s.len() && s[j] == '<') ==> (ident_list_close(s, j + 1, true) matches
                Some(gclose) ==> ({
                let pp = ws_end(s, gclose + 1);
                (pp < s.len() && s[pp] == '(') ==> (name_list_close(s, pp + 1, true) matches
                    Some(aclose) ==> ({
                    let ap = ws_end(s, aclose + 1);
                    let j2 = ws_end(s, ap + 2);
                    let e2 = dotted_end(s, j2);
                    let k2 = ws_end(s, e2);
                    (two_at(s, ap, '-', '>') && j2 < s.len() && is_id_start(s[j2]) && (e2
                        == s.len() || s[e2] != '.') && (k2 == s.len() || (s[k2] != '<' && s[k2]
                        != '%'))) ==> (r matches Ok(p)
                        && p.0 matches AnnotationType::ArrowAnnotation {
                        generics: Some(_),
                        ..
                    } && p.1.1 as int == e2)
                }))
            }))
        }),
        ({
            let s = old(state).text();
            let j = ws_end(s, old(state).cursor());
            (j == s.len() || !(is_id_start(s[j]) || s[j] == '<' || s[j] == '(' || s[j] == '{'))
                ==> (r matches Err(e) && e matches ParseError::ExpectedConstruct {
                offset,
                ..
            } && offset as int == j)
        }),
    decreases old(state).text().len() - old(state).cursor(), 0int,
{
    let ghost s = state.text();
    state.skip_whitespace();
    let start = state.offset();
    let dotted = match parse_dotted(state) {
        Ok(d) => d,
        Err(e) => {
            return Err(e);
        },
    };
    match dotted {
        Some(value) => {
            let ghost path_end = state.cursor();
            let mut end = state.offset();
            let mut parameters: Vec<IdentifierExpression> = Vec::new();
            let ghost mut had_params: bool = false;
            let ghost mut close_g: int = 0;
            if state.try_char_ws('<') {
                let open_off = state.offset() - 1;
                parameters = match parse_ident_list(state, open_off) {
                    Ok(v) => v,
                    Err(e) => {
                        return Err(e);
                    },
                };
                end = state.offset();
                proof {
                    had_params = true;
                    close_g = state.cursor() - 1;
                }
            }
            let ghost pred_from = state.cursor();
            let mut predicate: Option<IdentifierExpression> = None;
            if state.try_char_ws('%') {
                state.skip_whitespace();
                match IdentifierExpression::scan(state) {
                    None => {
                        return Err(
                            ParseError::ExpectedConstruct {
                                offset: state.offset(),
                                expected: "predicate identifier",
                            },
                        );
                    },
                    Some(pid) => {
                        end = state.offset();
                        predicate = Some(pid);
                    },
                }
            }
            proof {
                assert(predicate_layout(predicate, s, pred_from, end as int));
                let k = ws_end(s, path_end);
                if had_params {
                    assert(ident_list_at(parameters@, s, k, close_g));
                    assert(pred_from == close_g + 1);
                } else {
                    assert(pred_from == path_end);
                    assert(!(k < s.len() && s[k] == '<'));
                }
                assert(name_layout(value, parameters@, predicate, s, start as int, end as int));
            }
            let node = AnnotationType::NameAnnotation { value, parameters, predicate };
            proof {
                assert(ann_result_wf(node, s, start as int, end as int));
            }
            Ok((node, (start, end)))
        },
        None => {
            if state.try_char('<') {
                let open_off = state.offset() - 1;
                let generics = match parse_ident_list(state, open_off) {
                    Ok(v) => v,
                    Err(e) => {
                        return Err(e);
                    },
                };
                let ghost gens = generics@;
                let ghost gen_close = state.cursor() - 1;
                proof {
                    assert(ident_list_at(gens, s, start as int, gen_close));
                }
                if !state.try_char_ws('(') {
                    state.skip_whitespace();
                    return Err(
                        ParseError::ExpectedConstruct {
                            offset: state.offset(),
                            expected: "argument list",
                        },
                    );
                }
                let paren_off = state.offset() - 1;
                let pr = match parse_ann_list(state, paren_off) {
                    Ok(v) => v,
                    Err(e) => {
                        return Err(e);
                    },
                };
                let arguments = pr.0;
                let ghost arg_spans = pr.1@;
                let ghost aclose = state.cursor() - 1;
                if !state.try_two_ws('-', '>') {
                    state.skip_whitespace();
                    return Err(
                        ParseError::ExpectedConstruct {
                            offset: state.offset(),
                            expected: "arrow",
                        },
                    );
                }
                let ret = match parse_annotation(state) {
                    Ok(p) => p.0,
                    Err(e) => {
                        return Err(e);
                    },
                };
                let end = state.offset();
                let ghost args_v = arguments@;
                let node = AnnotationType::ArrowAnnotation {
                    generics: Some(generics),
                    arguments,
                    return_annotation: Box::new(ret),
                };
                proof {
                    assert(ident_list_at(gens, s, start as int, gen_close));
                    assert(exists|close: int|
                        #[trigger] ident_list_at(gens, s, start as int, close));
                    assert(node.shape_wf());
                    assert(s[start as int] == '<');
                    assert(node matches AnnotationType::ArrowAnnotation { generics: Some(gv), .. }
                        ==> gv@ == gens);
                    assert(spans_chain(arg_spans, s, paren_off as int, aclose));
                    assert(forall|i: int|
                        0 <= i < args_v.len() ==> ann_result_wf(
                            #[trigger] args_v[i],
                            s,
                            arg_spans[i].0,
                            arg_spans[i].1,
                        ));
                    assert(ann_result_wf(ret, s, ws_end(s, ws_end(s, aclose + 1) + 2), end as int));
                    assert(ann_result_wf(node, s, start as int, end as int));
                }
                Ok((node, (start, end)))
            } else if state.try_char('(') {
                let open_off = state.offset() - 1;
                let pr = match parse_ann_list(state, open_off) {
                    Ok(v) => v,
                    Err(e) => {
                        return Err(e);
                    },
                };
                let elems = pr.0;
                let ghost arg_spans = pr.1@;
                let ghost aclose = state.cursor() - 1;
                let ghost elems_v = elems@;
                if state.try_two_ws('-', '>') {
                    let ret = match parse_annotation(state) {
                        Ok(p) => p.0,
                        Err(e) => {
                            return Err(e);
                        },
                    };
                    let end = state.offset();
                    let node = AnnotationType::ArrowAnnotation {
                        generics: None,
                        arguments: elems,
                        return_annotation: Box::new(ret),
                    };
                    proof {
                        assert(spans_chain(arg_spans, s, open_off as int, aclose));
                        assert(forall|i: int|
                            0 <= i < elems_v.len() ==> ann_result_wf(
                                #[trigger] elems_v[i],
                                s,
                                arg_spans[i].0,
                                arg_spans[i].1,
                            ));
                        assert(ann_result_wf(
                            ret,
                            s,
                            ws_end(s, ws_end(s, aclose + 1) + 2),
                            end as int,
                        ));
                        assert(ann_result_wf(node, s, start as int, end as int));
                    }
                    Ok((node, (start, end)))
                } else {
                    if elems.len() == 0 {
                        return Err(ParseError::MalformedTuple { offset: open_off });
                    }
                    let end = state.offset();
                    let node = AnnotationType::TupleAnnotation(elems);
                    proof {
                        assert(spans_chain(arg_spans, s, start as int, end as int - 1));
                        assert(forall|i: int|
                            0 <= i < elems_v.len() ==> ann_result_wf(
                                #[trigger] elems_v[i],
                                s,
                                arg_spans[i].0,
                                arg_spans[i].1,
                            ));
                        assert(ann_result_wf(node, s, start as int, end as int));
                    }
                    Ok((node, (start, end)))
                }
            } else if state.try_char('{') {
                let open_off = state.offset() - 1;
                let pr = match parse_record_fields(state, open_off) {
                    Ok(v) => v,
                    Err(e) => {
                        return Err(e);
                    },
                };
                let fields = pr.0;
                let end = state.offset();
                let node = AnnotationType::RecordAnnotation(fields);
                proof {
                    assert(node.shape_wf());
                    assert(ann_result_wf(node, s, start as int, end as int));
                }
                Ok((node, (start, end)))
            } else {
                Err(ParseError::ExpectedConstruct { offset: start, expected: "annotation" })
            }
        },
    }
}

impl TypeAnnotation {
    /// Commit-parse the annotation value after the marker; `start` is the
    /// offset the marker began at.
    fn parse_ascription(state: &mut LexerState, start: usize) -> (r: PyretResult<TypeAnnotation>)
        requires
            old(state).wf(),
            start as int <= old(state).cursor(),
        ensures
            final(state).wf(),
            final(state).text() == old(state).text(),
            old(state).cursor() <= final(state).cursor(),
            r matches Ok(t) ==> ({
                &&& t.spec_start() == start as int
                &&& t.spec_end() == final(state).cursor()
                &&& (start as int) < final(state).cursor() <= old(state).text().len()
                &&& ann_result_wf(
                    t.value,
                    old(state).text(),
                    ws_end(old(state).text(), old(state).cursor()),
                    t.spec_end(),
                )
            }),
            r matches Err(e) ==> error_anchored(e, old(state).text()),
            ({
                let s = old(state).text();
                let j = ws_end(s, old(state).cursor());
                let e = dotted_end(s, j);
                let k = ws_end(s, e);
                (j < s.len() && is_id_start(s[j]) && (e == s.len() || s[e] != '.') && (k
                    == s.len() || (s[k] != '<' && s[k] != '%'))) ==> (r matches Ok(t)
                    && t.value matches AnnotationType::NameAnnotation {
                    value,
                    parameters,
                    predicate,
                } && parameters@.len() == 0 && predicate is None && t.spec_end() == e)
            }),
            ({
                let s = old(state).text();
                let j = ws_end(s, old(state).cursor());
                let e = dotted_end(s, j);
                let k = ws_end(s, e);
                (j < s.len() && is_id_start(s[j]) && (e == s.len() || s[e] != '.') && k
                    < s.len() && s[k] == '<') ==> (ident_list_close(s, k + 1, true) matches
                    Some(close) ==> ({
                    let k2 = ws_end(s, close + 1);
                    (k2 == s.len() || s[k2] != '%') ==> (r matches Ok(t)
                        && t.value matches AnnotationType::NameAnnotation { .. }
                        && t.spec_end() == close + 1)
                }))
            }),
            ({
                let s = old(state).text();
                let j = ws_end(s, old(state).cursor());
                (j < s.len() && s[j] == '(') ==> (name_list_close(s, j + 1, true) matches
                    Some(close) ==> ({
                    let k2 = ws_end(s, j + 1);
                    let a2 = ws_end(s, close + 1);
                    (!(k2 < s.len() && s[k2] == ')') && !two_at(s, a2, '-', '>')) ==> (r matches
                        Ok(t) && t.value matches AnnotationType::TupleAnnotation(..)
                        && t.spec_end() == close + 1)
                }))
            }),
            ({
                let s = old(state).text();
                let j = ws_end(s, old(state).cursor());
                (j < s.len() && s[j] == '(') ==> (name_list_close(s, j + 1, true) matches
                    Some(aclose) ==> ({
                    let ap = ws_end(s, aclose + 1);
                    let j2 = ws_end(s, ap + 2);
                    let e2 = dotted_end(s, j2);
                    let k2 = ws_end(s, e2);
                    (two_at(s, ap, '-', '>') && j2 < s.len() && is_id_start(s[j2]) && (e2
                        == s.len() || s[e2] != '.') && (k2 == s.len() || (s[k2] != '<' && s[k2]
                        != '%'))) ==> (r matches Ok(t)
                        && t.value matches AnnotationType::ArrowAnnotation {
                        generics: None,
                        ..
                    } && t.spec_end() == e2)
                }))
            }),
            ({
                let s = old(state).text();
                let j = ws_end(s, old(state).cursor());
                (j < s.len() && s[j] == '<') ==> (ident_list_close(s, j + 1, true) matches
                    Some(gclose) ==> ({
                    let pp = ws_end(s, gclose + 1);
                    (pp < s.len() && s[pp] == '(') ==> (name_list_close(s, pp + 1, true) matches
                        Some(aclose) ==> ({
                        let ap = ws_end(s, aclose + 1);
                        let j2 = ws_end(s, ap + 2);
                        let e2 = dotted_end(s, j2);
                        let k2 = ws_end(s, e2);
                        (two_at(s, ap, '-', '>') && j2 < s.len() && is_id_start(s[j2]) && (e2
                            == s.len() || s[e2] != '.') && (k2 == s.len() || (s[k2] != '<'
                            && s[k2] != '%'))) ==> (r matches Ok(t)
                            && t.value matches AnnotationType::ArrowAnnotation {
                            generics: Some(_),
                            ..
                        } && t.spec_end() == e2)
                    }))
                }))
            }),
    {
        let p = match parse_annotation(state) {
            Ok(p) => p,
            Err(e) => {
                return Err(e);
            },
        };
        let end = state.offset();
        Ok(TypeAnnotation { span: (start, end), value: p.0 })
    }
}

impl Token for TypeAnnotation {
    open spec fn spec_start(&self) -> int {
        self.span.0 as int
    }

    open spec fn spec_end(&self) -> int {
        self.span.1 as int
    }

    open spec fn spec_leaf_name(&self) -> Seq<char> {
        match self.value {
            AnnotationType::NameAnnotation { .. } => "name-annotation"@,
            AnnotationType::ArrowAnnotation { .. } => "arrow-annotation"@,
            AnnotationType::TupleAnnotation(..) => "tuple-annotation"@,
            AnnotationType::RecordAnnotation(..) => "record-annotation"@,
        }
    }

    fn node_name() -> (r: &'static str) {
        "type-annotation"
    }

    fn leaf_name(&self) -> (r: &'static str) {
        match self.value {
            AnnotationType::NameAnnotation { .. } => "name-annotation",
            AnnotationType::ArrowAnnotation { .. } => "arrow-annotation",
            AnnotationType::TupleAnnotation(..) => "tuple-annotation",
            AnnotationType::RecordAnnotation(..) => "record-annotation",
        }
    }

    fn start(&self) -> (r: usize) {
        self.span.0
    }

    fn end(&self) -> (r: usize) {
        self.span.1
    }
}

impl TokenLexer for TypeAnnotation {
    /// Tentative match of a whole `:: annotation` ascription: absent exactly
    /// when no `::` marker stands at the cursor (after whitespace), an error
    /// only once the marker matched but the annotation after it is malformed.
    /// On success the node spans from the marker to the cursor and its value
    /// is tied to the source text by `ann_result_wf`.
    fn lex(state: &mut LexerState) -> (r: PyretResult<Option<Self>>)
        ensures
            ({
                let s = old(state).text();
                let j = ws_end(s, old(state).cursor());
                &&& ((r matches Ok(None)) <==> !two_at(s, j, ':', ':'))
                &&& (r matches Ok(Some(t)) ==> ({
                    &&& two_at(s, j, ':', ':')
                    &&& t.spec_start() == j
                    &&& t.spec_end() == final(state).cursor() <= s.len()
                    &&& ann_result_wf(t.value, s, ws_end(s, j + 2), t.spec_end())
                }))
                &&& (r matches Err(e) ==> error_anchored(e, s) && two_at(s, j, ':', ':'))
                &&& ({
                    let j2 = ws_end(s, j + 2);
                    let e2 = dotted_end(s, j2);
                    let k2 = ws_end(s, e2);
                    (two_at(s, j, ':', ':') && j2 < s.len() && is_id_start(s[j2]) && (e2
                        == s.len() || s[e2] != '.') && (k2 == s.len() || (s[k2] != '<'
                        && s[k2] != '%'))) ==> (r matches Ok(Some(t))
                        && t.value matches AnnotationType::NameAnnotation {
                        value,
                        parameters,
                        predicate,
                    } && parameters@.len() == 0 && predicate is None && t.spec_end() == e2)
                })
                &&& ({
                    let j2 = ws_end(s, j + 2);
                    let e2 = dotted_end(s, j2);
                    let k2 = ws_end(s, e2);
                    (two_at(s, j, ':', ':') && j2 < s.len() && is_id_start(s[j2]) && (e2
                        == s.len() || s[e2] != '.') && k2 < s.len() && s[k2] == '<') ==> (
                    ident_list_close(s, k2 + 1, true) matches Some(close) ==> ({
                        let k3 = ws_end(s, close + 1);
                        (k3 == s.len() || s[k3] != '%') ==> (r matches Ok(Some(t))
                            && t.value matches AnnotationType::NameAnnotation { .. }
                            && t.spec_end() == close + 1)
                    }))
                })
            }),
    {
        if !state.try_two_ws(':', ':') {
            return Ok(None);
        }
        let start = state.offset() - 2;
        match Self::parse_ascription(state, start) {
            Ok(t) => Ok(Some(t)),
            Err(e) => Err(e),
        }
    }
}

impl TokenParser for TypeAnnotation {
    /// Commit-parse a whole `:: annotation` ascription at the cursor. When no
    /// `::` marker stands at the cursor (after whitespace) the result is an
    /// expected-construct error right there; on success the node spans from
    /// the marker to the cursor and its value is tied to the source text by
    /// `ann_result_wf`, and on a bare dotted name after the marker success is
    /// owed.
    fn parse(state: &mut LexerState) -> (r: PyretResult<Self>)
        ensures
            ({
                let s = old(state).text();
                let j = ws_end(s, old(state).cursor());
                &&& (r matches Ok(t) ==> ({
                    &&& two_at(s, j, ':', ':')
                    &&& t.spec_start() == j
                    &&& t.spec_end() == final(state).cursor() <= s.len()
                    &&& ann_result_wf(t.value, s, ws_end(s, j + 2), t.spec_end())
                }))
                &&& (!two_at(s, j, ':', ':') ==> (r matches Err(e)
                    && e matches ParseError::ExpectedConstruct { offset, .. } && offset as int
                    == j))
                &&& (r matches Err(e) ==> error_anchored(e, s))
                &&& ({
                    let j2 = ws_end(s, j + 2);
                    let e2 = dotted_end(s, j2);
                    let k2 = ws_end(s, e2);
                    (two_at(s, j, ':', ':') && j2 < s.len() && is_id_start(s[j2]) && (e2
                        == s.len() || s[e2] != '.') && (k2 == s.len() || (s[k2] != '<'
                        && s[k2] != '%'))) ==> (r matches Ok(t)
                        && t.value matches AnnotationType::NameAnnotation {
                        value,
                        parameters,
                        predicate,
                    } && parameters@.len() == 0 && predicate is None && t.spec_end() == e2)
                })
                &&& ({
                    let j2 = ws_end(s, j + 2);
                    let e2 = dotted_end(s, j2);
                    let k2 = ws_end(s, e2);
                    (two_at(s, j, ':', ':') && j2 < s.len() && is_id_start(s[j2]) && (e2
                        == s.len() || s[e2] != '.') && k2 < s.len() && s[k2] == '<') ==> (
                    ident_list_close(s, k2 + 1, true) matches Some(close) ==> ({
                        let k3 = ws_end(s, close + 1);
                        (k3 == s.len() || s[k3] != '%') ==> (r matches Ok(t)
                            && t.value matches AnnotationType::NameAnnotation { .. }
                            && t.spec_end() == close + 1)
                    }))
                })
                &&& ({
                    let jj = ws_end(s, j + 2);
                    (two_at(s, j, ':', ':') && jj < s.len() && s[jj] == '(') ==> (
                    name_list_close(s, jj + 1, true) matches Some(close) ==> ({
                        let k2 = ws_end(s, jj + 1);
                        let a2 = ws_end(s, close + 1);
                        (!(k2 < s.len() && s[k2] == ')') && !two_at(s, a2, '-', '>')) ==> (
                        r matches Ok(t) && t.value matches AnnotationType::TupleAnnotation(..)
                            && t.spec_end() == close + 1)
                    }))
                })
                &&& ({
                    let jj = ws_end(s, j + 2);
                    (two_at(s, j, ':', ':') && jj < s.len() && s[jj] == '(') ==> (
                    name_list_close(s, jj + 1, true) matches Some(aclose) ==> ({
                        let ap = ws_end(s, aclose + 1);
                        let j2 = ws_end(s, ap + 2);
                        let e2 = dotted_end(s, j2);
                        let k2 = ws_end(s, e2);
                        (two_at(s, ap, '-', '>') && j2 < s.len() && is_id_start(s[j2]) && (e2
                            == s.len() || s[e2] != '.') && (k2 == s.len() || (s[k2] != '<'
                            && s[k2] != '%'))) ==> (r matches Ok(t)
                            && t.value matches AnnotationType::ArrowAnnotation {
                            generics: None,
                            ..
                        } && t.spec_end() == e2)
                    }))
                })
                &&& ({
                    let jj = ws_end(s, j + 2);
                    (two_at(s, j, ':', ':') && jj < s.len() && s[jj] == '<') ==> (
                    ident_list_close(s, jj + 1, true) matches Some(gclose) ==> ({
                        let pp = ws_end(s, gclose + 1);
                        (pp < s.len() && s[pp] == '(') ==> (name_list_close(s, pp + 1, true)
                            matches Some(aclose) ==> ({
                            let ap = ws_end(s, aclose + 1);
                            let j2 = ws_end(s, ap + 2);
                            let e2 = dotted_end(s, j2);
                            let k2 = ws_end(s, e2);
                            (two_at(s, ap, '-', '>') && j2 < s.len() && is_id_start(s[j2])
                                && (e2 == s.len() || s[e2] != '.') && (k2 == s.len() || (s[k2]
                                != '<' && s[k2] != '%'))) ==> (r matches Ok(t)
                                && t.value matches AnnotationType::ArrowAnnotation {
                                generics: Some(_),
                                ..
                            } && t.spec_end() == e2)
                        }))
                    }))
                })
            }),
    {
        if !state.try_two_ws(':', ':') {
            state.skip_whitespace();
            return Err(
                ParseError::ExpectedConstruct { offset: state.offset(), expected: "::" },
            );
        }
        let start = state.offset() - 2;
        Self::parse_ascription(state, start)
    }
}

} // verus!
