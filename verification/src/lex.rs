//! Character classes of the annotation grammar, and the two scan functions
//! that every lexing contract is stated over: `ws_end` (where a whitespace run
//! ends) and `ident_end` (where an identifier run ends).

use vstd::prelude::*;

verus! {

/// Whitespace that may separate tokens of the grammar.
pub open spec fn is_space(c: char) -> bool {
    c == ' ' || c == '\t' || c == '\n' || c == '\r'
}

/// A character that may begin an identifier: an ASCII letter or `_`.
pub open spec fn is_id_start(c: char) -> bool {
    (97 <= c as u32 && c as u32 <= 122) || (65 <= c as u32 && c as u32 <= 90) || c == '_'
}

/// A character that may continue an identifier: a start character or a digit.
pub open spec fn is_id_char(c: char) -> bool {
    is_id_start(c) || (48 <= c as u32 && c as u32 <= 57)
}

/// The offset of the first character at or after `i` that is not whitespace
/// (or the end of the text).
pub open spec fn ws_end(s: Seq<char>, i: int) -> int
    decreases s.len() - i,
{
    if i < s.len() && is_space(s[i]) {
        ws_end(s, i + 1)
    } else {
        i
    }
}

/// The offset just past the longest run of identifier characters starting
/// at `i`.
pub open spec fn ident_end(s: Seq<char>, i: int) -> int
    decreases s.len() - i,
{
    if i < s.len() && is_id_char(s[i]) {
        ident_end(s, i + 1)
    } else {
        i
    }
}

pub proof fn lemma_ws_end(s: Seq<char>, i: int)
    requires
        0 <= i <= s.len(),
    ensures
        i <= ws_end(s, i) <= s.len(),
        forall|k: int| i <= k < ws_end(s, i) ==> is_space(s[k]),
        ws_end(s, i) == s.len() || !is_space(s[ws_end(s, i)]),
    decreases s.len() - i,
{
    if i < s.len() && is_space(s[i]) {
        lemma_ws_end(s, i + 1);
    }
}

/// If every character in `[i, j)` continues an identifier and `j` sits at the
/// end of the text or on a non-identifier character, the identifier run
/// starting at `i` ends exactly at `j`.
pub proof fn lemma_ident_end_run(s: Seq<char>, i: int, j: int)
    requires
        0 <= i <= j <= s.len(),
        forall|k: int| i <= k < j ==> is_id_char(s[k]),
        j == s.len() || !is_id_char(s[j]),
    ensures
        ident_end(s, i) == j,
    decreases j - i,
{
    if i < j {
        lemma_ident_end_run(s, i + 1, j);
    }
}

pub proof fn lemma_ident_end(s: Seq<char>, i: int)
    requires
        0 <= i <= s.len(),
    ensures
        i <= ident_end(s, i) <= s.len(),
    decreases s.len() - i,
{
    if i < s.len() && is_id_char(s[i]) {
        lemma_ident_end(s, i + 1);
    }
}

/// Where the dotted path beginning at `i` ends: past the maximal identifier,
/// and past every `.` that is immediately followed by another identifier.
pub open spec fn dotted_end(s: Seq<char>, i: int) -> int
    decreases s.len() - i
        when 0 <= i <= s.len()
        via dotted_end_decreases
{
    let e = ident_end(s, i);
    if e + 1 < s.len() && s[e] == '.' && is_id_start(s[e + 1]) {
        dotted_end(s, e + 1)
    } else {
        e
    }
}

#[via_fn]
proof fn dotted_end_decreases(s: Seq<char>, i: int) {
    lemma_ident_end(s, i);
}

/// Where the identifier list that begins at `i` (just past its `<`) closes:
/// the offset of the matching `>`, or nothing when the list is malformed.
/// `first` is true before any element was seen, where a bare `>` still makes
/// an empty list.
pub open spec fn ident_list_close(s: Seq<char>, i: int, first: bool) -> Option<int>
    decreases s.len() - i
        when 0 <= i <= s.len()
        via ident_list_close_decreases
{
    let j = ws_end(s, i);
    if first && j < s.len() && s[j] == '>' {
        Option::Some(j)
    } else if j < s.len() && is_id_start(s[j]) {
        let e = ident_end(s, j);
        let c = ws_end(s, e);
        if c < s.len() && s[c] == ',' {
            ident_list_close(s, c + 1, false)
        } else if c < s.len() && s[c] == '>' {
            Option::Some(c)
        } else {
            Option::None
        }
    } else {
        Option::None
    }
}

#[via_fn]
proof fn ident_list_close_decreases(s: Seq<char>, i: int, first: bool) {
    lemma_ws_end(s, i);
    let j = ws_end(s, i);
    if j < s.len() && is_id_start(s[j]) {
        assert(ident_end(s, j) == ident_end(s, j + 1));
        lemma_ident_end(s, j + 1);
        lemma_ws_end(s, ident_end(s, j));
    }
}

pub proof fn lemma_dotted_end(s: Seq<char>, i: int)
    requires
        0 <= i <= s.len(),
    ensures
        i <= dotted_end(s, i) <= s.len(),
    decreases s.len() - i,
{
    lemma_ident_end(s, i);
    let e = ident_end(s, i);
    if e + 1 < s.len() && s[e] == '.' && is_id_start(s[e + 1]) {
        lemma_dotted_end(s, e + 1);
    }
}

/// Where a comma-separated list of bare dotted names that begins at `i`
/// (just past its `(`) closes: the offset of the matching `)`, or nothing
/// when the region holds anything but such names. `first` is true before any
/// element was seen, where a bare `)` still makes an empty list.
pub open spec fn name_list_close(s: Seq<char>, i: int, first: bool) -> Option<int>
    decreases s.len() - i
        when 0 <= i <= s.len()
        via name_list_close_decreases
{
    let j = ws_end(s, i);
    if first && j < s.len() && s[j] == ')' {
        Option::Some(j)
    } else if j < s.len() && is_id_start(s[j]) {
        let e = dotted_end(s, j);
        if e < s.len() && s[e] == '.' {
            Option::None
        } else {
            let c = ws_end(s, e);
            if c < s.len() && s[c] == ',' {
                name_list_close(s, c + 1, false)
            } else if c < s.len() && s[c] == ')' {
                Option::Some(c)
            } else {
                Option::None
            }
        }
    } else {
        Option::None
    }
}

#[via_fn]
proof fn name_list_close_decreases(s: Seq<char>, i: int, first: bool) {
    lemma_ws_end(s, i);
    let j = ws_end(s, i);
    if j < s.len() && is_id_start(s[j]) {
        assert(ident_end(s, j) == ident_end(s, j + 1));
        lemma_ident_end(s, j + 1);
        lemma_dotted_end(s, j);
        assert(ident_end(s, j) <= dotted_end(s, j)) by {
            assert(dotted_end(s, j) == if ident_end(s, j) + 1 < s.len() && s[ident_end(s, j)]
                == '.' && is_id_start(s[ident_end(s, j) + 1]) {
                dotted_end(s, ident_end(s, j) + 1)
            } else {
                ident_end(s, j)
            });
            if ident_end(s, j) + 1 < s.len() && s[ident_end(s, j)] == '.' && is_id_start(
                s[ident_end(s, j) + 1],
            ) {
                lemma_dotted_end(s, ident_end(s, j) + 1);
            }
        }
        lemma_ws_end(s, dotted_end(s, j));
    }
}

pub fn space_char(c: char) -> (r: bool)
    ensures
        r == is_space(c),
{
    c == ' ' || c == '\t' || c == '\n' || c == '\r'
}

pub fn id_start_char(c: char) -> (r: bool)
    ensures
        r == is_id_start(c),
{
    let u = c as u32;
    (97 <= u && u <= 122) || (65 <= u && u <= 90) || c == '_'
}

pub fn id_char(c: char) -> (r: bool)
    ensures
        r == is_id_char(c),
{
    let u = c as u32;
    id_start_char(c) || (48 <= u && u <= 57)
}

} // verus!
