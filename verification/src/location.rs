//! Recognition of diagnostic source-location lines.
//!
//! A location marker line begins, after leading whitespace, with the
//! box-drawing pair `┌─`, followed by `path:line:column`.

use vstd::prelude::*;
use crate::text::{
    find_char_from, find_from, has_prefix, is_ws_char, lemma_find_from, lemma_trim_bounds,
    lemma_ws_prefix, lemma_ws_trailing, matches_at, parse_u32_range, trim_of, trim_range,
    trim_str, u32_parse, ws_count, ws_prefix_len,
};

verus! {

/// The two-character box-drawing prefix that marks a source location.
pub open spec fn marker_seq() -> Seq<char> {
    seq!['┌', '─']
}

/// What `parse_location` finds in one line: the file (the text between the
/// marker and the first colon, trimmed), then the line and column numbers read
/// from the next two colon-separated fields. A line that does not carry all
/// three is no location marker.
pub open spec fn location_of(line: Seq<char>) -> Option<(Seq<char>, u32, u32)> {
    let c1 = find_from(line, ':', 0);
    let c2 = find_from(line, ':', c1 + 1);
    let c3 = find_from(line, ':', c2 + 1);
    if !has_prefix(trim_of(line), marker_seq()) {
        None
    } else if c2 >= line.len() {
        None
    } else {
        let file = trim_of(line.subrange(ws_prefix_len(line) + 2, c1));
        match u32_parse(line.subrange(c1 + 1, c2)) {
            Option::None => None,
            Option::Some(ln) => match u32_parse(line.subrange(c2 + 1, c3)) {
                Option::None => None,
                Option::Some(col) => Some((file, ln, col)),
            },
        }
    }
}

/// The marker prefix as an executable pattern.
pub fn marker_pat() -> (v: Vec<char>)
    ensures
        v@ == marker_seq(),
{
    let mut v: Vec<char> = Vec::new();
    v.push('┌');
    v.push('─');
    proof {
        assert(v@ =~= marker_seq());
    }
    v
}

/// Decompose one line into `(file, line, column)` when it is a location
/// marker line, and report that it is none otherwise.
pub fn parse_location(val: &str) -> (r: Option<(String, u32, u32)>)
    ensures
        match r {
            Option::Some(t) => location_of(val@) == Option::Some((t.0@, t.1, t.2)),
            Option::None => location_of(val@) is None,
        },
{
    let trimmed = trim_str(val);
    let mpat = marker_pat();
    if !matches_at(trimmed.as_str(), &mpat, 0) {
        return None;
    }
    let n: usize = val.unicode_len();
    let c1: usize = find_char_from(val, ':', 0);
    proof {
        lemma_find_from(val@, ':', 0);
    }
    if c1 == n {
        proof {
            assert(find_from(val@, ':', c1 + 1) == val@.len());
        }
        return None;
    }
    let c2: usize = find_char_from(val, ':', c1 + 1);
    proof {
        lemma_find_from(val@, ':', c1 + 1);
    }
    if c2 == n {
        return None;
    }
    let c3: usize = find_char_from(val, ':', c2 + 1);
    proof {
        lemma_find_from(val@, ':', c2 + 1);
    }
    let a: usize = ws_count(val);
    proof {
        lemma_ws_prefix(val@);
        lemma_ws_trailing(val@);
        lemma_trim_bounds(val@);
        let t = trim_of(val@);
        assert(t.len() >= marker_seq().len());
        assert(t.subrange(0, 2) == marker_seq());
        assert(t.subrange(0, 2)[0] == t[0]);
        assert(t.subrange(0, 2)[1] == t[1]);
        assert(val@[a as int] == '┌');
        assert(val@[a + 1] == '─');
        assert(a + 2 <= val@.len());
        if c1 < a + 2 {
            assert(val@[c1 as int] == ':');
            if c1 < a {
                assert(is_ws_char(val@[c1 as int]));
            }
            assert(false);
        }
    }
    let file = trim_range(val, a + 2, c1);
    let ln_field = parse_u32_range(val, c1 + 1, c2);
    let ln: u32 = match ln_field {
        Option::Some(v) => v,
        Option::None => {
            return None;
        },
    };
    let col_field = parse_u32_range(val, c2 + 1, c3);
    let col: u32 = match col_field {
        Option::Some(v) => v,
        Option::None => {
            return None;
        },
    };
    Some((file, ln, col))
}

} // verus!
