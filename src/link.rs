//! Plain text of one table cell: the visible text of an anchor, or the
//! cell markup itself when it holds no anchor.

use vstd::prelude::*;

verus! {

/// Index of the first `c` in `s` at or after `from`.
pub open spec fn first_from(s: Seq<char>, from: int, c: char) -> Option<int>
    decreases s.len() - from,
{
    if from < 0 || from >= s.len() {
        None
    } else if s[from] == c {
        Some(from)
    } else {
        first_from(s, from + 1, c)
    }
}

/// Index of the first anchor opening marker `<a` in `s` at or after `from`.
pub open spec fn first_anchor_from(s: Seq<char>, from: int) -> Option<int>
    decreases s.len() - from,
{
    if from < 0 || from + 1 >= s.len() {
        None
    } else if s[from] == '<' && s[from + 1] == 'a' {
        Some(from)
    } else {
        first_anchor_from(s, from + 1)
    }
}

/// The text of a cell: without an anchor marker the cell as it is; with one,
/// what lies strictly between the first `>` after the marker and the next `<`;
/// nothing when either of those is missing.
pub open spec fn link_text(s: Seq<char>) -> Option<Seq<char>> {
    match first_anchor_from(s, 0) {
        None => Some(s),
        Some(p) => match first_from(s, p + 2, '>') {
            None => None,
            Some(g) => match first_from(s, g + 1, '<') {
                None => None,
                Some(e) => Some(s.subrange(g + 1, e)),
            },
        },
    }
}

fn find_char_from(s: &str, from: usize, c: char) -> (r: Option<usize>)
    requires
        from <= s@.len(),
    ensures
        match r {
            None => first_from(s@, from as int, c) is None,
            Some(i) => first_from(s@, from as int, c) == Some(i as int) && from <= i < s@.len(),
        },
        s@.len() <= usize::MAX,
{
    let n = s.unicode_len();
    let mut i: usize = from;
    while i < n
        invariant
            n == s@.len(),
            from <= i <= n,
            first_from(s@, from as int, c) == first_from(s@, i as int, c),
        decreases n - i,
    {
        if s.get_char(i) == c {
            return Some(i);
        }
        i = i + 1;
    }
    None
}

fn find_anchor(s: &str) -> (r: Option<usize>)
    ensures
        match r {
            None => first_anchor_from(s@, 0) is None,
            Some(i) => first_anchor_from(s@, 0) == Some(i as int) && i + 1 < s@.len(),
        },
        s@.len() <= usize::MAX,
{
    let n = s.unicode_len();
    let mut i: usize = 0;
    while i < n
        invariant
            n == s@.len(),
            i <= n,
            first_anchor_from(s@, 0) == first_anchor_from(s@, i as int),
        decreases n - i,
    {
        if i + 1 < n && s.get_char(i) == '<' && s.get_char(i + 1) == 'a' {
            return Some(i);
        }
        i = i + 1;
    }
    None
}

/// The plain text of one cell's inner markup (see `link_text`).
pub fn extract_link_text(input: String) -> (r: Option<String>)
    ensures
        match r {
            None => link_text(input@) is None,
            Some(t) => link_text(input@) == Some(t@),
        },
{
    let s = input.as_str();
    match find_anchor(s) {
        None => Some(input),
        Some(p) => match find_char_from(s, p + 2, '>') {
            None => None,
            Some(g) => match find_char_from(s, g + 1, '<') {
                None => None,
                Some(e) => Some(String::from_str(s.substring_char(g + 1, e))),
            },
        },
    }
}

/// `s` holds the anchor opening marker `<a` somewhere.
pub open spec fn has_anchor(s: Seq<char>) -> bool {
    exists|i: int| 0 <= i && i + 1 < s.len() && s[i] == '<' && #[trigger] s[i + 1] == 'a'
}

proof fn lemma_no_anchor_from(s: Seq<char>, from: int)
    requires
        0 <= from,
        !has_anchor(s),
    ensures
        first_anchor_from(s, from) is None,
    decreases s.len() - from,
{
    if from + 1 < s.len() {
        assert(!(s[from] == '<' && s[from + 1] == 'a'));
        lemma_no_anchor_from(s, from + 1);
    }
}

/// A cell without anchor markup is its own text, so extracting the text of
/// such a cell, once or again on the result, gives the cell back unchanged.
pub proof fn lemma_plain_text_unchanged(s: Seq<char>)
    requires
        !has_anchor(s),
    ensures
        link_text(s) == Some(s),
{
    lemma_no_anchor_from(s, 0);
}

} // verus!
