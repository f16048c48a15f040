//! Reading the structure of a filter clause back from a query text.
//!
//! What is read is what [`parse_query`] defines: the groups in their order
//! and in each group the comparisons in their order, whatever the spacing
//! between the words of the text.

use vstd::prelude::*;
use vstd::string::*;
use crate::parse::{
    after_head,
    after_token,
    is_blank,
    is_bracket,
    is_word,
    is_word_char,
    next_token,
    parse_comparison,
    parse_conjunction,
    parse_disjunction,
    parse_group,
    parse_query,
    skip_blanks,
    word_len,
};
use crate::query::Comparison;

verus! {

/// One comparison read from a query text: the field, the operator symbol,
/// and the variable, without its `$`.
#[derive(Debug, PartialEq)]
pub struct ReadComparison {
    pub field: String,
    pub symbol: String,
    pub var: String,
}

impl View for ReadComparison {
    type V = Comparison;

    open spec fn view(&self) -> Comparison {
        Comparison { field: self.field@, symbol: self.symbol@, var: self.var@ }
    }
}

/// What each comparison of a group stands for.
pub open spec fn group_view(group: Seq<ReadComparison>) -> Seq<Comparison> {
    group.map_values(|c: ReadComparison| c@)
}

/// What each group of a filter clause stands for.
pub open spec fn groups_view(groups: Seq<Vec<ReadComparison>>) -> Seq<Seq<Comparison>> {
    groups.map_values(|g: Vec<ReadComparison>| group_view(g@))
}

/// The characters of a text, one by one.
pub fn chars_of(text: &str) -> (chars: Vec<char>)
    ensures
        chars@ == text@,
{
    let mut chars: Vec<char> = Vec::new();
    for c in it: text.chars()
        invariant
            chars@ == it.seq().take(it.index()),
            it.seq() == text@,
    {
        chars.push(c);
    }
    chars
}

fn blank(c: char) -> (b: bool)
    ensures
        b == is_blank(c),
{
    c == ' ' || c == '\t' || c == '\n' || c == '\r'
}

fn bracket(c: char) -> (b: bool)
    ensures
        b == is_bracket(c),
{
    c == '(' || c == ')'
}

proof fn lemma_skip_step(s: Seq<char>, i: int)
    requires
        0 <= i < s.len(),
    ensures
        s.skip(i).drop_first() == s.skip(i + 1),
        s.skip(i)[0] == s[i],
        s.skip(i).len() == s.len() - i,
{
    assert(s.skip(i).drop_first() =~= s.skip(i + 1));
}

proof fn lemma_word_chars(t: Seq<char>, k: int)
    requires
        0 <= k < word_len(t),
    ensures
        k < t.len(),
        is_word_char(t[k]),
        word_len(t) <= t.len(),
    decreases t.len(),
{
    if t.len() > 0 && is_word_char(t[0]) {
        lemma_word_len_bound(t.drop_first());
        if k > 0 {
            lemma_word_chars(t.drop_first(), k - 1);
            assert(t.drop_first()[k - 1] == t[k]);
        }
    }
}

proof fn lemma_word_len_bound(t: Seq<char>)
    ensures
        word_len(t) <= t.len(),
    decreases t.len(),
{
    if t.len() > 0 && is_word_char(t[0]) {
        lemma_word_len_bound(t.drop_first());
    }
}

/// The place of the first character at or after `pos` that is no blank.
fn skip_blanks_at(chars: &Vec<char>, pos: usize) -> (next: usize)
    requires
        pos <= chars.len(),
    ensures
        pos <= next <= chars.len(),
        chars@.skip(next as int) == skip_blanks(chars@.skip(pos as int)),
        next < chars.len() ==> !is_blank(chars@[next as int]),
{
    let mut i = pos;
    while i < chars.len() && blank(chars[i])
        invariant
            pos <= i <= chars.len(),
            skip_blanks(chars@.skip(pos as int)) == skip_blanks(chars@.skip(i as int)),
        decreases chars.len() - i,
    {
        proof {
            lemma_skip_step(chars@, i as int);
        }
        i += 1;
    }
    proof {
        if i < chars.len() {
            lemma_skip_step(chars@, i as int);
        }
    }
    i
}

/// The place after the word that begins at `pos`.
fn word_end_at(chars: &Vec<char>, pos: usize) -> (end: usize)
    requires
        pos <= chars.len(),
    ensures
        pos <= end <= chars.len(),
        end - pos == word_len(chars@.skip(pos as int)),
{
    let mut i = pos;
    while i < chars.len() && !blank(chars[i]) && !bracket(chars[i])
        invariant
            pos <= i <= chars.len(),
            word_len(chars@.skip(pos as int)) == (i - pos) + word_len(chars@.skip(i as int)),
        decreases chars.len() - i,
    {
        proof {
            lemma_skip_step(chars@, i as int);
        }
        i += 1;
    }
    proof {
        if i < chars.len() {
            lemma_skip_step(chars@, i as int);
        }
    }
    i
}

/// Where the next token at or after `pos` begins and ends.
fn next_token_at(chars: &Vec<char>, pos: usize) -> (found: Option<(usize, usize)>)
    requires
        pos <= chars.len(),
    ensures
        match found {
            Some((start, end)) => pos <= start < end <= chars.len() && next_token(
                chars@.skip(pos as int),
            ) == Some((chars@.subrange(start as int, end as int), chars@.skip(end as int))),
            None => next_token(chars@.skip(pos as int)) is None,
        },
{
    let start = skip_blanks_at(chars, pos);
    let ghost t = chars@.skip(start as int);
    if start >= chars.len() {
        return None;
    }
    proof {
        lemma_skip_step(chars@, start as int);
    }
    if bracket(chars[start]) {
        proof {
            assert(t.take(1) =~= chars@.subrange(start as int, start + 1));
            assert(t.skip(1) =~= chars@.skip(start + 1));
        }
        Some((start, start + 1))
    } else {
        let end = word_end_at(chars, start);
        proof {
            let n = (end - start) as int;
            assert(is_word_char(t[0]));
            assert(word_len(t) >= 1);
            assert(t.take(n) =~= chars@.subrange(start as int, end as int));
            assert(t.skip(n) =~= chars@.skip(end as int));
        }
        Some((start, end))
    }
}

/// Whether the characters from `start` to `end` spell `word`.
fn spells(chars: &Vec<char>, start: usize, end: usize, word: &Vec<char>) -> (same: bool)
    requires
        start <= end <= chars.len(),
    ensures
        same == (chars@.subrange(start as int, end as int) == word@),
{
    let ghost token = chars@.subrange(start as int, end as int);
    if end - start != word.len() {
        return false;
    }
    let mut i: usize = 0;
    while i < word.len()
        invariant
            start <= end <= chars.len(),
            end - start == word.len(),
            i <= word.len(),
            token == chars@.subrange(start as int, end as int),
            forall|j: int| 0 <= j < i ==> token[j] == word@[j],
        decreases word.len() - i,
    {
        if chars[start + i] != word[i] {
            assert(token[i as int] != word@[i as int]);
            return false;
        }
        i += 1;
    }
    assert(token =~= word@);
    true
}

/// The place after the token `word`, if that is the next token at or after
/// `pos`.
fn after_token_at(chars: &Vec<char>, pos: usize, word: &str) -> (found: Option<usize>)
    requires
        pos <= chars.len(),
    ensures
        match found {
            Some(end) => pos < end <= chars.len() && after_token(chars@.skip(pos as int), word@)
                == Some(chars@.skip(end as int)),
            None => after_token(chars@.skip(pos as int), word@) is None,
        },
{
    match next_token_at(chars, pos) {
        Some((start, end)) => {
            let letters = chars_of(word);
            if spells(chars, start, end, &letters) {
                Some(end)
            } else {
                None
            }
        },
        None => None,
    }
}

/// Whether the token from `start` to `end` is a word. A token is a word
/// unless it is a bracket.
fn token_is_word(chars: &Vec<char>, start: usize, end: usize, Ghost(pos): Ghost<int>) -> (b: bool)
    requires
        0 <= pos <= start < end <= chars.len(),
        next_token(chars@.skip(pos)) == Some(
            (chars@.subrange(start as int, end as int), chars@.skip(end as int)),
        ),
    ensures
        b == is_word(chars@.subrange(start as int, end as int)),
{
    let ghost token = chars@.subrange(start as int, end as int);
    let ghost t = skip_blanks(chars@.skip(pos));
    assert(token[0] == chars@[start as int]);
    if bracket(chars[start]) {
        assert(!is_word_char(token[0]));
        false
    } else {
        proof {
            assert(t.len() > 0);
            if is_bracket(t[0]) {
                assert(token == t.take(1));
                assert(token[0] == t[0]);
            }
            assert(token == t.take(word_len(t) as int));
            lemma_word_len_bound(t);
            assert forall|k: int| 0 <= k < token.len() implies is_word_char(#[trigger] token[k]) by {
                lemma_word_chars(t, k);
                assert(token[k] == t[k]);
            }
        }
        true
    }
}

fn read_comparison(text: &str, chars: &Vec<char>, pos: usize) -> (found: Option<
    (ReadComparison, usize),
>)
    requires
        chars@ == text@,
        pos <= chars.len(),
    ensures
        match parse_comparison(chars@.skip(pos as int)) {
            Some((c, rest)) => found matches Some((read, end)) && read@ == c && pos < end
                <= chars.len() && rest == chars@.skip(end as int),
            None => found is None,
        },
{
    let (s1, e1) = match next_token_at(chars, pos) {
        Some(token) => token,
        None => {
            return None;
        },
    };
    let (s2, e2) = match next_token_at(chars, e1) {
        Some(token) => token,
        None => {
            return None;
        },
    };
    let (s3, e3) = match next_token_at(chars, e2) {
        Some(token) => token,
        None => {
            return None;
        },
    };
    let field_ok = token_is_word(chars, s1, e1, Ghost(pos as int));
    let symbol_ok = token_is_word(chars, s2, e2, Ghost(e1 as int));
    let var_ok = token_is_word(chars, s3, e3, Ghost(e2 as int));
    let ghost var = chars@.subrange(s3 as int, e3 as int);
    assert(var[0] == chars@[s3 as int]);
    if field_ok && symbol_ok && var_ok && e3 - s3 > 1 && chars[s3] == '$' {
        let read = ReadComparison {
            field: text.substring_char(s1, e1).to_owned(),
            symbol: text.substring_char(s2, e2).to_owned(),
            var: text.substring_char(s3 + 1, e3).to_owned(),
        };
        assert(var.skip(1) =~= chars@.subrange(s3 + 1, e3 as int));
        Some((read, e3))
    } else {
        None
    }
}

/// A parser's result with `done` put in front of what it read.
spec fn in_front<A>(done: Seq<A>, more: Option<(Seq<A>, Seq<char>)>) -> Option<
    (Seq<A>, Seq<char>),
> {
    match more {
        Some((read, rest)) => Some((done + read, rest)),
        None => None,
    }
}

fn read_conjunction(text: &str, chars: &Vec<char>, pos: usize) -> (found: Option<
    (Vec<ReadComparison>, usize),
>)
    requires
        chars@ == text@,
        pos <= chars.len(),
    ensures
        match parse_conjunction(chars@.skip(pos as int)) {
            Some((cs, rest)) => found matches Some((read, end)) && group_view(read@) == cs && pos
                < end <= chars.len() && rest == chars@.skip(end as int),
            None => found is None,
        },
{
    let mut read: Vec<ReadComparison> = Vec::new();
    let mut cur = pos;
    let ghost whole = parse_conjunction(chars@.skip(pos as int));
    proof {
        assert(group_view(read@) =~= Seq::<Comparison>::empty());
        match whole {
            Some((cs, rest)) => {
                assert(group_view(read@) + cs =~= cs);
            },
            None => {},
        }
    }
    loop
        invariant
            chars@ == text@,
            pos <= cur <= chars.len(),
            whole == parse_conjunction(chars@.skip(pos as int)),
            whole == in_front(group_view(read@), parse_conjunction(chars@.skip(cur as int))),
        decreases chars.len() - cur,
    {
        let ghost done = group_view(read@);
        let ghost here = chars@.skip(cur as int);
        let (c, e1) = match read_comparison(text, chars, cur) {
            Some(found) => found,
            None => {
                return None;
            },
        };
        read.push(c);
        proof {
            assert(group_view(read@) =~= done.push(c@));
        }
        match after_token_at(chars, e1, "AND") {
            Some(e2) => {
                proof {
                    assert(chars@.skip(e2 as int).len() < here.len());
                    match parse_conjunction(chars@.skip(e2 as int)) {
                        Some((cs, rest)) => {
                            assert(done + (seq![c@] + cs) =~= done.push(c@) + cs);
                        },
                        None => {},
                    }
                }
                cur = e2;
            },
            None => {
                proof {
                    assert(done + seq![c@] =~= done.push(c@));
                }
                return Some((read, e1));
            },
        }
    }
}

fn read_group(text: &str, chars: &Vec<char>, pos: usize) -> (found: Option<
    (Vec<ReadComparison>, usize),
>)
    requires
        chars@ == text@,
        pos <= chars.len(),
    ensures
        match parse_group(chars@.skip(pos as int)) {
            Some((cs, rest)) => found matches Some((read, end)) && group_view(read@) == cs && pos
                < end <= chars.len() && rest == chars@.skip(end as int),
            None => found is None,
        },
{
    let r1 = match after_token_at(chars, pos, "(") {
        Some(end) => end,
        None => {
            return None;
        },
    };
    let empty_group = match after_token_at(chars, r1, "true") {
        Some(r2) => after_token_at(chars, r2, ")"),
        None => None,
    };
    match empty_group {
        Some(r3) => {
            let read: Vec<ReadComparison> = Vec::new();
            assert(group_view(read@) =~= Seq::<Comparison>::empty());
            Some((read, r3))
        },
        None => {
            match read_conjunction(text, chars, r1) {
                Some((read, r2)) => {
                    match after_token_at(chars, r2, ")") {
                        Some(r3) => Some((read, r3)),
                        None => None,
                    }
                },
                None => None,
            }
        },
    }
}

fn read_disjunction(text: &str, chars: &Vec<char>, pos: usize) -> (found: Option<
    (Vec<Vec<ReadComparison>>, usize),
>)
    requires
        chars@ == text@,
        pos <= chars.len(),
    ensures
        match parse_disjunction(chars@.skip(pos as int)) {
            Some((gs, rest)) => found matches Some((read, end)) && groups_view(read@) == gs
                && pos < end <= chars.len() && rest == chars@.skip(end as int),
            None => found is None,
        },
{
    let mut read: Vec<Vec<ReadComparison>> = Vec::new();
    let mut cur = pos;
    let ghost whole = parse_disjunction(chars@.skip(pos as int));
    proof {
        assert(groups_view(read@) =~= Seq::<Seq<Comparison>>::empty());
        match whole {
            Some((gs, rest)) => {
                assert(groups_view(read@) + gs =~= gs);
            },
            None => {},
        }
    }
    loop
        invariant
            chars@ == text@,
            pos <= cur <= chars.len(),
            whole == parse_disjunction(chars@.skip(pos as int)),
            whole == in_front(groups_view(read@), parse_disjunction(chars@.skip(cur as int))),
        decreases chars.len() - cur,
    {
        let ghost done = groups_view(read@);
        let ghost here = chars@.skip(cur as int);
        let (g, e1) = match read_group(text, chars, cur) {
            Some(found) => found,
            None => {
                return None;
            },
        };
        let ghost gv = group_view(g@);
        read.push(g);
        proof {
            assert(groups_view(read@) =~= done.push(gv));
        }
        match after_token_at(chars, e1, "OR") {
            Some(e2) => {
                proof {
                    assert(chars@.skip(e2 as int).len() < here.len());
                    match parse_disjunction(chars@.skip(e2 as int)) {
                        Some((gs, rest)) => {
                            assert(done + (seq![gv] + gs) =~= done.push(gv) + gs);
                        },
                        None => {},
                    }
                }
                cur = e2;
            },
            None => {
                proof {
                    assert(done + seq![gv] =~= done.push(gv));
                }
                return Some((read, e1));
            },
        }
    }
}

fn after_head_at(chars: &Vec<char>) -> (found: Option<usize>)
    ensures
        match found {
            Some(end) => end <= chars.len() && after_head(chars@) == Some(chars@.skip(end as int)),
            None => after_head(chars@) is None,
        },
{
    assert(chars@.skip(0) =~= chars@);
    let r1 = match after_token_at(chars, 0, "SELECT") {
        Some(end) => end,
        None => {
            return None;
        },
    };
    let r2 = match after_token_at(chars, r1, "*") {
        Some(end) => end,
        None => {
            return None;
        },
    };
    let r3 = match after_token_at(chars, r2, "FROM") {
        Some(end) => end,
        None => {
            return None;
        },
    };
    let r4 = match after_token_at(chars, r3, "type::table") {
        Some(end) => end,
        None => {
            return None;
        },
    };
    let r5 = match after_token_at(chars, r4, "(") {
        Some(end) => end,
        None => {
            return None;
        },
    };
    let r6 = match after_token_at(chars, r5, "$tb") {
        Some(end) => end,
        None => {
            return None;
        },
    };
    after_token_at(chars, r6, ")")
}

/// Reads the structure of a query's filter clause from its text: for each
/// group, in order, its comparisons, in order; no group for a query without
/// a filter clause. The text must begin as every query does, with the
/// selection from the table variable; any spacing between its words is
/// accepted, and what follows the filter clause is not looked at. A text
/// that does not read as that is not a query.
pub fn read_groups(text: &str) -> (groups: Option<Vec<Vec<ReadComparison>>>)
    ensures
        match parse_query(text@) {
            Some(shape) => groups matches Some(read) && groups_view(read@) == shape,
            None => groups is None,
        },
{
    let chars = chars_of(text);
    let r1 = match after_head_at(&chars) {
        Some(end) => end,
        None => {
            return None;
        },
    };
    match after_token_at(&chars, r1, "WHERE") {
        Some(r2) => {
            match read_disjunction(text, &chars, r2) {
                Some((read, _)) => Some(read),
                None => None,
            }
        },
        None => {
            let read: Vec<Vec<ReadComparison>> = Vec::new();
            assert(groups_view(read@) =~= Seq::<Seq<Comparison>>::empty());
            Some(read)
        },
    }
}

} // verus!
