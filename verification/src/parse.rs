//! Reading a generated query back: the structure of its filter clause,
//! recovered from the text alone, whatever the spacing between its words.

use vstd::prelude::*;
use crate::filter::{FilterNodeView, ListOptionsView, Operator};
use crate::query::{
    comparison_text,
    comparison_texts,
    filter_shape,
    first_some,
    first_unsupported,
    group_comparisons_upto,
    group_text,
    group_supported,
    group_texts,
    group_unsupported,
    limit_text,
    node_comparisons,
    node_unsupported,
    order_by_texts,
    order_text,
    select_head,
    select_text,
    start_text,
    symbol_text,
    var_name,
    Comparison,
};
use crate::text::{decimal, digit_char, joined, lemma_joined_front, signed_decimal};

verus! {

/// Space, tab, line feed or carriage return.
pub open spec fn is_blank(c: char) -> bool {
    c == ' ' || c == '\t' || c == '\n' || c == '\r'
}

/// A round bracket, opening or closing.
pub open spec fn is_bracket(c: char) -> bool {
    c == '(' || c == ')'
}

/// A character that can stand inside a word: neither blank nor bracket.
pub open spec fn is_word_char(c: char) -> bool {
    !is_blank(c) && !is_bracket(c)
}

/// A word: at least one character, none of them blank or a bracket.
pub open spec fn is_word(w: Seq<char>) -> bool {
    w.len() > 0 && forall|i: int| 0 <= i < w.len() ==> is_word_char(#[trigger] w[i])
}

/// `s` without its leading blanks.
pub open spec fn skip_blanks(s: Seq<char>) -> Seq<char>
    decreases s.len(),
{
    if s.len() > 0 && is_blank(s[0]) {
        skip_blanks(s.drop_first())
    } else {
        s
    }
}

/// How many word characters `s` begins with.
pub open spec fn word_len(s: Seq<char>) -> nat
    decreases s.len(),
{
    if s.len() > 0 && is_word_char(s[0]) {
        1 + word_len(s.drop_first())
    } else {
        0
    }
}

/// The next token of `s` and what follows it. Blanks before the token are
/// passed over; a bracket is a token by itself; any other token is a word
/// taken as far as it goes.
pub open spec fn next_token(s: Seq<char>) -> Option<(Seq<char>, Seq<char>)> {
    let t = skip_blanks(s);
    if t.len() == 0 {
        None
    } else if is_bracket(t[0]) {
        Some((t.take(1), t.skip(1)))
    } else {
        Some((t.take(word_len(t) as int), t.skip(word_len(t) as int)))
    }
}

/// Whether `s` goes on with the token `word`, and if so what follows it.
pub open spec fn after_token(s: Seq<char>, word: Seq<char>) -> Option<Seq<char>> {
    match next_token(s) {
        Some((t, rest)) => if t == word {
            Some(rest)
        } else {
            None
        },
        None => None,
    }
}

/// Reads one comparison: a field, an operator symbol, and a variable
/// written with a leading `$`.
pub open spec fn parse_comparison(s: Seq<char>) -> Option<(Comparison, Seq<char>)> {
    match next_token(s) {
        Some((field, r1)) => match next_token(r1) {
            Some((symbol, r2)) => match next_token(r2) {
                Some((var, r3)) => if is_word(field) && is_word(symbol) && is_word(var)
                    && var.len() > 1 && var[0] == '$' {
                    Some((Comparison { field, symbol, var: var.skip(1) }, r3))
                } else {
                    None
                },
                None => None,
            },
            None => None,
        },
        None => None,
    }
}

/// Reads comparisons joined by `AND`, as many as there are.
pub open spec fn parse_conjunction(s: Seq<char>) -> Option<(Seq<Comparison>, Seq<char>)>
    decreases s.len(),
{
    match parse_comparison(s) {
        Some((c, r1)) => match after_token(r1, "AND"@) {
            Some(r2) => if r2.len() < s.len() {
                match parse_conjunction(r2) {
                    Some((cs, r3)) => Some((seq![c] + cs, r3)),
                    None => None,
                }
            } else {
                None
            },
            None => Some((seq![c], r1)),
        },
        None => None,
    }
}

/// Reads one group in its brackets: either the word `true` alone, for a
/// group without comparisons, or a conjunction.
pub open spec fn parse_group(s: Seq<char>) -> Option<(Seq<Comparison>, Seq<char>)> {
    match after_token(s, "("@) {
        Some(r1) => {
            let empty_group = match after_token(r1, "true"@) {
                Some(r2) => after_token(r2, ")"@),
                None => None,
            };
            match empty_group {
                Some(r3) => Some((Seq::empty(), r3)),
                None => match parse_conjunction(r1) {
                    Some((cs, r2)) => match after_token(r2, ")"@) {
                        Some(r3) => Some((cs, r3)),
                        None => None,
                    },
                    None => None,
                },
            }
        },
        None => None,
    }
}

/// Reads groups joined by `OR`, as many as there are.
pub open spec fn parse_disjunction(s: Seq<char>) -> Option<(Seq<Seq<Comparison>>, Seq<char>)>
    decreases s.len(),
{
    match parse_group(s) {
        Some((g, r1)) => match after_token(r1, "OR"@) {
            Some(r2) => if r2.len() < s.len() {
                match parse_disjunction(r2) {
                    Some((gs, r3)) => Some((seq![g] + gs, r3)),
                    None => None,
                }
            } else {
                None
            },
            None => Some((seq![g], r1)),
        },
        None => None,
    }
}

/// What follows the selection itself in a query text, if the text begins
/// with it: `SELECT * FROM type::table ( $tb )`, however spaced.
pub open spec fn after_head(text: Seq<char>) -> Option<Seq<char>> {
    match after_token(text, "SELECT"@) {
        Some(r1) => match after_token(r1, "*"@) {
            Some(r2) => match after_token(r2, "FROM"@) {
                Some(r3) => match after_token(r3, "type::table"@) {
                    Some(r4) => match after_token(r4, "("@) {
                        Some(r5) => match after_token(r5, "$tb"@) {
                            Some(r6) => after_token(r6, ")"@),
                            None => None,
                        },
                        None => None,
                    },
                    None => None,
                },
                None => None,
            },
            None => None,
        },
        None => None,
    }
}

/// Reads the structure of a query's filter clause from its text: for each
/// group, in order, its comparisons, in order. A query without a filter
/// clause has no group. What follows the filter clause is not looked at.
pub open spec fn parse_query(text: Seq<char>) -> Option<Seq<Seq<Comparison>>> {
    match after_head(text) {
        Some(r1) => match after_token(r1, "WHERE"@) {
            Some(r2) => match parse_disjunction(r2) {
                Some((groups, _)) => Some(groups),
                None => None,
            },
            None => Some(Seq::empty()),
        },
        None => None,
    }
}

proof fn lemma_word_len(w: Seq<char>, rest: Seq<char>)
    requires
        forall|i: int| 0 <= i < w.len() ==> is_word_char(#[trigger] w[i]),
        rest.len() == 0 || !is_word_char(rest[0]),
    ensures
        word_len(w + rest) == w.len(),
    decreases w.len(),
{
    let s = w + rest;
    if w.len() == 0 {
        assert(s =~= rest);
    } else {
        assert(s[0] == w[0]);
        assert(s.drop_first() =~= w.drop_first() + rest);
        assert forall|i: int| 0 <= i < w.drop_first().len() implies is_word_char(
            #[trigger] w.drop_first()[i],
        ) by {
            assert(w.drop_first()[i] == w[i + 1]);
        }
        lemma_word_len(w.drop_first(), rest);
    }
}

/// A word is read whole when what follows cannot continue it.
proof fn lemma_token_word(w: Seq<char>, rest: Seq<char>)
    requires
        is_word(w),
        rest.len() == 0 || !is_word_char(rest[0]),
    ensures
        next_token(w + rest) == Some((w, rest)),
{
    let s = w + rest;
    assert(s[0] == w[0]);
    assert(is_word_char(w[0]));
    assert(skip_blanks(s) == s);
    lemma_word_len(w, rest);
    assert(s.take(w.len() as int) =~= w);
    assert(s.skip(w.len() as int) =~= rest);
}

/// A blank before a token changes nothing.
proof fn lemma_token_blank(c: char, rest: Seq<char>)
    requires
        is_blank(c),
    ensures
        next_token(seq![c] + rest) == next_token(rest),
{
    let s = seq![c] + rest;
    assert(s[0] == c);
    assert(s.drop_first() =~= rest);
    assert(skip_blanks(s) == skip_blanks(rest));
}

/// A bracket is a token by itself.
proof fn lemma_token_bracket(c: char, rest: Seq<char>)
    requires
        is_bracket(c),
    ensures
        next_token(seq![c] + rest) == Some((seq![c], rest)),
{
    let s = seq![c] + rest;
    assert(s[0] == c);
    assert(skip_blanks(s) == s);
    assert(s.take(1) =~= seq![c]);
    assert(s.skip(1) =~= rest);
}

/// A comparison whose three parts are read back as they were written.
pub open spec fn readable(c: Comparison) -> bool {
    is_word(c.field) && is_word(c.symbol) && is_word(c.var)
}

/// Nothing, or one space.
spec fn is_pad(pad: Seq<char>) -> bool {
    pad.len() == 0 || pad == seq![' ']
}

proof fn lemma_token_pad(pad: Seq<char>, s: Seq<char>)
    requires
        is_pad(pad),
    ensures
        next_token(pad + s) == next_token(s),
{
    if pad.len() == 0 {
        assert(pad + s =~= s);
    } else {
        lemma_token_blank(' ', s);
    }
}

proof fn lemma_after_word(pad: Seq<char>, w: Seq<char>, rest: Seq<char>)
    requires
        is_pad(pad),
        is_word(w),
        rest.len() == 0 || !is_word_char(rest[0]),
    ensures
        next_token(pad + w + rest) == Some((w, rest)),
        after_token(pad + w + rest, w) == Some(rest),
{
    assert(pad + w + rest =~= pad + (w + rest));
    lemma_token_pad(pad, w + rest);
    lemma_token_word(w, rest);
}

proof fn lemma_after_bracket(pad: Seq<char>, c: char, rest: Seq<char>)
    requires
        is_pad(pad),
        is_bracket(c),
    ensures
        next_token(pad + seq![c] + rest) == Some((seq![c], rest)),
        after_token(pad + seq![c] + rest, seq![c]) == Some(rest),
{
    assert(pad + seq![c] + rest =~= pad + (seq![c] + rest));
    lemma_token_pad(pad, seq![c] + rest);
    lemma_token_bracket(c, rest);
}

proof fn lemma_parse_comparison(pad: Seq<char>, c: Comparison, rest: Seq<char>)
    requires
        is_pad(pad),
        readable(c),
        rest.len() == 0 || !is_word_char(rest[0]),
    ensures
        parse_comparison(pad + comparison_text(c) + rest) == Some((c, rest)),
{
    reveal_strlit(" ");
    reveal_strlit(" $");
    let sp = seq![' '];
    let var = seq!['$'] + c.var;
    let d = var + rest;
    let b = c.symbol + (sp + d);
    let a = sp + b;
    let s = pad + comparison_text(c) + rest;
    assert(" "@ =~= sp);
    assert(" $"@ =~= sp + seq!['$']);
    assert(s =~= pad + c.field + a);
    assert(a[0] == ' ');
    lemma_after_word(pad, c.field, a);
    lemma_token_blank(' ', b);
    assert((sp + d)[0] == ' ');
    lemma_token_word(c.symbol, sp + d);
    lemma_token_blank(' ', d);
    assert(is_word(var)) by {
        assert forall|i: int| 0 <= i < var.len() implies is_word_char(#[trigger] var[i]) by {
            if i > 0 {
                assert(var[i] == c.var[i - 1]);
            }
        }
    }
    lemma_token_word(var, rest);
    assert(var.skip(1) =~= c.var);
    assert(var[0] == '$');
}

proof fn lemma_parse_conjunction(pad: Seq<char>, cs: Seq<Comparison>, rest: Seq<char>)
    requires
        is_pad(pad),
        cs.len() >= 1,
        forall|i: int| 0 <= i < cs.len() ==> readable(#[trigger] cs[i]),
        rest.len() > 0 && rest[0] == ')',
    ensures
        parse_conjunction(pad + joined(comparison_texts(cs), " AND "@) + rest) == Some(
            (cs, rest),
        ),
        exists|r: Seq<char>|
            parse_comparison(pad + joined(comparison_texts(cs), " AND "@) + rest) == Some(
                (cs[0], r),
            ),
    decreases cs.len(),
{
    reveal_strlit(" AND ");
    reveal_strlit("AND");
    reveal_strlit(")");
    let texts = comparison_texts(cs);
    let s = pad + joined(texts, " AND "@) + rest;
    let sp = seq![' '];
    let and = seq!['A', 'N', 'D'];
    assert("AND"@ =~= and);
    assert(" AND "@ =~= sp + and + sp);
    assert(is_word(and));
    if cs.len() == 1 {
        assert(joined(texts, " AND "@) == comparison_text(cs[0]));
        lemma_parse_comparison(pad, cs[0], rest);
        lemma_token_bracket(')', rest.skip(1));
        assert(rest =~= seq![')'] + rest.skip(1));
        assert(after_token(rest, "AND"@) is None);
        assert(parse_conjunction(s) == Some((seq![cs[0]], rest)));
        assert(seq![cs[0]] =~= cs);
    } else {
        let tail = cs.drop_first();
        lemma_joined_front(texts, " AND "@);
        assert(texts.drop_first() =~= comparison_texts(tail));
        assert(texts[0] == comparison_text(cs[0]));
        let x = joined(comparison_texts(tail), " AND "@) + rest;
        let r1 = sp + and + sp + x;
        assert(s =~= pad + comparison_text(cs[0]) + r1);
        assert(r1[0] == ' ');
        lemma_parse_comparison(pad, cs[0], r1);
        let r2 = sp + x;
        assert(r1 =~= sp + and + r2);
        assert(r2[0] == ' ');
        lemma_after_word(sp, and, r2);
        assert(after_token(r1, "AND"@) == Some(r2));
        assert forall|i: int| 0 <= i < tail.len() implies readable(#[trigger] tail[i]) by {
            assert(tail[i] == cs[i + 1]);
        }
        lemma_parse_conjunction(sp, tail, rest);
        assert(r2 =~= sp + joined(comparison_texts(tail), " AND "@) + rest);
        assert(r2.len() < s.len());
        assert(seq![cs[0]] + tail =~= cs);
    }
}

proof fn lemma_parse_group(pad: Seq<char>, cs: Seq<Comparison>, rest: Seq<char>)
    requires
        is_pad(pad),
        forall|i: int| 0 <= i < cs.len() ==> readable(#[trigger] cs[i]),
    ensures
        parse_group(pad + group_text(cs) + rest) == Some((cs, rest)),
{
    reveal_strlit("(");
    reveal_strlit(")");
    reveal_strlit("true");
    let open = seq!['('];
    let close = seq![')'];
    let truth = seq!['t', 'r', 'u', 'e'];
    assert("("@ =~= open);
    assert(")"@ =~= close);
    assert("true"@ =~= truth);
    assert(is_word(truth));
    let s = pad + group_text(cs) + rest;
    let after = close + rest;
    assert(after[0] == ')');
    if cs.len() == 0 {
        let r1 = truth + after;
        assert(s =~= pad + open + r1);
        lemma_after_bracket(pad, '(', r1);
        lemma_after_word(Seq::empty(), truth, after);
        assert(Seq::<char>::empty() + truth + after =~= r1);
        lemma_after_bracket(Seq::empty(), ')', rest);
        assert(Seq::<char>::empty() + close + rest =~= after);
        assert(parse_group(s) == Some((Seq::<Comparison>::empty(), rest)));
        assert(cs =~= Seq::<Comparison>::empty());
    } else {
        let body = joined(comparison_texts(cs), " AND "@);
        let r1 = body + after;
        assert(s =~= pad + open + r1);
        lemma_after_bracket(pad, '(', r1);
        lemma_parse_conjunction(Seq::empty(), cs, after);
        assert(Seq::<char>::empty() + body + after =~= r1);
        lemma_after_bracket(Seq::empty(), ')', rest);
        assert(Seq::<char>::empty() + close + rest =~= after);
        let r = choose|r: Seq<char>| parse_comparison(r1) == Some((cs[0], r));
        assert(readable(cs[0]));
        let empty_group = match after_token(r1, "true"@) {
            Some(r2) => after_token(r2, ")"@),
            None => None,
        };
        assert(empty_group is None) by {
            let first = next_token(r1);
            assert(first is Some);
            let (_, after_field) = first.unwrap();
            let second = next_token(after_field);
            assert(second is Some);
            let (symbol, _) = second.unwrap();
            assert(symbol == cs[0].symbol);
            assert(is_word_char(cs[0].symbol[0]));
        }
    }
}

proof fn lemma_parse_disjunction(pad: Seq<char>, shape: Seq<Seq<Comparison>>, rest: Seq<char>)
    requires
        is_pad(pad),
        shape.len() >= 1,
        forall|g: int, i: int|
            0 <= g < shape.len() && 0 <= i < shape[g].len() ==> readable(#[trigger] shape[g][i]),
        after_token(rest, "OR"@) is None,
    ensures
        parse_disjunction(pad + joined(group_texts(shape), " OR "@) + rest) == Some(
            (shape, rest),
        ),
    decreases shape.len(),
{
    reveal_strlit(" OR ");
    reveal_strlit("OR");
    let texts = group_texts(shape);
    let s = pad + joined(texts, " OR "@) + rest;
    let sp = seq![' '];
    let or = seq!['O', 'R'];
    assert("OR"@ =~= or);
    assert(" OR "@ =~= sp + or + sp);
    assert(is_word(or));
    assert forall|i: int| 0 <= i < shape[0].len() implies readable(#[trigger] shape[0][i]) by {}
    if shape.len() == 1 {
        assert(joined(texts, " OR "@) == group_text(shape[0]));
        lemma_parse_group(pad, shape[0], rest);
        assert(parse_disjunction(s) == Some((seq![shape[0]], rest)));
        assert(seq![shape[0]] =~= shape);
    } else {
        let tail = shape.drop_first();
        lemma_joined_front(texts, " OR "@);
        assert(texts.drop_first() =~= group_texts(tail));
        assert(texts[0] == group_text(shape[0]));
        let x = joined(group_texts(tail), " OR "@) + rest;
        let r1 = sp + or + sp + x;
        assert(s =~= pad + group_text(shape[0]) + r1);
        lemma_parse_group(pad, shape[0], r1);
        let r2 = sp + x;
        assert(r1 =~= sp + or + r2);
        assert(r2[0] == ' ');
        lemma_after_word(sp, or, r2);
        assert(after_token(r1, "OR"@) == Some(r2));
        assert forall|g: int, i: int| 0 <= g < tail.len() && 0 <= i < tail[g].len() implies readable(
            #[trigger] tail[g][i],
        ) by {
            assert(tail[g] == shape[g + 1]);
        }
        lemma_parse_disjunction(sp, tail, rest);
        assert(r2 =~= sp + joined(group_texts(tail), " OR "@) + rest);
        assert(r2.len() < s.len());
        assert(seq![shape[0]] + tail =~= shape);
    }
}

proof fn lemma_after_head(rest: Seq<char>)
    ensures
        after_head(select_head() + rest) == Some(rest),
{
    reveal_strlit("SELECT * FROM type::table($tb)");
    reveal_strlit("SELECT");
    reveal_strlit("*");
    reveal_strlit("FROM");
    reveal_strlit("type::table");
    reveal_strlit("(");
    reveal_strlit("$tb");
    reveal_strlit(")");
    let sp = seq![' '];
    let none = Seq::<char>::empty();
    let w1 = "SELECT"@;
    let w2 = "*"@;
    let w3 = "FROM"@;
    let w4 = "type::table"@;
    let w5 = "$tb"@;
    assert(is_word(w1));
    assert(is_word(w2));
    assert(is_word(w3));
    assert(is_word(w4));
    assert(is_word(w5));
    assert("("@ =~= seq!['(']);
    assert(")"@ =~= seq![')']);
    let r6 = seq![')'] + rest;
    let r5 = w5 + r6;
    let r4 = seq!['('] + r5;
    let r3 = sp + w4 + r4;
    let r2 = sp + w3 + r3;
    let r1 = sp + w2 + r2;
    assert(select_head() + rest =~= none + w1 + r1);
    assert(r1[0] == ' ');
    assert(r2[0] == ' ');
    assert(r3[0] == ' ');
    assert(r4[0] == '(');
    assert(r6[0] == ')');
    lemma_after_word(none, w1, r1);
    lemma_after_word(sp, w2, r2);
    lemma_after_word(sp, w3, r3);
    lemma_after_word(sp, w4, r4);
    lemma_after_bracket(none, '(', r5);
    assert(none + seq!['('] + r5 =~= r4);
    lemma_after_word(none, w5, r6);
    assert(none + w5 + r6 =~= r5);
    lemma_after_bracket(none, ')', rest);
    assert(none + seq![')'] + rest =~= r6);
}

proof fn lemma_tail_starts_no_group(options: ListOptionsView)
    ensures
        after_token(
            order_text(options.order_bys) + limit_text(options.limit) + start_text(options.offset),
            "OR"@,
        ) is None,
        after_token(
            order_text(options.order_bys) + limit_text(options.limit) + start_text(options.offset),
            "WHERE"@,
        ) is None,
{
    reveal_strlit("OR");
    reveal_strlit("WHERE");
    reveal_strlit(" ORDER BY ");
    reveal_strlit(" LIMIT ");
    reveal_strlit(" START ");
    let sp = seq![' '];
    let tail = order_text(options.order_bys) + limit_text(options.limit) + start_text(
        options.offset,
    );
    if options.order_bys.len() > 0 {
        let w = seq!['O', 'R', 'D', 'E', 'R'];
        let more = seq![' ', 'B', 'Y', ' '] + joined(order_by_texts(options.order_bys), ","@)
            + limit_text(options.limit) + start_text(options.offset);
        assert(" ORDER BY "@ =~= sp + w + seq![' ', 'B', 'Y', ' ']);
        assert(tail =~= sp + w + more);
        assert(more[0] == ' ');
        assert(is_word(w));
        lemma_after_word(sp, w, more);
        assert(w.len() != "OR"@.len());
        assert(w[0] != "WHERE"@[0]);
    } else if options.limit is Some {
        let w = seq!['L', 'I', 'M', 'I', 'T'];
        let more = sp + signed_decimal(options.limit->0) + start_text(options.offset);
        assert(" LIMIT "@ =~= sp + w + sp);
        assert(tail =~= sp + w + more);
        assert(more[0] == ' ');
        assert(is_word(w));
        lemma_after_word(sp, w, more);
        assert(w[0] != "OR"@[0]);
        assert(w[0] != "WHERE"@[0]);
    } else if options.offset is Some {
        let w = seq!['S', 'T', 'A', 'R', 'T'];
        let more = sp + signed_decimal(options.offset->0);
        assert(" START "@ =~= sp + w + sp);
        assert(tail =~= sp + w + more);
        assert(more[0] == ' ');
        assert(is_word(w));
        lemma_after_word(sp, w, more);
        assert(w[0] != "OR"@[0]);
        assert(w[0] != "WHERE"@[0]);
    } else {
        assert(tail =~= Seq::<char>::empty());
        assert(skip_blanks(tail) == tail);
    }
}

proof fn lemma_words_join(a: Seq<char>, b: Seq<char>)
    requires
        is_word(a),
        is_word(b),
    ensures
        is_word(a + b),
{
    assert forall|i: int| 0 <= i < (a + b).len() implies is_word_char(#[trigger] (a + b)[i]) by {
        if i < a.len() {
            assert((a + b)[i] == a[i]);
        } else {
            assert((a + b)[i] == b[i - a.len()]);
        }
    }
}

proof fn lemma_decimal_is_word(n: nat)
    ensures
        is_word(decimal(n)),
    decreases n,
{
    if n >= 10 {
        lemma_decimal_is_word(n / 10);
        let d = seq![digit_char(n % 10)];
        assert(is_word(d));
        lemma_words_join(decimal(n / 10), d);
        assert(decimal(n) =~= decimal(n / 10) + d);
    }
}

proof fn lemma_var_name_is_word(g: nat, n: nat, k: nat)
    ensures
        is_word(var_name(g, n, k)),
{
    reveal_strlit("w");
    reveal_strlit("_");
    lemma_decimal_is_word(g);
    lemma_decimal_is_word(n);
    lemma_decimal_is_word(k);
    assert(is_word("w"@));
    assert(is_word("_"@));
    lemma_words_join("w"@, decimal(g));
    lemma_words_join("w"@ + decimal(g), "_"@);
    lemma_words_join("w"@ + decimal(g) + "_"@, decimal(n));
    lemma_words_join("w"@ + decimal(g) + "_"@ + decimal(n), "_"@);
    lemma_words_join("w"@ + decimal(g) + "_"@ + decimal(n) + "_"@, decimal(k));
}

proof fn lemma_symbol_is_word(op: Operator)
    requires
        op.spec_is_supported(),
    ensures
        is_word(symbol_text(op)),
{
    reveal_strlit("=");
    reveal_strlit("!=");
    reveal_strlit("<");
    reveal_strlit("<=");
    reveal_strlit(">");
    reveal_strlit(">=");
}

/// Every node that holds a comparison is named by a word.
pub open spec fn plain_field_names(nodes: Seq<FilterNodeView>) -> bool {
    forall|n: int|
        0 <= n < nodes.len() && (#[trigger] nodes[n]).opvals.len() > 0 ==> is_word(nodes[n].name)
}

proof fn lemma_group_readable(nodes: Seq<FilterNodeView>, g: nat, count: nat)
    requires
        count <= nodes.len(),
        plain_field_names(nodes),
        group_supported(nodes),
    ensures
        forall|i: int|
            0 <= i < group_comparisons_upto(nodes, g, count).len() ==> readable(
                #[trigger] group_comparisons_upto(nodes, g, count)[i],
            ),
    decreases count,
{
    if count > 0 {
        let n = (count - 1) as nat;
        lemma_group_readable(nodes, g, n);
        let before = group_comparisons_upto(nodes, g, n);
        let here = node_comparisons(nodes[n as int], g, n);
        let all = group_comparisons_upto(nodes, g, count);
        assert(all == before + here);
        assert forall|i: int| 0 <= i < all.len() implies readable(#[trigger] all[i]) by {
            if i < before.len() {
                assert(all[i] == before[i]);
            } else {
                let k = i - before.len();
                assert(all[i] == here[k]);
                assert(nodes[n as int].opvals.len() > 0);
                assert(nodes[n as int].opvals[k].op.spec_is_supported());
                lemma_symbol_is_word(nodes[n as int].opvals[k].op);
                lemma_var_name_is_word(g, n, k as nat);
            }
        }
    }
}

proof fn lemma_first_some_is_none<T>(s: Seq<Option<T>>, i: int)
    requires
        first_some(s) is None,
        0 <= i < s.len(),
    ensures
        s[i] is None,
    decreases s.len(),
{
    if i > 0 {
        lemma_first_some_is_none(s.drop_first(), i - 1);
    }
}

proof fn lemma_supported_throughout(filter: Seq<Seq<FilterNodeView>>, g: int)
    requires
        first_unsupported(filter) is None,
        0 <= g < filter.len(),
    ensures
        group_supported(filter[g]),
{
    let nodes = filter[g];
    let group_marks = Seq::new(filter.len(), |g: int| group_unsupported(filter[g]));
    lemma_first_some_is_none(group_marks, g);
    let node_marks = Seq::new(nodes.len(), |n: int| node_unsupported(nodes[n]));
    assert forall|n: int, k: int| 0 <= n < nodes.len() && 0 <= k < nodes[n].opvals.len() implies #[trigger] nodes[n].opvals[k].op.spec_is_supported() by {
        lemma_first_some_is_none(node_marks, n);
        let marks = Seq::new(
            nodes[n].opvals.len(),
            |k: int|
                if nodes[n].opvals[k].op.spec_is_supported() {
                    None
                } else {
                    Some(nodes[n].opvals[k].op)
                },
        );
        lemma_first_some_is_none(marks, k);
    }
}

/// Every field that a comparison of the filter names is a word: it has at
/// least one character, and none that is blank or a round bracket.
pub open spec fn plain_fields(filter: Seq<Seq<FilterNodeView>>) -> bool {
    forall|g: int| 0 <= g < filter.len() ==> plain_field_names(#[trigger] filter[g])
}

/// Grouping survives the way into the query text. Take a filter whose
/// operators are all in the mapping table and whose field names are words. Reading the generated text
/// back, with any spacing, yields the filter's own structure: as many groups,
/// in the same order, and in each group the same comparisons in the same
/// order. No group is merged into another and none changes place.
pub proof fn lemma_query_keeps_groups(filter: Seq<Seq<FilterNodeView>>, options: ListOptionsView)
    requires
        first_unsupported(filter) is None,
        plain_fields(filter),
    ensures
        parse_query(select_text(filter, options)) == Some(filter_shape(filter)),
{
    reveal_strlit(" WHERE ");
    reveal_strlit("WHERE");
    let shape = filter_shape(filter);
    let tail = order_text(options.order_bys) + limit_text(options.limit) + start_text(
        options.offset,
    );
    let text = select_text(filter, options);
    lemma_tail_starts_no_group(options);
    if shape.len() == 0 {
        assert(text =~= select_head() + tail);
        lemma_after_head(tail);
        assert(shape =~= Seq::<Seq<Comparison>>::empty());
    } else {
        let sp = seq![' '];
        let w = seq!['W', 'H', 'E', 'R', 'E'];
        let body = joined(group_texts(shape), " OR "@);
        let r2 = sp + body + tail;
        let r1 = sp + w + r2;
        assert("WHERE"@ =~= w);
        assert(" WHERE "@ =~= sp + w + sp);
        assert(text =~= select_head() + r1);
        lemma_after_head(r1);
        assert(is_word(w));
        assert(r2[0] == ' ');
        lemma_after_word(sp, w, r2);
        assert forall|g: int, i: int| 0 <= g < shape.len() && 0 <= i < shape[g].len() implies readable(
            #[trigger] shape[g][i],
        ) by {
            lemma_supported_throughout(filter, g);
            assert(plain_field_names(filter[g]));
            lemma_group_readable(filter[g], g as nat, filter[g].len());
        }
        lemma_parse_disjunction(sp, shape, tail);
    }
}

/// The text of a query depends on nothing but the filter and the options:
/// equal inputs give the same text, character for character.
pub proof fn lemma_query_text_is_determined(
    filter_a: Seq<Seq<FilterNodeView>>,
    options_a: ListOptionsView,
    filter_b: Seq<Seq<FilterNodeView>>,
    options_b: ListOptionsView,
)
    requires
        filter_a == filter_b,
        options_a == options_b,
    ensures
        select_text(filter_a, options_a) == select_text(filter_b, options_b),
{
}

} // verus!
