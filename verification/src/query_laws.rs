//! What holds of reading and printing queries.

use vstd::prelude::*;
use crate::query::{
    all_tag_chars, and_at, and_rest, holds, is_tag_char, lemma_and_advances, lemma_not_advances,
    not_at, or_rest, parsed, parsed_tokens, printed, token_of, tokenized, tokens_of, without_hash,
    QueryView, Tok,
};
use crate::text::{ascii_lower, is_whitespace, lowered, words_of, words_scan};

verus! {

// ---------------------------------------------------------------------------
// Shapes
// ---------------------------------------------------------------------------

/// A tag as the reader leaves it: not empty, of tag characters, in lower case.
pub open spec fn tag_ok(tag: Seq<char>) -> bool {
    tag.len() > 0 && all_tag_chars(tag) && lowered(tag) == tag
}

/// Every tag of the query is as the reader leaves it.
pub open spec fn tags_ok(q: QueryView) -> bool
    decreases q,
{
    match q {
        QueryView::Single(tag) => tag_ok(tag),
        QueryView::And(l, r) => tags_ok(*l) && tags_ok(*r),
        QueryView::Or(l, r) => tags_ok(*l) && tags_ok(*r),
        QueryView::Not(x) => tags_ok(*x),
    }
}

/// The query holds an `OR`.
pub open spec fn has_or(q: QueryView) -> bool
    decreases q,
{
    match q {
        QueryView::Single(tag) => false,
        QueryView::And(l, r) => has_or(*l) || has_or(*r),
        QueryView::Or(l, r) => true,
        QueryView::Not(x) => has_or(*x),
    }
}

/// What `not := NOT not | primary` can give.
pub open spec fn not_shaped(q: QueryView) -> bool
    decreases q,
{
    match q {
        QueryView::Single(tag) => true,
        QueryView::Not(x) => not_shaped(*x),
        _ => false,
    }
}

/// What `and := not (AND not)*` can give.
pub open spec fn and_shaped(q: QueryView) -> bool
    decreases q,
{
    match q {
        QueryView::And(l, r) => and_shaped(*l) && not_shaped(*r),
        _ => not_shaped(q),
    }
}

/// What `or := and (OR and)*` can give.
pub open spec fn or_shaped(q: QueryView) -> bool
    decreases q,
{
    match q {
        QueryView::Or(l, r) => or_shaped(*l) && and_shaped(*r),
        _ => and_shaped(q),
    }
}

/// Every tag among the tokens is as the reader leaves it.
pub open spec fn tokens_ok(ts: Seq<Tok>) -> bool {
    forall|i: int| 0 <= i < ts.len() ==> (#[trigger] ts[i] matches Tok::Tag(tag) ==> tag_ok(tag))
}

proof fn lemma_lowered_tag(tag: Seq<char>)
    requires
        tag.len() > 0,
        all_tag_chars(tag),
    ensures
        tag_ok(lowered(tag)),
{
    let l = lowered(tag);
    assert forall|i: int| 0 <= i < l.len() implies is_tag_char(#[trigger] l[i]) by {
        assert(is_tag_char(tag[i]));
    }
    assert(lowered(l) =~= l) by {
        assert forall|i: int| 0 <= i < l.len() implies ascii_lower(l[i]) == l[i] by {
            assert(is_tag_char(tag[i]));
        }
    }
}

proof fn lemma_token_ok(word: Seq<char>)
    ensures
        token_of(word) matches Ok(Tok::Tag(tag)) ==> tag_ok(tag),
{
    let tag = without_hash(word);
    if tag.len() > 0 && all_tag_chars(tag) {
        lemma_lowered_tag(tag);
    }
}

proof fn lemma_tokens_ok(words: Seq<Seq<char>>)
    ensures
        tokens_of(words) matches Ok(ts) ==> tokens_ok(ts),
    decreases words.len(),
{
    if words.len() > 0 {
        lemma_tokens_ok(words.drop_last());
        lemma_token_ok(words.last());
    }
}

proof fn lemma_not_shape(ts: Seq<Tok>, pos: int)
    requires
        tokens_ok(ts),
    ensures
        not_at(ts, pos) matches Ok((q, _)) ==> not_shaped(q) && tags_ok(q) && !has_or(q),
    decreases ts.len() - pos,
{
    if 0 <= pos < ts.len() && ts[pos] is Not {
        lemma_not_shape(ts, pos + 1);
    }
}

proof fn lemma_and_rest_shape(ts: Seq<Tok>, left: QueryView, pos: int)
    requires
        tokens_ok(ts),
        and_shaped(left),
        tags_ok(left),
        !has_or(left),
    ensures
        and_rest(ts, left, pos) matches Ok((q, _)) ==> and_shaped(q) && tags_ok(q) && !has_or(q),
    decreases ts.len() - pos,
{
    if 0 <= pos < ts.len() && ts[pos] is And {
        lemma_not_shape(ts, pos + 1);
        lemma_not_advances(ts, pos + 1);
        match not_at(ts, pos + 1) {
            Ok((right, p)) => {
                lemma_and_rest_shape(ts, QueryView::And(Box::new(left), Box::new(right)), p);
            },
            Err(e) => {},
        }
    }
}

proof fn lemma_and_shape(ts: Seq<Tok>, pos: int)
    requires
        tokens_ok(ts),
    ensures
        and_at(ts, pos) matches Ok((q, _)) ==> and_shaped(q) && tags_ok(q) && !has_or(q),
{
    lemma_not_shape(ts, pos);
    match not_at(ts, pos) {
        Ok((left, p)) => {
            lemma_and_rest_shape(ts, left, p);
        },
        Err(e) => {},
    }
}

proof fn lemma_or_rest_shape(ts: Seq<Tok>, left: QueryView, pos: int)
    requires
        tokens_ok(ts),
        or_shaped(left),
        tags_ok(left),
    ensures
        or_rest(ts, left, pos) matches Ok((q, _)) ==> or_shaped(q) && tags_ok(q),
    decreases ts.len() - pos,
{
    if 0 <= pos < ts.len() && ts[pos] is Or {
        lemma_and_shape(ts, pos + 1);
        lemma_and_advances(ts, pos + 1);
        match and_at(ts, pos + 1) {
            Ok((right, p)) => {
                lemma_or_rest_shape(ts, QueryView::Or(Box::new(left), Box::new(right)), p);
            },
            Err(e) => {},
        }
    }
}

/// Every query that the reader gives has the shape of the grammar, and tags
/// in lower case.
pub proof fn lemma_parsed_shape(query: Seq<char>)
    ensures
        parsed(query) matches Ok(q) ==> or_shaped(q) && tags_ok(q),
{
    lemma_tokens_ok(words_of(query));
    match tokenized(query) {
        Ok(ts) => {
            lemma_and_shape(ts, 0);
            match and_at(ts, 0) {
                Ok((left, p)) => {
                    lemma_or_rest_shape(ts, left, p);
                },
                Err(e) => {},
            }
        },
        Err(e) => {},
    }
}

// ---------------------------------------------------------------------------
// Words of a printed query
// ---------------------------------------------------------------------------

proof fn lemma_words_of_solid(s: Seq<char>, i: int)
    requires
        s.len() > 0,
        0 <= i <= s.len(),
        forall|j: int| 0 <= j < s.len() ==> !is_whitespace(#[trigger] s[j]),
    ensures
        words_scan(s, 0, i) == seq![s],
    decreases s.len() - i,
{
    if i < s.len() {
        lemma_words_of_solid(s, i + 1);
    } else {
        assert(s.subrange(0, s.len() as int) =~= s);
    }
}

proof fn lemma_words_shift(x: Seq<char>, y: Seq<char>, a: int, b: int)
    requires
        0 <= a <= b <= y.len(),
    ensures
        words_scan(x + seq![' '] + y, x.len() + 1 + a, x.len() + 1 + b) == words_scan(y, a, b),
    decreases y.len() - b,
{
    let s = x + seq![' '] + y;
    let k = x.len() + 1;
    assert(forall|j: int| 0 <= j < y.len() ==> s[k + j] == y[j]);
    if b >= y.len() {
        if a < y.len() {
            assert(s.subrange(k + a, s.len() as int) =~= y.subrange(a, y.len() as int));
        }
    } else if is_whitespace(y[b]) {
        lemma_words_shift(x, y, b + 1, b + 1);
        if a < b {
            assert(s.subrange(k + a, k + b) =~= y.subrange(a, b));
        }
    } else {
        lemma_words_shift(x, y, a, b + 1);
    }
}

proof fn lemma_words_join_scan(x: Seq<char>, y: Seq<char>, start: int, i: int)
    requires
        0 <= start <= i <= x.len(),
    ensures
        words_scan(x + seq![' '] + y, start, i) == words_scan(x, start, i) + words_of(y),
    decreases x.len() - i,
{
    let s = x + seq![' '] + y;
    assert(forall|j: int| 0 <= j < x.len() ==> s[j] == x[j]);
    assert(s[x.len() as int] == ' ');
    if i == x.len() {
        lemma_words_shift(x, y, 0, 0);
        if start < i {
            assert(s.subrange(start, i) =~= x.subrange(start, x.len() as int));
        }
        assert(words_scan(x, start, i) + words_of(y) =~= words_scan(s, start, i));
    } else if is_whitespace(x[i]) {
        lemma_words_join_scan(x, y, i + 1, i + 1);
        if start < i {
            assert(s.subrange(start, i) =~= x.subrange(start, i));
            assert(words_scan(x, start, i) + words_of(y) =~= seq![x.subrange(start, i)] + (
            words_scan(x, i + 1, i + 1) + words_of(y)));
        }
    } else {
        lemma_words_join_scan(x, y, start, i + 1);
    }
}

/// The words of two texts with one space between them are the words of the
/// first, then those of the second.
pub proof fn lemma_words_join(x: Seq<char>, y: Seq<char>)
    ensures
        words_of(x + seq![' '] + y) == words_of(x) + words_of(y),
{
    lemma_words_join_scan(x, y, 0, 0);
}

/// The words that a printed query is made of.
pub open spec fn tree_words(q: QueryView) -> Seq<Seq<char>>
    decreases q,
{
    match q {
        QueryView::Single(tag) => seq![seq!['#'] + tag],
        QueryView::And(l, r) => tree_words(*l) + seq!["AND"@] + tree_words(*r),
        QueryView::Or(l, r) => tree_words(*l) + seq!["OR"@] + tree_words(*r),
        QueryView::Not(x) => seq!["NOT"@] + tree_words(*x),
    }
}

/// The tokens that a printed query is made of.
pub open spec fn tree_tokens(q: QueryView) -> Seq<Tok>
    decreases q,
{
    match q {
        QueryView::Single(tag) => seq![Tok::Tag(tag)],
        QueryView::And(l, r) => tree_tokens(*l) + seq![Tok::And] + tree_tokens(*r),
        QueryView::Or(l, r) => tree_tokens(*l) + seq![Tok::Or] + tree_tokens(*r),
        QueryView::Not(x) => seq![Tok::Not] + tree_tokens(*x),
    }
}

proof fn lemma_tag_chars_solid(tag: Seq<char>)
    requires
        all_tag_chars(tag),
    ensures
        forall|j: int| 0 <= j < tag.len() ==> !is_whitespace(#[trigger] tag[j]),
{
    assert forall|j: int| 0 <= j < tag.len() implies !is_whitespace(#[trigger] tag[j]) by {
        assert(is_tag_char(tag[j]));
    }
}

proof fn lemma_printed_words(q: QueryView)
    requires
        tags_ok(q),
        !has_or(q),
    ensures
        words_of(printed(q)) == tree_words(q),
    decreases q,
{
    reveal_strlit("AND");
    reveal_strlit("NOT");
    reveal_strlit(" AND ");
    reveal_strlit("NOT ");
    match q {
        QueryView::Single(tag) => {
            lemma_tag_chars_solid(tag);
            let w = seq!['#'] + tag;
            assert forall|j: int| 0 <= j < w.len() implies !is_whitespace(#[trigger] w[j]) by {
                if j > 0 {
                    assert(w[j] == tag[j - 1]);
                }
            }
            lemma_words_of_solid(w, 0);
        },
        QueryView::And(l, r) => {
            lemma_printed_words(*l);
            lemma_printed_words(*r);
            let pl = printed(*l);
            let pr = printed(*r);
            let tail = "AND"@ + seq![' '] + pr;
            assert(printed(q) =~= pl + seq![' '] + tail);
            lemma_words_join(pl, tail);
            lemma_words_join("AND"@, pr);
            lemma_words_of_solid("AND"@, 0);
            assert(words_of(printed(q)) =~= tree_words(q));
        },
        QueryView::Or(l, r) => {},
        QueryView::Not(x) => {
            lemma_printed_words(*x);
            let px = printed(*x);
            assert(printed(q) =~= "NOT"@ + seq![' '] + px);
            lemma_words_join("NOT"@, px);
            lemma_words_of_solid("NOT"@, 0);
        },
    }
}

// ---------------------------------------------------------------------------
// Tokens of a printed query
// ---------------------------------------------------------------------------

proof fn lemma_tokens_concat(a: Seq<Seq<char>>, b: Seq<Seq<char>>)
    requires
        tokens_of(a) is Ok,
        tokens_of(b) is Ok,
    ensures
        tokens_of(a + b) == Ok::<Seq<Tok>, Seq<char>>(tokens_of(a)->Ok_0 + tokens_of(b)->Ok_0),
    decreases b.len(),
{
    if b.len() == 0 {
        assert(a + b =~= a);
        assert(tokens_of(a)->Ok_0 + tokens_of(b)->Ok_0 =~= tokens_of(a)->Ok_0);
    } else {
        assert((a + b).drop_last() =~= a + b.drop_last());
        assert((a + b).last() == b.last());
        lemma_tokens_concat(a, b.drop_last());
        let ta = tokens_of(a)->Ok_0;
        let tb = tokens_of(b.drop_last())->Ok_0;
        let t = token_of(b.last())->Ok_0;
        assert((ta + tb).push(t) =~= ta + tb.push(t));
    }
}

proof fn lemma_tokens_one(word: Seq<char>)
    requires
        token_of(word) is Ok,
    ensures
        tokens_of(seq![word]) == Ok::<Seq<Tok>, Seq<char>>(seq![token_of(word)->Ok_0]),
{
    let w = seq![word];
    assert(w.drop_last() =~= Seq::<Seq<char>>::empty());
    assert(tokens_of(Seq::<Seq<char>>::empty()) == Ok::<Seq<Tok>, Seq<char>>(seq![]));
    assert(w.last() == word);
    assert(Seq::<Tok>::empty().push(token_of(word)->Ok_0) =~= seq![token_of(word)->Ok_0]);
}

proof fn lemma_operator_tokens()
    ensures
        token_of("AND"@) == Ok::<Tok, Seq<char>>(Tok::And),
        token_of("NOT"@) == Ok::<Tok, Seq<char>>(Tok::Not),
{
    reveal_strlit("AND");
    reveal_strlit("OR");
    reveal_strlit("NOT");
    assert(lowered("NOT"@)[0] != lowered("AND"@)[0]);
    assert(lowered("NOT"@).len() != lowered("OR"@).len());
}

proof fn lemma_tag_token(tag: Seq<char>)
    requires
        tag_ok(tag),
    ensures
        token_of(seq!['#'] + tag) == Ok::<Tok, Seq<char>>(Tok::Tag(tag)),
{
    reveal_strlit("AND");
    reveal_strlit("OR");
    reveal_strlit("NOT");
    let w = seq!['#'] + tag;
    assert(lowered(w)[0] == '#');
    assert(lowered("AND"@)[0] != '#');
    assert(lowered("OR"@)[0] != '#');
    assert(lowered("NOT"@)[0] != '#');
    assert(without_hash(w) =~= tag);
}

proof fn lemma_printed_tokens(q: QueryView)
    requires
        tags_ok(q),
        !has_or(q),
    ensures
        tokens_of(tree_words(q)) == Ok::<Seq<Tok>, Seq<char>>(tree_tokens(q)),
        tree_tokens(q).len() > 0,
    decreases q,
{
    lemma_operator_tokens();
    match q {
        QueryView::Single(tag) => {
            lemma_tag_token(tag);
            lemma_tokens_one(seq!['#'] + tag);
        },
        QueryView::And(l, r) => {
            lemma_printed_tokens(*l);
            lemma_printed_tokens(*r);
            lemma_tokens_one("AND"@);
            lemma_tokens_concat(tree_words(*l), seq!["AND"@]);
            lemma_tokens_concat(tree_words(*l) + seq!["AND"@], tree_words(*r));
        },
        QueryView::Or(l, r) => {},
        QueryView::Not(x) => {
            lemma_printed_tokens(*x);
            lemma_tokens_one("NOT"@);
            lemma_tokens_concat(seq!["NOT"@], tree_words(*x));
        },
    }
}

// ---------------------------------------------------------------------------
// Reading the tokens of a printed query
// ---------------------------------------------------------------------------

/// `part` stands in `ts` at `pos`.
pub open spec fn stands_at(ts: Seq<Tok>, part: Seq<Tok>, pos: int) -> bool {
    0 <= pos && pos + part.len() <= ts.len() && ts.subrange(pos, pos + part.len()) == part
}

proof fn lemma_stands_parts(ts: Seq<Tok>, a: Seq<Tok>, b: Seq<Tok>, pos: int)
    requires
        stands_at(ts, a + b, pos),
    ensures
        stands_at(ts, a, pos),
        stands_at(ts, b, pos + a.len()),
{
    let whole = ts.subrange(pos, pos + (a + b).len());
    assert(ts.subrange(pos, pos + a.len()) =~= whole.subrange(0, a.len() as int));
    assert(whole.subrange(0, a.len() as int) =~= a);
    assert(ts.subrange(pos + a.len(), pos + a.len() + b.len()) =~= whole.subrange(
        a.len() as int,
        (a + b).len() as int,
    ));
    assert(whole.subrange(a.len() as int, (a + b).len() as int) =~= b);
}

proof fn lemma_read_not(q: QueryView, ts: Seq<Tok>, pos: int)
    requires
        not_shaped(q),
        stands_at(ts, tree_tokens(q), pos),
    ensures
        not_at(ts, pos) == Ok::<(QueryView, int), Seq<char>>((q, pos + tree_tokens(q).len())),
    decreases q,
{
    match q {
        QueryView::Single(tag) => {
            assert(ts.subrange(pos, pos + 1)[0] == Tok::Tag(tag));
        },
        QueryView::Not(x) => {
            lemma_stands_parts(ts, seq![Tok::Not], tree_tokens(*x), pos);
            assert(ts.subrange(pos, pos + 1)[0] == Tok::Not);
            lemma_read_not(*x, ts, pos + 1);
        },
        _ => {},
    }
}

proof fn lemma_read_and(q: QueryView, ts: Seq<Tok>, pos: int)
    requires
        and_shaped(q),
        stands_at(ts, tree_tokens(q), pos),
    ensures
        and_at(ts, pos) == and_rest(ts, q, pos + tree_tokens(q).len()),
    decreases q,
{
    match q {
        QueryView::And(l, r) => {
            let tl = tree_tokens(*l);
            let tr = tree_tokens(*r);
            assert(tree_tokens(q) =~= tl + (seq![Tok::And] + tr));
            lemma_stands_parts(ts, tl, seq![Tok::And] + tr, pos);
            lemma_stands_parts(ts, seq![Tok::And], tr, pos + tl.len());
            lemma_read_and(*l, ts, pos);
            let past = pos + tl.len();
            assert(ts.subrange(past, past + 1)[0] == Tok::And);
            lemma_read_not(*r, ts, past + 1);
        },
        _ => {
            lemma_read_not(q, ts, pos);
        },
    }
}

/// The tokens of a printed query without `OR` spell that query.
proof fn lemma_read_printed(q: QueryView)
    requires
        and_shaped(q),
    ensures
        parsed_tokens(tree_tokens(q)) == Ok::<QueryView, Seq<char>>(q),
{
    let ts = tree_tokens(q);
    assert(ts.subrange(0, ts.len() as int) =~= ts);
    lemma_read_and(q, ts, 0);
}

proof fn lemma_or_free_shape(q: QueryView)
    requires
        or_shaped(q),
        !has_or(q),
    ensures
        and_shaped(q),
{
}

// ---------------------------------------------------------------------------
// The law
// ---------------------------------------------------------------------------

/// A query with tags in lower case, in the shape that `and` of the grammar
/// gives (no `OR`), is read back from its printed text unchanged.
pub proof fn lemma_print_then_parse(q: QueryView)
    requires
        and_shaped(q),
        tags_ok(q),
        !has_or(q),
    ensures
        parsed(printed(q)) == Ok::<QueryView, Seq<char>>(q),
{
    lemma_printed_words(q);
    lemma_printed_tokens(q);
    lemma_read_printed(q);
}

/// Printing and reading again keeps the meaning: where a text is read as a
/// query that holds no `OR`, the printed query is read as the same query, so
/// both hold of the same sets of tags. (A printed `OR` stands in parentheses,
/// which the reader does not take: such a text is for display alone.)
pub proof fn law_print_parse_round_trip(query: Seq<char>, tags: Set<Seq<char>>)
    requires
        parsed(query) is Ok,
        !has_or(parsed(query)->Ok_0),
    ensures
        parsed(printed(parsed(query)->Ok_0)) is Ok,
        parsed(printed(parsed(query)->Ok_0)) == parsed(query),
        holds(parsed(printed(parsed(query)->Ok_0))->Ok_0, tags) == holds(
            parsed(query)->Ok_0,
            tags,
        ),
{
    let q = parsed(query)->Ok_0;
    lemma_parsed_shape(query);
    lemma_or_free_shape(q);
    lemma_print_then_parse(q);
}

} // verus!
