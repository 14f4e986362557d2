//! Boolean queries over tags: reading, evaluating and printing them.
//!
//! The grammar, from the loosest binding to the tightest:
//!
//! ```text
//! or      := and (OR and)*
//! and     := not (AND not)*
//! not     := NOT not | primary
//! primary := TAG
//! ```

use vstd::prelude::*;
use crate::error::DjourError;
use crate::text::{
    chars_of, decimal, eq_ignore_case, equal_ignore_case, extend, extend_str, lowercase, lowered,
    push_decimal, slice, str_views, string_of, vec_views, words, words_of,
};

verus! {

// ---------------------------------------------------------------------------
// The tree
// ---------------------------------------------------------------------------

/// A query over tags.
#[derive(Debug, PartialEq, Eq)]
pub enum TagQuery {
    /// The tag is present.
    Single(String),
    /// Both hold.
    And(Box<TagQuery>, Box<TagQuery>),
    /// At least one holds.
    Or(Box<TagQuery>, Box<TagQuery>),
    /// The inner query does not hold.
    Not(Box<TagQuery>),
}

impl TagQuery {
    /// A copy of the query.
    pub fn copy(&self) -> (q: TagQuery)
        ensures
            q@ == self@,
        decreases self,
    {
        match self {
            TagQuery::Single(tag) => TagQuery::Single(tag.clone()),
            TagQuery::And(l, r) => TagQuery::And(Box::new(l.copy()), Box::new(r.copy())),
            TagQuery::Or(l, r) => TagQuery::Or(Box::new(l.copy()), Box::new(r.copy())),
            TagQuery::Not(x) => TagQuery::Not(Box::new(x.copy())),
        }
    }
}

impl Clone for TagQuery {
    fn clone(&self) -> (q: TagQuery)
        ensures
            q@ == self@,
    {
        self.copy()
    }
}

/// The mathematical form of a query.
pub ghost enum QueryView {
    Single(Seq<char>),
    And(Box<QueryView>, Box<QueryView>),
    Or(Box<QueryView>, Box<QueryView>),
    Not(Box<QueryView>),
}

/// The mathematical form of `q`.
pub open spec fn model(q: TagQuery) -> QueryView
    decreases q,
{
    match q {
        TagQuery::Single(tag) => QueryView::Single(tag@),
        TagQuery::And(l, r) => QueryView::And(Box::new(model(*l)), Box::new(model(*r))),
        TagQuery::Or(l, r) => QueryView::Or(Box::new(model(*l)), Box::new(model(*r))),
        TagQuery::Not(x) => QueryView::Not(Box::new(model(*x))),
    }
}

impl View for TagQuery {
    type V = QueryView;

    open spec fn view(&self) -> QueryView {
        model(*self)
    }
}

/// Whether a query holds of a set of tags.
pub open spec fn holds(q: QueryView, tags: Set<Seq<char>>) -> bool
    decreases q,
{
    match q {
        QueryView::Single(tag) => tags.contains(tag),
        QueryView::And(l, r) => holds(*l, tags) && holds(*r, tags),
        QueryView::Or(l, r) => holds(*l, tags) || holds(*r, tags),
        QueryView::Not(x) => !holds(*x, tags),
    }
}

/// The text of a query: tags with `#` in front, the operands of `OR` in one
/// pair of parentheses, `AND` and `NOT` without any.
pub open spec fn printed(q: QueryView) -> Seq<char>
    decreases q,
{
    match q {
        QueryView::Single(tag) => seq!['#'] + tag,
        QueryView::And(l, r) => printed(*l) + " AND "@ + printed(*r),
        QueryView::Or(l, r) => seq!['('] + printed(*l) + " OR "@ + printed(*r) + seq![')'],
        QueryView::Not(x) => "NOT "@ + printed(*x),
    }
}

// ---------------------------------------------------------------------------
// Tokens
// ---------------------------------------------------------------------------

/// One word of a query.
#[derive(Debug, Clone)]
pub enum Token {
    Tag(Vec<char>),
    And,
    Or,
    Not,
}

/// The mathematical form of a token.
pub ghost enum Tok {
    Tag(Seq<char>),
    And,
    Or,
    Not,
}

impl View for Token {
    type V = Tok;

    open spec fn view(&self) -> Tok {
        match self {
            Token::Tag(t) => Tok::Tag(t@),
            Token::And => Tok::And,
            Token::Or => Tok::Or,
            Token::Not => Tok::Not,
        }
    }
}

/// The views of a list of tokens.
pub open spec fn token_views(ts: Seq<Token>) -> Seq<Tok> {
    Seq::new(ts.len(), |i: int| ts[i]@)
}

/// The characters of which tags are made.
pub open spec fn is_tag_char(c: char) -> bool {
    ('a' <= c && c <= 'z') || ('A' <= c && c <= 'Z') || ('0' <= c && c <= '9') || c == '-' || c
        == '_'
}

/// Whether a character may stand in a tag.
pub fn tag_char(c: char) -> (r: bool)
    ensures
        r == is_tag_char(c),
{
    ('a' <= c && c <= 'z') || ('A' <= c && c <= 'Z') || ('0' <= c && c <= '9') || c == '-' || c
        == '_'
}

/// Every character of the text may stand in a tag.
pub open spec fn all_tag_chars(s: Seq<char>) -> bool {
    forall|i: int| 0 <= i < s.len() ==> is_tag_char(#[trigger] s[i])
}

/// Whether every character of a text may stand in a tag.
pub fn only_tag_chars(s: &Vec<char>) -> (r: bool)
    ensures
        r == all_tag_chars(s@),
{
    let mut i: usize = 0;
    while i < s.len()
        invariant
            i <= s.len(),
            forall|j: int| 0 <= j < i ==> is_tag_char(#[trigger] s@[j]),
        decreases s.len() - i,
    {
        if !tag_char(s[i]) {
            return false;
        }
        i += 1;
    }
    true
}

/// A word without the `#` that may stand in front of it.
pub open spec fn without_hash(word: Seq<char>) -> Seq<char> {
    if word.len() > 0 && word[0] == '#' {
        word.subrange(1, word.len() as int)
    } else {
        word
    }
}

/// The token that a word stands for, or the message of the error, which
/// names the word: as it stands where nothing follows its `#`, without the
/// `#` where a character may not stand in a tag.
pub open spec fn token_of(word: Seq<char>) -> Result<Tok, Seq<char>> {
    if eq_ignore_case(word, "AND"@) {
        Ok(Tok::And)
    } else if eq_ignore_case(word, "OR"@) {
        Ok(Tok::Or)
    } else if eq_ignore_case(word, "NOT"@) {
        Ok(Tok::Not)
    } else {
        let tag = without_hash(word);
        if tag.len() == 0 {
            Err("Invalid tag: "@ + word)
        } else if !all_tag_chars(tag) {
            Err("Invalid tag: "@ + tag)
        } else {
            Ok(Tok::Tag(lowered(tag)))
        }
    }
}

/// The tokens of a list of words; the first word that is no token decides
/// the error.
pub open spec fn tokens_of(words: Seq<Seq<char>>) -> Result<Seq<Tok>, Seq<char>>
    decreases words.len(),
{
    if words.len() == 0 {
        Ok(seq![])
    } else {
        match tokens_of(words.drop_last()) {
            Err(e) => Err(e),
            Ok(ts) => match token_of(words.last()) {
                Err(e) => Err(e),
                Ok(t) => Ok(ts.push(t)),
            },
        }
    }
}

/// The tokens of a query text, which must hold at least one.
pub open spec fn tokenized(query: Seq<char>) -> Result<Seq<Tok>, Seq<char>> {
    match tokens_of(words_of(query)) {
        Err(e) => Err(e),
        Ok(ts) => if ts.len() == 0 {
            Err("Empty query"@)
        } else {
            Ok(ts)
        },
    }
}

/// A result agrees with what the grammar gives.
pub open spec fn agrees<T: View>(r: Result<T, DjourError>, expected: Result<T::V, Seq<char>>) -> bool {
    match expected {
        Ok(v) => r matches Ok(t) && t@ == v,
        Err(m) => r matches Err(DjourError::Config(msg)) && msg@ == m,
    }
}

fn token_for(word: &Vec<char>) -> (r: Result<Token, DjourError>)
    ensures
        agrees(r, token_of(word@)),
{
    if equal_ignore_case(word, &chars_of("AND")) {
        Ok(Token::And)
    } else if equal_ignore_case(word, &chars_of("OR")) {
        Ok(Token::Or)
    } else if equal_ignore_case(word, &chars_of("NOT")) {
        Ok(Token::Not)
    } else {
        let tag = if word.len() > 0 && word[0] == '#' {
            slice(word, 1, word.len())
        } else {
            slice(word, 0, word.len())
        };
        assert(tag@ =~= without_hash(word@));
        if tag.len() == 0 {
            let mut msg = chars_of("Invalid tag: ");
            extend(&mut msg, word);
            Err(DjourError::Config(string_of(&msg)))
        } else if !only_tag_chars(&tag) {
            let mut msg = chars_of("Invalid tag: ");
            extend(&mut msg, &tag);
            Err(DjourError::Config(string_of(&msg)))
        } else {
            Ok(Token::Tag(lowercase(&tag)))
        }
    }
}

/// Splits a query at white space and reads each word as a token.
pub fn tokenize(query: &str) -> (r: Result<Vec<Token>, DjourError>)
    ensures
        match tokenized(query@) {
            Ok(ts) => r matches Ok(v) && token_views(v@) == ts,
            Err(m) => r matches Err(DjourError::Config(msg)) && msg@ == m,
        },
{
    let chars = chars_of(query);
    let ws = words(&chars);
    let mut tokens: Vec<Token> = Vec::new();
    let mut i: usize = 0;
    assert(vec_views(ws@).take(0) =~= Seq::<Seq<char>>::empty());
    assert(token_views(tokens@) =~= Seq::<Tok>::empty());
    while i < ws.len()
        invariant
            i <= ws.len(),
            vec_views(ws@) == words_of(query@),
            tokens_of(vec_views(ws@).take(i as int)) == Ok::<Seq<Tok>, Seq<char>>(
                token_views(tokens@),
            ),
        decreases ws.len() - i,
    {
        let ghost done = vec_views(ws@).take(i as int);
        let ghost next = vec_views(ws@).take(i + 1);
        assert(next.drop_last() =~= done);
        assert(next.last() == ws@[i as int]@);
        match token_for(&ws[i]) {
            Err(e) => {
                proof {
                    lemma_tokens_error_stays(vec_views(ws@), i + 1);
                    assert(vec_views(ws@).take(ws.len() as int) =~= vec_views(ws@));
                }
                return Err(e);
            },
            Ok(t) => {
                let ghost before = token_views(tokens@);
                tokens.push(t);
                assert(token_views(tokens@) =~= before.push(t@));
            },
        }
        i += 1;
    }
    assert(vec_views(ws@).take(ws.len() as int) =~= vec_views(ws@));
    if tokens.len() == 0 {
        return Err(DjourError::config("Empty query"));
    }
    Ok(tokens)
}

/// Once a prefix of the words fails, every longer prefix fails alike.
pub proof fn lemma_tokens_error_stays(words: Seq<Seq<char>>, n: int)
    requires
        0 <= n <= words.len(),
        tokens_of(words.take(n)) is Err,
    ensures
        tokens_of(words) == tokens_of(words.take(n)),
    decreases words.len() - n,
{
    if n < words.len() {
        assert(words.take(n + 1).drop_last() =~= words.take(n));
        lemma_tokens_error_stays(words, n + 1);
    } else {
        assert(words.take(n) =~= words);
    }
}

// ---------------------------------------------------------------------------
// The grammar
// ---------------------------------------------------------------------------

/// How a token that stands where a tag must stand is named in the error.
pub open spec fn token_name(t: Tok) -> Seq<char> {
    match t {
        Tok::Tag(tag) => "Tag"@,
        Tok::And => "And"@,
        Tok::Or => "Or"@,
        Tok::Not => "Not"@,
    }
}

/// `primary := TAG`, read at `pos`: the query and the position after it.
pub open spec fn primary_at(ts: Seq<Tok>, pos: int) -> Result<(QueryView, int), Seq<char>> {
    if pos < 0 || pos >= ts.len() {
        Err("Unexpected end of query"@)
    } else {
        match ts[pos] {
            Tok::Tag(tag) => Ok((QueryView::Single(tag), pos + 1)),
            other => Err("Expected tag, found "@ + token_name(other)),
        }
    }
}

/// `not := NOT not | primary`, read at `pos`.
pub open spec fn not_at(ts: Seq<Tok>, pos: int) -> Result<(QueryView, int), Seq<char>>
    decreases ts.len() - pos,
{
    if pos < 0 || pos >= ts.len() {
        Err("Unexpected end of query"@)
    } else if ts[pos] is Not {
        match not_at(ts, pos + 1) {
            Ok((q, p)) => Ok((QueryView::Not(Box::new(q)), p)),
            Err(e) => Err(e),
        }
    } else {
        primary_at(ts, pos)
    }
}

/// What is read does not end before it began.
pub proof fn lemma_not_advances(ts: Seq<Tok>, pos: int)
    ensures
        not_at(ts, pos) matches Ok((_, p)) ==> pos < p <= ts.len(),
    decreases ts.len() - pos,
{
    if 0 <= pos < ts.len() && ts[pos] is Not {
        lemma_not_advances(ts, pos + 1);
    }
}

/// `(AND not)*` read at `pos`, after `left`.
pub open spec fn and_rest(ts: Seq<Tok>, left: QueryView, pos: int) -> Result<
    (QueryView, int),
    Seq<char>,
>
    decreases ts.len() - pos,
{
    if 0 <= pos < ts.len() && ts[pos] is And {
        match not_at(ts, pos + 1) {
            Ok((right, p)) => {
                proof {
                    lemma_not_advances(ts, pos + 1);
                }
                and_rest(ts, QueryView::And(Box::new(left), Box::new(right)), p)
            },
            Err(e) => Err(e),
        }
    } else {
        Ok((left, pos))
    }
}

/// `and := not (AND not)*`, read at `pos`.
pub open spec fn and_at(ts: Seq<Tok>, pos: int) -> Result<(QueryView, int), Seq<char>> {
    match not_at(ts, pos) {
        Ok((left, p)) => and_rest(ts, left, p),
        Err(e) => Err(e),
    }
}

/// Reading the rest of a conjunction never goes back.
pub proof fn lemma_and_rest_advances(ts: Seq<Tok>, left: QueryView, pos: int)
    requires
        pos <= ts.len(),
    ensures
        and_rest(ts, left, pos) matches Ok((_, p)) ==> pos <= p <= ts.len(),
    decreases ts.len() - pos,
{
    if 0 <= pos < ts.len() && ts[pos] is And {
        lemma_not_advances(ts, pos + 1);
        match not_at(ts, pos + 1) {
            Ok((right, p)) => {
                lemma_and_rest_advances(
                    ts,
                    QueryView::And(Box::new(left), Box::new(right)),
                    p,
                );
            },
            Err(e) => {},
        }
    }
}

/// Reading a conjunction takes at least one token.
pub proof fn lemma_and_advances(ts: Seq<Tok>, pos: int)
    ensures
        and_at(ts, pos) matches Ok((_, p)) ==> pos < p <= ts.len(),
{
    lemma_not_advances(ts, pos);
    match not_at(ts, pos) {
        Ok((left, p)) => {
            lemma_and_rest_advances(ts, left, p);
        },
        Err(e) => {},
    }
}

/// `(OR and)*` read at `pos`, after `left`.
pub open spec fn or_rest(ts: Seq<Tok>, left: QueryView, pos: int) -> Result<
    (QueryView, int),
    Seq<char>,
>
    decreases ts.len() - pos,
{
    if 0 <= pos < ts.len() && ts[pos] is Or {
        match and_at(ts, pos + 1) {
            Ok((right, p)) => {
                proof {
                    lemma_and_advances(ts, pos + 1);
                }
                or_rest(ts, QueryView::Or(Box::new(left), Box::new(right)), p)
            },
            Err(e) => Err(e),
        }
    } else {
        Ok((left, pos))
    }
}

/// `or := and (OR and)*`, read at `pos`.
pub open spec fn or_at(ts: Seq<Tok>, pos: int) -> Result<(QueryView, int), Seq<char>> {
    match and_at(ts, pos) {
        Ok((left, p)) => or_rest(ts, left, p),
        Err(e) => Err(e),
    }
}

/// The query that a list of tokens spells, all of them read.
pub open spec fn parsed_tokens(ts: Seq<Tok>) -> Result<QueryView, Seq<char>> {
    match or_at(ts, 0) {
        Ok((q, p)) => if p != ts.len() {
            Err("Unexpected tokens after position "@ + decimal(p as nat))
        } else {
            Ok(q)
        },
        Err(e) => Err(e),
    }
}

/// The query that a text spells.
pub open spec fn parsed(query: Seq<char>) -> Result<QueryView, Seq<char>> {
    match tokenized(query) {
        Ok(ts) => parsed_tokens(ts),
        Err(e) => Err(e),
    }
}

/// What a parsing function returns: the query read and where reading ended,
/// or the error.
pub open spec fn reads(
    r: Result<TagQuery, DjourError>,
    end: usize,
    expected: Result<(QueryView, int), Seq<char>>,
) -> bool {
    match expected {
        Ok((q, p)) => r matches Ok(t) && t@ == q && end == p,
        Err(m) => r matches Err(DjourError::Config(msg)) && msg@ == m,
    }
}

fn is_and(t: &Token) -> (r: bool)
    ensures
        r == (t@ is And),
{
    match t {
        Token::And => true,
        _ => false,
    }
}

fn is_or(t: &Token) -> (r: bool)
    ensures
        r == (t@ is Or),
{
    match t {
        Token::Or => true,
        _ => false,
    }
}

fn is_not(t: &Token) -> (r: bool)
    ensures
        r == (t@ is Not),
{
    match t {
        Token::Not => true,
        _ => false,
    }
}

/// Reads one tag.
pub fn parse_primary(tokens: &Vec<Token>, pos: &mut usize) -> (r: Result<TagQuery, DjourError>)
    ensures
        reads(r, *final(pos), primary_at(token_views(tokens@), *old(pos) as int)),
{
    if *pos >= tokens.len() {
        return Err(DjourError::config("Unexpected end of query"));
    }
    match &tokens[*pos] {
        Token::Tag(tag) => {
            *pos += 1;
            Ok(TagQuery::Single(string_of(tag)))
        },
        Token::And => {
            let mut msg = chars_of("Expected tag, found ");
            extend_str(&mut msg, "And");
            Err(DjourError::Config(string_of(&msg)))
        },
        Token::Or => {
            let mut msg = chars_of("Expected tag, found ");
            extend_str(&mut msg, "Or");
            Err(DjourError::Config(string_of(&msg)))
        },
        Token::Not => {
            let mut msg = chars_of("Expected tag, found ");
            extend_str(&mut msg, "Not");
            Err(DjourError::Config(string_of(&msg)))
        },
    }
}

/// Reads any number of `NOT`, then one tag.
pub fn parse_not(tokens: &Vec<Token>, pos: &mut usize) -> (r: Result<TagQuery, DjourError>)
    ensures
        reads(r, *final(pos), not_at(token_views(tokens@), *old(pos) as int)),
    decreases tokens.len() - *old(pos),
{
    if *pos >= tokens.len() {
        return Err(DjourError::config("Unexpected end of query"));
    }
    if is_not(&tokens[*pos]) {
        *pos += 1;
        match parse_not(tokens, pos) {
            Ok(inner) => Ok(TagQuery::Not(Box::new(inner))),
            Err(e) => Err(e),
        }
    } else {
        parse_primary(tokens, pos)
    }
}

/// Reads operands of `AND`, which binds to the left.
pub fn parse_and(tokens: &Vec<Token>, pos: &mut usize) -> (r: Result<TagQuery, DjourError>)
    ensures
        reads(r, *final(pos), and_at(token_views(tokens@), *old(pos) as int)),
{
    let ghost ts = token_views(tokens@);
    let ghost start = *pos as int;
    let mut left = match parse_not(tokens, pos) {
        Ok(q) => q,
        Err(e) => {
            return Err(e);
        },
    };
    proof {
        lemma_not_advances(ts, start);
    }
    while *pos < tokens.len() && is_and(&tokens[*pos])
        invariant
            ts == token_views(tokens@),
            start == *old(pos) as int,
            *pos <= tokens.len(),
            and_at(ts, start) == and_rest(ts, left@, *pos as int),
        decreases tokens.len() - *pos,
    {
        let ghost at = *pos as int;
        assert(ts[at] == tokens@[at]@);
        *pos += 1;
        proof {
            lemma_not_advances(ts, at + 1);
        }
        let right = match parse_not(tokens, pos) {
            Ok(q) => q,
            Err(e) => {
                return Err(e);
            },
        };
        left = TagQuery::And(Box::new(left), Box::new(right));
    }
    assert(*pos < tokens.len() ==> ts[*pos as int] == tokens@[*pos as int]@);
    Ok(left)
}

/// Reads operands of `OR`, which binds to the left and looser than `AND`.
pub fn parse_or(tokens: &Vec<Token>, pos: &mut usize) -> (r: Result<TagQuery, DjourError>)
    ensures
        reads(r, *final(pos), or_at(token_views(tokens@), *old(pos) as int)),
{
    let ghost ts = token_views(tokens@);
    let ghost start = *pos as int;
    let mut left = match parse_and(tokens, pos) {
        Ok(q) => q,
        Err(e) => {
            return Err(e);
        },
    };
    proof {
        lemma_and_advances(ts, start);
    }
    while *pos < tokens.len() && is_or(&tokens[*pos])
        invariant
            ts == token_views(tokens@),
            start == *old(pos) as int,
            *pos <= tokens.len(),
            or_at(ts, start) == or_rest(ts, left@, *pos as int),
        decreases tokens.len() - *pos,
    {
        let ghost at = *pos as int;
        assert(ts[at] == tokens@[at]@);
        *pos += 1;
        proof {
            lemma_and_advances(ts, at + 1);
        }
        let right = match parse_and(tokens, pos) {
            Ok(q) => q,
            Err(e) => {
                return Err(e);
            },
        };
        left = TagQuery::Or(Box::new(left), Box::new(right));
    }
    assert(*pos < tokens.len() ==> ts[*pos as int] == tokens@[*pos as int]@);
    Ok(left)
}

impl TagQuery {
    /// Reads a query. The words are split at white space; `AND`, `OR` and
    /// `NOT` are operators in any case of letters; every other word is a tag,
    /// with or without `#` in front, made of letters, digits, `-` and `_`,
    /// and is taken in lower case.
    pub fn parse(query: &str) -> (r: Result<TagQuery, DjourError>)
        ensures
            agrees(r, parsed(query@)),
    {
        let tokens = match tokenize(query) {
            Ok(t) => t,
            Err(e) => {
                return Err(e);
            },
        };
        let mut pos: usize = 0;
        let result = match parse_or(&tokens, &mut pos) {
            Ok(q) => q,
            Err(e) => {
                return Err(e);
            },
        };
        if pos != tokens.len() {
            let mut msg = chars_of("Unexpected tokens after position ");
            push_decimal(&mut msg, pos);
            return Err(DjourError::Config(string_of(&msg)));
        }
        Ok(result)
    }

    /// Whether the query holds of the tags that `tags` lists.
    pub fn matches(&self, tags: &[String]) -> (r: bool)
        ensures
            r == holds(self@, str_views(tags@).to_set()),
        decreases self,
    {
        match self {
            TagQuery::Single(tag) => has_tag(tags, tag),
            TagQuery::And(l, r) => l.matches(tags) && r.matches(tags),
            TagQuery::Or(l, r) => l.matches(tags) || r.matches(tags),
            TagQuery::Not(x) => !x.matches(tags),
        }
    }

    /// The query as text: see [`printed`].
    pub fn to_string(&self) -> (out: String)
        ensures
            out@ == printed(self@),
    {
        let mut out: Vec<char> = Vec::new();
        self.print_into(&mut out);
        string_of(&out)
    }

    fn print_into(&self, out: &mut Vec<char>)
        ensures
            final(out)@ == old(out)@ + printed(self@),
        decreases self,
    {
        match self {
            TagQuery::Single(tag) => {
                out.push('#');
                extend_str(out, tag.as_str());
                assert(out@ =~= old(out)@ + (seq!['#'] + tag@));
            },
            TagQuery::And(l, r) => {
                l.print_into(out);
                extend_str(out, " AND ");
                r.print_into(out);
                assert(out@ =~= old(out)@ + (printed(l@) + " AND "@ + printed(r@)));
            },
            TagQuery::Or(l, r) => {
                out.push('(');
                l.print_into(out);
                extend_str(out, " OR ");
                r.print_into(out);
                out.push(')');
                assert(out@ =~= old(out)@ + (seq!['('] + printed(l@) + " OR "@ + printed(r@)
                    + seq![')']));
            },
            TagQuery::Not(x) => {
                extend_str(out, "NOT ");
                x.print_into(out);
                assert(out@ =~= old(out)@ + ("NOT "@ + printed(x@)));
            },
        }
    }
}

/// Whether `tag` is one of `tags`.
pub fn has_tag(tags: &[String], tag: &String) -> (r: bool)
    ensures
        r == str_views(tags@).to_set().contains(tag@),
{
    let mut i: usize = 0;
    while i < tags.len()
        invariant
            i <= tags.len(),
            forall|j: int| 0 <= j < i ==> tags@[j]@ != tag@,
        decreases tags.len() - i,
    {
        if tags[i] == *tag {
            assert(str_views(tags@)[i as int] == tag@);
            assert(str_views(tags@).contains(tag@));
            return true;
        }
        i += 1;
    }
    assert(!str_views(tags@).contains(tag@));
    false
}

} // verus!
